//! The digest algorithms that a tree can be asked for by name.

use vstd::prelude::*;
use vstd::string::*;

verus! {

/// A digest algorithm.
#[derive(Copy, Clone, Debug, PartialEq, Eq, Structural)]
pub enum HashAlg {
    Blake2,
    Groestl,
    Ripemd160,
    Ripemd320,
    Sha2,
    Sha3,
    Whirlpool,
}

/// What is said of a name that is none of the algorithms'.
pub open spec fn unknown_alg_message() -> Seq<char> {
    "alg must be one of: blake2, groestl, ripemd160, ripemd320, sha2, sha3, whirlpool"@
}

/// Whether two texts are the same, character by character.
fn same_text(a: &str, b: &str) -> (same: bool)
    ensures
        same == (a@ == b@),
{
    let len = a.unicode_len();
    if len != b.unicode_len() {
        return false;
    }
    let mut i: usize = 0;
    while i < len
        invariant
            i <= len,
            len == a@.len(),
            len == b@.len(),
            a@.take(i as int) == b@.take(i as int),
        decreases len - i,
    {
        if a.get_char(i) != b.get_char(i) {
            return false;
        }
        i += 1;
        proof {
            assert(a@.take(i as int) =~= a@.take(i - 1).push(a@[i - 1]));
            assert(b@.take(i as int) =~= b@.take(i - 1).push(b@[i - 1]));
        }
    }
    proof {
        assert(a@.take(len as int) =~= a@);
        assert(b@.take(len as int) =~= b@);
    }
    true
}

impl HashAlg {
    /// The name that the algorithm is asked for by.
    pub open spec fn name(self) -> Seq<char> {
        match self {
            HashAlg::Blake2 => "blake2"@,
            HashAlg::Groestl => "groestl"@,
            HashAlg::Ripemd160 => "ripemd160"@,
            HashAlg::Ripemd320 => "ripemd320"@,
            HashAlg::Sha2 => "sha2"@,
            HashAlg::Sha3 => "sha3"@,
            HashAlg::Whirlpool => "whirlpool"@,
        }
    }

    /// No two algorithms share a name.
    pub proof fn lemma_names_differ(self, other: HashAlg)
        requires
            self.name() == other.name(),
        ensures
            self == other,
    {
        reveal_strlit("blake2");
        reveal_strlit("groestl");
        reveal_strlit("ripemd160");
        reveal_strlit("ripemd320");
        reveal_strlit("sha2");
        reveal_strlit("sha3");
        reveal_strlit("whirlpool");
        if self != other {
            let a = self.name();
            let b = other.name();
            assert(a.len() != b.len() || a[0] != b[0] || a[3] != b[3] || a[6] != b[6]);
        }
    }

    /// Reads the name of an algorithm, in lower case and in full. Any other
    /// text is answered with a message that lists the names.
    pub fn from_str(a: &str) -> (read: Result<HashAlg, &'static str>)
        ensures
            match read {
                Ok(alg) => a@ == alg.name(),
                Err(message) => message@ == unknown_alg_message() && forall|alg: HashAlg|
                    a@ != #[trigger] alg.name(),
            },
    {
        let err =
            "alg must be one of: blake2, groestl, ripemd160, ripemd320, sha2, sha3, whirlpool";
        if same_text(a, "blake2") {
            Ok(Self::Blake2)
        } else if same_text(a, "groestl") {
            Ok(Self::Groestl)
        } else if same_text(a, "ripemd160") {
            Ok(Self::Ripemd160)
        } else if same_text(a, "ripemd320") {
            Ok(Self::Ripemd320)
        } else if same_text(a, "sha2") {
            Ok(Self::Sha2)
        } else if same_text(a, "sha3") {
            Ok(Self::Sha3)
        } else if same_text(a, "whirlpool") {
            Ok(Self::Whirlpool)
        } else {
            Err(err)
        }
    }
}

} // verus!
