//! Proof elements as text: a tag, `l` or `r`, followed by the text of the
//! digest. How a digest reads as text is up to the caller.

use vstd::prelude::*;
use vstd::string::*;

verus! {

/// A proof element whose digest is read from, or written as, text.
pub enum Elem<T> {
    Left(T),
    Right(T),
}

/// Why a text is not a proof element. `E` is what the reader of digests
/// reports.
#[derive(Debug)]
pub enum ElemFromStrErr<E> {
    /// The text starts with neither `l` nor `r`.
    BadPrefix,
    /// What follows the tag is no digest.
    Inner(E),
}

/// The message for a text without a tag.
pub open spec fn bad_prefix_message() -> Seq<char> {
    "string must be prefixed with either 'l' or 'r'"@
}

impl<T> Elem<T> {
    /// The character that the element's text starts with.
    pub open spec fn tag(self) -> char {
        match self {
            Elem::Left(_) => 'l',
            Elem::Right(_) => 'r',
        }
    }

    /// The digest that the element carries.
    pub open spec fn digest(self) -> T {
        match self {
            Elem::Left(t) => t,
            Elem::Right(t) => t,
        }
    }

    /// Reads an element: the first character is the tag, and `parse` reads
    /// the digest from the rest, which may be empty.
    ///
    /// A text that starts with neither `l` nor `r` is rejected with
    /// `BadPrefix`, without a call of `parse`; an error of `parse` comes
    /// back as `Inner`.
    pub fn from_str<E, F: FnOnce(&str) -> Result<T, E>>(a: &str, parse: F) -> (read: Result<
        Self,
        ElemFromStrErr<E>,
    >)
        requires
            forall|rest: &str| rest@ == a@.skip(1) ==> call_requires(parse, (rest,)),
        ensures
            match read {
                Ok(elem) => {
                    &&& a@.len() > 0 && a@[0] == elem.tag()
                    &&& exists|rest: &str|
                        rest@ == a@.skip(1) && call_ensures(parse, (rest,), Ok(elem.digest()))
                },
                Err(ElemFromStrErr::BadPrefix) => a@.len() == 0 || (a@[0] != 'l' && a@[0] != 'r'),
                Err(ElemFromStrErr::Inner(e)) => {
                    &&& a@.len() > 0 && (a@[0] == 'l' || a@[0] == 'r')
                    &&& exists|rest: &str|
                        rest@ == a@.skip(1) && call_ensures(parse, (rest,), Err(e))
                },
            },
    {
        let len = a.unicode_len();
        if len == 0 {
            return Err(ElemFromStrErr::BadPrefix);
        }
        let tag = a.get_char(0);
        if tag != 'l' && tag != 'r' {
            return Err(ElemFromStrErr::BadPrefix);
        }
        let rest = a.substring_char(1, len);
        proof {
            assert(rest@ =~= a@.skip(1));
        }
        match parse(rest) {
            Ok(t) => if tag == 'l' {
                Ok(Elem::Left(t))
            } else {
                Ok(Elem::Right(t))
            },
            Err(e) => Err(ElemFromStrErr::Inner(e)),
        }
    }

    /// Writes the element: its tag, then the digest as `show` writes it.
    pub fn to_string<F: FnOnce(&T) -> String>(&self, show: F) -> (text: String)
        requires
            call_requires(show, (&self.digest(),)),
        ensures
            exists|inner: String|
                call_ensures(show, (&self.digest(),), inner) && text@ == seq![self.tag()]
                    + inner@,
    {
        let (c, a) = match self {
            Self::Left(a) => ("l", a),
            Self::Right(a) => ("r", a),
        };
        proof {
            reveal_strlit("l");
            reveal_strlit("r");
            assert(c@ =~= seq![self.tag()]);
        }
        let inner = show(a);
        String::from_str(c).concat(inner.as_str())
    }
}

impl<E> ElemFromStrErr<E> {
    /// Says what was wrong with the text: a fixed message for a missing
    /// tag, and for a bad digest what `show` makes of its reader's error.
    pub fn to_string<F: FnOnce(&E) -> String>(&self, show: F) -> (text: String)
        requires
            *self matches ElemFromStrErr::Inner(e) ==> call_requires(show, (&e,)),
        ensures
            match *self {
                ElemFromStrErr::BadPrefix => text@ == bad_prefix_message(),
                ElemFromStrErr::Inner(e) => call_ensures(show, (&e,), text),
            },
    {
        match self {
            Self::BadPrefix => String::from_str("string must be prefixed with either 'l' or 'r'"),
            Self::Inner(a) => show(a),
        }
    }
}

} // verus!
