use mrklt::alg::HashAlg;
use mrklt::proofelem::{Elem, ElemFromStrErr};
use std::num::ParseIntError;

fn read(a: &str) -> Result<Elem<u32>, ElemFromStrErr<ParseIntError>> {
    Elem::from_str(a, |rest: &str| rest.parse::<u32>())
}

#[test]
fn element_reads_its_tag_and_digest() {
    assert!(matches!(read("l12"), Ok(Elem::Left(12))));
    assert!(matches!(read("r7"), Ok(Elem::Right(7))));
    assert!(matches!(read("l0"), Ok(Elem::Left(0))));
}

#[test]
fn element_without_tag_is_a_bad_prefix() {
    assert!(matches!(read(""), Err(ElemFromStrErr::BadPrefix)));
    assert!(matches!(read("12"), Err(ElemFromStrErr::BadPrefix)));
    assert!(matches!(read("x12"), Err(ElemFromStrErr::BadPrefix)));
    assert!(matches!(read("L12"), Err(ElemFromStrErr::BadPrefix)));
    assert!(matches!(read("é1"), Err(ElemFromStrErr::BadPrefix)));
}

#[test]
fn element_with_bad_digest_is_an_inner_error() {
    assert!(matches!(read("l"), Err(ElemFromStrErr::Inner(_))));
    assert!(matches!(read("rx"), Err(ElemFromStrErr::Inner(_))));
    assert!(matches!(read("ll1"), Err(ElemFromStrErr::Inner(_))));
}

#[test]
fn element_reader_sees_what_follows_the_tag() {
    let read = Elem::from_str("rabc é", |rest: &str| -> Result<String, ()> {
        Ok(rest.to_string())
    });
    assert!(matches!(read, Ok(Elem::Right(s)) if s == "abc é"));
}

#[test]
fn element_writes_its_tag_and_digest() {
    assert_eq!(Elem::Left(12u32).to_string(|d| format!("{}", d)), "l12");
    assert_eq!(Elem::Right(7u32).to_string(|d| format!("{}", d)), "r7");
    assert_eq!(Elem::Right(()).to_string(|_| String::new()), "r");
}

#[test]
fn element_written_reads_back() {
    for n in [0u32, 1, 99, u32::MAX] {
        let text = Elem::Left(n).to_string(|d| format!("{}", d));
        assert!(matches!(read(&text), Ok(Elem::Left(m)) if m == n));
        let text = Elem::Right(n).to_string(|d| format!("{}", d));
        assert!(matches!(read(&text), Ok(Elem::Right(m)) if m == n));
    }
}

#[test]
fn error_message_names_the_tags_or_the_inner_error() {
    let bad: ElemFromStrErr<ParseIntError> = ElemFromStrErr::BadPrefix;
    assert_eq!(
        bad.to_string(|e| format!("{}", e)),
        "string must be prefixed with either 'l' or 'r'"
    );
    let inner = read("lx").err().unwrap();
    assert_eq!(
        inner.to_string(|e| format!("{}", e)),
        "invalid digit found in string"
    );
}

#[test]
fn algorithm_is_read_by_its_name() {
    assert_eq!(HashAlg::from_str("blake2"), Ok(HashAlg::Blake2));
    assert_eq!(HashAlg::from_str("groestl"), Ok(HashAlg::Groestl));
    assert_eq!(HashAlg::from_str("ripemd160"), Ok(HashAlg::Ripemd160));
    assert_eq!(HashAlg::from_str("ripemd320"), Ok(HashAlg::Ripemd320));
    assert_eq!(HashAlg::from_str("sha2"), Ok(HashAlg::Sha2));
    assert_eq!(HashAlg::from_str("sha3"), Ok(HashAlg::Sha3));
    assert_eq!(HashAlg::from_str("whirlpool"), Ok(HashAlg::Whirlpool));
}

#[test]
fn unknown_algorithm_is_answered_with_the_list() {
    let message =
        "alg must be one of: blake2, groestl, ripemd160, ripemd320, sha2, sha3, whirlpool";
    for a in ["", "blake", "blake2b", "Blake2", "sha", "sha4", " sha2", "ripemd", "whirlpoo"] {
        assert_eq!(HashAlg::from_str(a), Err(message));
    }
}
