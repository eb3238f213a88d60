use imap_codec::atoms::{Atom, AtomExt, Tag, Text};
use imap_codec::list::NonEmptyVec;
use imap_codec::strings::{AString, Charset, IString, Literal, NString, Quoted, QuotedChar};

#[test]
fn test_conversion() {
    assert_eq!(
        IString::try_from("AAA").unwrap(),
        IString::Quoted(Quoted::try_from("AAA").unwrap())
    );
    assert_eq!(
        IString::try_from("\"AAA").unwrap(),
        IString::Quoted(Quoted::try_from("\"AAA").unwrap())
    );

    assert_ne!(
        IString::try_from("\"AAA").unwrap(),
        IString::Quoted(Quoted::try_from("\\\"AAA").unwrap())
    );
}

#[test]
fn test_charset() {
    let tests = [
        ("bengali", "bengali"),
        ("\"simple\" english", r#""\"simple\" english""#),
        ("", "\"\""),
        ("\"", "\"\\\"\""),
        ("\\", "\"\\\\\""),
    ];

    for (from, expected) in tests.iter() {
        let cs = Charset::try_from(*from).unwrap();
        println!("{:?}", cs);

        let mut out = Vec::new();
        cs.encode(&mut out);
        assert_eq!(std::str::from_utf8(&out).unwrap(), *expected);
    }

    assert!(Charset::try_from("\r").is_err());
    assert!(Charset::try_from("\n").is_err());
    assert!(Charset::try_from("¹").is_err());
    assert!(Charset::try_from("²").is_err());
    assert!(Charset::try_from("\x00").is_err());
}

#[test]
fn verify_agrees_with_try_from() {
    for s in ["", "ABC", "abc123", "a b", "a(b)", "NIL", "\u{00e9}", "]", "+", "{", "\r\n"] {
        assert_eq!(Atom::verify(s), Atom::try_from(s).is_ok());
        assert_eq!(AtomExt::verify(s), AtomExt::try_from(s).is_ok());
        assert_eq!(Tag::verify(s), Tag::try_from(s).is_ok());
        assert_eq!(Text::verify(s), Text::try_from(s).is_ok());
        assert_eq!(Quoted::verify(s), Quoted::try_from(s).is_ok());
    }
    for b in [b"".as_ref(), b"abc".as_ref(), b"a\x00b".as_ref(), b"\xff\r\n".as_ref()] {
        assert_eq!(Literal::verify(b), Literal::try_from(b).is_ok());
    }
    for c in ['a', '"', '\\', '\r', '\n', '\u{0}', '\u{e9}'] {
        assert_eq!(QuotedChar::verify(c), QuotedChar::try_from(c).is_ok());
    }
}

#[test]
fn atom_rejects_specials_and_accepts_plain_names() {
    assert!(Atom::try_from("INBOX").is_ok());
    assert!(Atom::try_from("").is_err());
    for bad in ["(", ")", "{", " ", "%", "*", "\"", "\\", "]", "\x7f", "\x01"] {
        assert!(Atom::try_from(bad).is_err(), "atom accepted {:?}", bad);
    }
    // the resp-special `]` is allowed one level up
    assert!(AtomExt::try_from("]").is_ok());
    // but `+` is never a tag character
    assert!(Tag::try_from("A+").is_err());
    assert!(Tag::try_from("A001").is_ok());
}

#[test]
fn literal_never_contains_nul() {
    assert!(Literal::try_from(b"hello\r\nworld\xff".as_ref()).is_ok());
    assert!(Literal::try_from(b"a\x00b".as_ref()).is_err());
    let l = Literal::try_from(b"ok".as_ref()).unwrap();
    assert!(l.inner().iter().all(|b| *b != 0));
}

#[test]
fn non_empty_vec_never_empty() {
    assert!(NonEmptyVec::<u32>::try_from(Vec::new()).is_err());
    let v = NonEmptyVec::try_from(vec![1u32, 2, 3]).unwrap();
    assert_eq!(v.len(), 3);
    assert_eq!(v.as_slice(), &[1, 2, 3]);
    let single = NonEmptyVec::try_from(vec![7u8]).unwrap();
    assert!(single.len() >= 1);
}

#[test]
fn istring_prefers_quoted_and_falls_back_to_literal() {
    // quotable text stays quoted on the wire
    let mut out = Vec::new();
    IString::try_from("AAA").unwrap().encode(&mut out);
    assert_eq!(out.as_slice(), b"\"AAA\"");

    // text with CRLF must travel as a literal
    let mut out = Vec::new();
    IString::try_from("line\r\n").unwrap().encode(&mut out);
    assert_eq!(out.as_slice(), b"{6}\r\nline\r\n");

    // NUL can be carried by neither form
    assert!(IString::try_from("a\x00b").is_err());
}

#[test]
fn nstring_nil_and_astring_nil_differ() {
    // an absent nstring is the three octets NIL
    let mut out = Vec::new();
    NString(None).encode(&mut out);
    assert_eq!(out.as_slice(), b"NIL");

    // a present nstring keeps its content
    let mut out = Vec::new();
    NString(Some(IString::try_from("x").unwrap())).encode(&mut out);
    assert_eq!(out.as_slice(), b"\"x\"");

    // where an astring is expected, NIL is simply an atom named NIL
    let a = AString::try_from("NIL").unwrap();
    assert!(matches!(a, AString::Atom(_)));
    let mut out = Vec::new();
    a.encode(&mut out);
    assert_eq!(out.as_slice(), b"NIL");
}

#[test]
fn quoted_encoding_escapes_quote_and_backslash() {
    let q = Quoted::try_from("a\"b\\c").unwrap();
    let mut out = Vec::new();
    q.encode(&mut out);
    assert_eq!(out.as_slice(), b"\"a\\\"b\\\\c\"");
}

#[test]
fn literal_encoding_counts_octets_exactly() {
    let mut out = Vec::new();
    Literal::try_from(b"".as_ref()).unwrap().encode(&mut out);
    assert_eq!(out.as_slice(), b"{0}\r\n");

    let mut out = Vec::new();
    Literal::try_from(b"0123456789".as_ref()).unwrap().encode(&mut out);
    assert_eq!(out.as_slice(), b"{10}\r\n0123456789");
}

#[test]
fn tag_random_is_well_formed() {
    let t = Tag::random();
    assert_eq!(t.inner().len(), 8);
    assert!(Tag::verify(t.inner()));
    assert!(t.inner().chars().all(|c| c.is_ascii_alphanumeric()));
}
