use imap_codec::astring::{astring, nstring, string};
use imap_codec::parse::ParseError;
use imap_codec::quoted::quoted;
use imap_codec::strings::{AString, IString, NString};

#[test]
fn nil_discrimination() {
    // NIL where an nstring is expected is the absent string,
    let (next, v) = nstring(b"NIL ", 0).unwrap();
    assert_eq!(next, 3);
    assert_eq!(v, NString(None));
    // in any case,
    let (_, v) = nstring(b"nIl ", 0).unwrap();
    assert_eq!(v, NString(None));
    // but where an astring is expected it is simply an atom named NIL.
    let (next, v) = astring(b"NIL ", 0).unwrap();
    assert_eq!(next, 3);
    match v {
        AString::Atom(a) => assert_eq!(a.inner(), "NIL"),
        other => panic!("{:?}", other),
    }
}

#[test]
fn quoted_parsing_unescapes() {
    let (next, q) = quoted(b"\"a\\\"b\\\\c\" rest", 0).unwrap();
    assert_eq!(next, 9);
    assert_eq!(q.inner(), "a\"b\\c");

    // an unterminated quoted string asks for more octets
    assert!(matches!(quoted(b"\"abc", 0), Err(ParseError::Incomplete(_))));
    assert!(matches!(quoted(b"\"abc\\", 0), Err(ParseError::Incomplete(_))));
    // a backslash may escape only a quote or a backslash
    assert!(matches!(quoted(b"\"a\\x\"", 0), Err(ParseError::Failed(0))));
    // CR may not stand inside quotes
    assert!(matches!(quoted(b"\"a\rb\"", 0), Err(ParseError::Failed(0))));
}

#[test]
fn one_byte_lookahead_selects_the_string_form() {
    // a double quote opens the quoted form
    let (_, v) = string(b"\"abc\"", 0).unwrap();
    assert!(matches!(v, IString::Quoted(_)));
    // an opening brace announces a literal
    let (_, v) = string(b"{3}\r\nabc", 0).unwrap();
    assert!(matches!(v, IString::Literal(_)));
    // anything else is no string at all
    assert!(matches!(string(b"abc", 0), Err(ParseError::Failed(0))));

    // the astring falls back to the atom form,
    let (next, v) = astring(b"abc)", 0).unwrap();
    assert_eq!(next, 3);
    assert!(matches!(v, AString::Atom(_)));
    // whose extent is unknown while the input still runs
    assert!(matches!(astring(b"abc", 0), Err(ParseError::Incomplete(_))));
    // and the literal form carries what atoms cannot
    let (next, v) = astring(b"{2}\r\nhi", 0).unwrap();
    assert_eq!(next, 7);
    match &v {
        AString::String(IString::Literal(l)) => assert_eq!(l.inner(), b"hi"),
        other => panic!("{:?}", other),
    }
}
