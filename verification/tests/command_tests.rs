use imap_codec::atoms::Atom;
use imap_codec::command::{command, Command, CommandBody};
use imap_codec::compress::{compress, CompressionAlgorithm};
use imap_codec::literal::literal;
use imap_codec::parse::{Needed, ParseError};
use imap_codec::sort::{SortAlgorithm, SortKey};

#[test]
fn test_parse_compress() {
    let tests = [
        (
            b"compress deflate ".as_ref(),
            Ok((
                b" ".as_ref(),
                CommandBody::compress(CompressionAlgorithm::Deflate),
            )),
        ),
        (b"compress deflat ".as_ref(), Err(())),
        (b"compres deflate ".as_ref(), Err(())),
        (b"compress  deflate ".as_ref(), Err(())),
    ];

    for (test, expected) in tests {
        match expected {
            Ok((expected_rem, expected_object)) => {
                let (next, got_object) = compress(test, 0).unwrap();
                assert_eq!(expected_object, got_object);
                assert_eq!(expected_rem, &test[next..]);
            }
            Err(_) => {
                assert!(compress(test, 0).is_err())
            }
        }
    }
}

#[test]
fn test_kat_inverse_body_compress() {
    let cases: [(&[u8], &[u8], Command); 2] = [
        (
            b"A COMPRESS DEFLATE\r\n".as_ref(),
            b"".as_ref(),
            Command::new("A", CommandBody::compress(CompressionAlgorithm::Deflate)).unwrap(),
        ),
        (
            b"A COMPRESS DEFLATE\r\n?".as_ref(),
            b"?".as_ref(),
            Command::new("A", CommandBody::compress(CompressionAlgorithm::Deflate)).unwrap(),
        ),
    ];

    for (input, expected_rem, expected_object) in cases {
        let (next, parsed) = command(input).unwrap();
        assert_eq!(parsed, expected_object);
        assert_eq!(&input[next..], expected_rem);

        // the inverse direction: re-encoding reproduces the consumed octets
        let mut out = Vec::new();
        parsed.encode(&mut out);
        assert_eq!(out.as_slice(), &input[..next]);
    }
}

#[test]
fn compress_command_case_insensitive_but_canonical_on_encode() {
    let (next, parsed) = command(b"a1 CoMpReSs dEfLaTe\r\n").unwrap();
    assert_eq!(next, 21);
    assert_eq!(parsed.tag.inner(), "a1");
    let mut out = Vec::new();
    parsed.encode(&mut out);
    assert_eq!(out.as_slice(), b"a1 COMPRESS DEFLATE\r\n");
}

#[test]
fn compress_failure_is_at_offset_zero() {
    match compress(b"compres deflate ", 0) {
        Err(ParseError::Failed(p)) => assert_eq!(p, 0),
        other => panic!("{:?}", other),
    }
}

#[test]
fn command_prefixes_ask_for_more_input() {
    for prefix in [
        b"".as_ref(),
        b"A".as_ref(),
        b"A001".as_ref(),
        b"A ".as_ref(),
        b"A COMPR".as_ref(),
        b"A COMPRESS ".as_ref(),
        b"A COMPRESS DEF".as_ref(),
        b"A COMPRESS DEFLATE".as_ref(),
        b"A COMPRESS DEFLATE\r".as_ref(),
    ] {
        match command(prefix) {
            Err(ParseError::Incomplete(_)) => {}
            other => panic!("prefix {:?} gave {:?}", prefix, other),
        }
    }
    // the characters parsed so far must actually fit the grammar
    assert!(matches!(command(b"A COMPRESS DEFLATX"), Err(ParseError::Failed(0))));
    assert!(matches!(command(b" COMPRESS DEFLATE\r\n"), Err(ParseError::Failed(0))));
    assert!(matches!(command(b"A COMPRESS DEFLATE\rX"), Err(ParseError::Failed(0))));
}

#[test]
fn split_input_parses_like_whole_input() {
    let whole = b"TAG1 COMPRESS DEFLATE\r\n".as_ref();
    let (next, v) = command(whole).unwrap();
    for cut in 1..whole.len() {
        let first = &whole[..cut];
        assert!(matches!(command(first), Err(ParseError::Incomplete(_))));
        // once the rest arrives, the same value comes out
        let (next2, v2) = command(whole).unwrap();
        assert_eq!(next2, next);
        assert_eq!(v2, v);
    }
}

#[test]
fn literal_announces_missing_octets() {
    // complete literal, trailing bytes left alone
    let (next, l) = literal(b"{5}\r\nhelloRest", 0).unwrap();
    assert_eq!(next, 10);
    assert_eq!(l.inner(), b"hello");

    // a zero-count literal is legal
    let (next, l) = literal(b"{0}\r\n", 0).unwrap();
    assert_eq!(next, 5);
    assert_eq!(l.inner(), b"");

    // the header alone: all five octets are still missing
    assert!(matches!(
        literal(b"{5}\r\n", 0),
        Err(ParseError::Incomplete(Needed::Size(5)))
    ));
    // part of the payload: exactly the rest is requested
    assert!(matches!(
        literal(b"{5}\r\nhel", 0),
        Err(ParseError::Incomplete(Needed::Size(2)))
    ));
    // inside the header the need is not yet known
    assert!(matches!(
        literal(b"{51", 0),
        Err(ParseError::Incomplete(Needed::Unknown))
    ));
    // NUL is not CHAR8
    assert!(matches!(literal(b"{3}\r\na\x00b", 0), Err(ParseError::Failed(0))));
    // a count beyond the 32-bit counter is refused
    assert!(matches!(literal(b"{99999999999}\r\n", 0), Err(ParseError::Failed(0))));
    // bare LF is not a literal header terminator
    assert!(matches!(literal(b"{3}\nabc", 0), Err(ParseError::Failed(0))));
}

#[test]
fn sort_algorithm_classifies_display_case_insensitively() {
    assert_eq!(
        SortAlgorithm::from(Atom::try_from("DiSpLaY").unwrap()),
        SortAlgorithm::Display
    );
    let other = SortAlgorithm::from(Atom::try_from("custom").unwrap());
    assert_ne!(other, SortAlgorithm::Display);
    assert_eq!(other.to_text(), "custom");
    assert_eq!(SortAlgorithm::Display.to_text(), "DISPLAY");
}

#[test]
fn sort_key_wire_names() {
    assert_eq!(SortKey::Arrival.as_ref(), "ARRIVAL");
    assert_eq!(SortKey::Cc.as_ref(), "CC");
    assert_eq!(SortKey::Date.as_ref(), "DATE");
    assert_eq!(SortKey::From.as_ref(), "FROM");
    assert_eq!(SortKey::Size.as_ref(), "SIZE");
    assert_eq!(SortKey::Subject.as_ref(), "SUBJECT");
    assert_eq!(SortKey::To.as_ref(), "TO");
    assert_eq!(SortKey::DisplayFrom.as_ref(), "DISPLAYFROM");
    assert_eq!(SortKey::DisplayTo.as_ref(), "DISPLAYTO");
}
