use freedesktop_entry_parser::errors::{ErrorBytes, ErrorKind, ParseError, SyntaxError};
use freedesktop_entry_parser::internal::{parse_str, Internal};
use freedesktop_entry_parser::low_level::parse_entry;
use freedesktop_entry_parser::parser::header;
use freedesktop_entry_parser::Entry;

fn other(at: &str, kind: ErrorKind) -> ParseError {
    ParseError::Other {
        at: ErrorBytes::Valid(at.to_string()),
        kind,
    }
}

fn rejected(input: &[u8]) -> Vec<u8> {
    match Entry::parse(input.to_vec()) {
        Err(ParseError::Utf8Error { bytes, .. }) => bytes,
        Err(e) => panic!("unexpected error {:?}", e),
        Ok(_) => panic!("the input was accepted"),
    }
}

#[test]
fn error_bytes_render_text_or_bytes() {
    assert_eq!(
        ErrorBytes::new(b"rest of it"),
        ErrorBytes::Valid("rest of it".to_string())
    );
    assert_eq!(ErrorBytes::new(b""), ErrorBytes::Valid(String::new()));
    assert_eq!(
        ErrorBytes::new(b"caf\xe9"),
        ErrorBytes::Invalid(vec![0x63, 0x61, 0x66, 0xe9])
    );
}

#[test]
fn syntax_error_becomes_parse_error() {
    let e = SyntaxError {
        input: &b"=x"[..],
        code: ErrorKind::Complete,
    };
    assert_eq!(ParseError::from(e), other("=x", ErrorKind::Complete));
    let e = SyntaxError {
        input: &b"\xff\xfe"[..],
        code: ErrorKind::TakeTill1,
    };
    assert_eq!(
        ParseError::from(e),
        ParseError::Other {
            at: ErrorBytes::Invalid(vec![0xff, 0xfe]),
            kind: ErrorKind::TakeTill1,
        }
    );
}

#[test]
fn parse_str_decodes_or_rejects() {
    assert_eq!(parse_str(b"plain").unwrap(), "plain");
    assert_eq!(parse_str("zwölf".as_bytes()).unwrap(), "zwölf");
    match parse_str(b"a\x80b") {
        Err(ParseError::Utf8Error { bytes, source }) => {
            assert_eq!(bytes, vec![0x61, 0x80, 0x62]);
            assert_eq!(source.valid_up_to(), 1);
        }
        other => panic!("unexpected {:?}", other),
    }
}

#[test]
fn missing_closing_bracket() {
    assert_eq!(
        Entry::parse(b"[Desktop Entry\nName=Firefox".to_vec()).err(),
        Some(other("", ErrorKind::Tag))
    );
}

#[test]
fn empty_title() {
    assert_eq!(
        header(b"[]\nA=1"),
        Err(SyntaxError {
            input: &b"]\nA=1"[..],
            code: ErrorKind::TakeTill1
        })
    );
    assert_eq!(
        Entry::parse(b"[]\nA=1".to_vec()).err(),
        Some(other("]\nA=1", ErrorKind::TakeTill1))
    );
}

#[test]
fn header_right_after_header() {
    assert_eq!(
        Entry::parse(b"[A]\n[B]\nx=1".to_vec()).err(),
        Some(other("[B]\nx=1", ErrorKind::Complete))
    );
}

#[test]
fn line_without_equals_after_a_header() {
    assert_eq!(
        Entry::parse(b"[A]\nno equals here".to_vec()).err(),
        Some(other("", ErrorKind::Tag))
    );
}

#[test]
fn input_left_after_the_last_section() {
    assert_eq!(
        Entry::parse(b"[A]\nx=1\ntrailing".to_vec()).err(),
        Some(other("", ErrorKind::Tag))
    );
}

#[test]
fn remaining_input_that_is_not_text() {
    assert_eq!(
        Entry::parse(b"[A]\n[\xff".to_vec()).err(),
        Some(ParseError::Other {
            at: ErrorBytes::Invalid(vec![0x5b, 0xff]),
            kind: ErrorKind::Complete,
        })
    );
}

#[test]
fn first_byte_string_that_is_not_text_is_reported() {
    assert_eq!(rejected(b"[T\xff]\nA=1"), b"T\xff".to_vec());
    assert_eq!(rejected(b"[T]\nA=\xfe\nB\xff=2"), b"\xfe".to_vec());
    assert_eq!(rejected(b"[T]\nA\xff=\xfe"), b"\xfe".to_vec());
    assert_eq!(rejected(b"[T]\nA\xff=1"), b"A\xff".to_vec());
    assert_eq!(rejected(b"[T]\nA\xff[p\xfe]=1"), b"A\xff".to_vec());
    assert_eq!(rejected(b"[T]\nA[p\xfe]=1"), b"p\xfe".to_vec());
    assert_eq!(rejected(b"[T]\nA=1\n[U\xff]\nB\xfe=2"), b"U\xff".to_vec());
    assert_eq!(rejected(b"[T]\nA=1\nB\xfe=2\n[U\xff]\nC=3"), b"B\xfe".to_vec());
}

#[test]
fn bytes_after_a_parameter_are_not_decoded() {
    let entry = Entry::parse(b"[T]\nA[p]\xff=1".to_vec()).unwrap();
    assert_eq!(entry.section("T").attr_with_param("A", "p"), Some("1"));
}

#[test]
fn grammar_failure_comes_before_text_failure() {
    assert_eq!(
        Entry::parse(b"[T\xff]\nA=1\n[U]\n".to_vec()).err(),
        Some(other("", ErrorKind::Tag))
    );
}

#[test]
fn incomplete_is_never_returned() {
    let inputs: [&[u8]; 6] = [b"[", b"[a", b"[a]", b"[a]\nk", b"[a]\nk=", b"[a]\nk=v\n["];
    for input in inputs {
        match Entry::parse(input.to_vec()) {
            Err(ParseError::Incomplete) => panic!("incomplete for {:?}", input),
            _ => {}
        }
    }
}

#[test]
fn iteration_ends_after_a_failure() {
    let mut iter = parse_entry(b"[A]\nx=1\n[B]\n[C]\ny=2");
    assert_eq!(iter.next().unwrap().unwrap().title, &b"A"[..]);
    assert_eq!(
        iter.next(),
        Some(Err(other("[C]\ny=2", ErrorKind::Complete)))
    );
    assert_eq!(iter.next(), None);
    assert_eq!(iter.next(), None);
}

#[test]
fn iteration_passes_over_what_precedes_the_first_header() {
    let mut iter = parse_entry(b"junk = 1\n\n[A]\nx=1\n[B]\ny=2\n");
    assert_eq!(iter.next().unwrap().unwrap().title, &b"A"[..]);
    let second = iter.next().unwrap().unwrap();
    assert_eq!(second.title, &b"B"[..]);
    assert_eq!(second.attrs.len(), 1);
    assert_eq!(iter.next(), None);
    let mut none = parse_entry(b"Size=48\nScale=1");
    assert_eq!(none.next(), None);
    assert_eq!(none.next(), None);
}

#[test]
fn table_keeps_the_bytes_of_the_file() {
    let table = Internal::new(b"[A]\nx=1".to_vec()).ok().unwrap();
    assert_eq!(table.data(), b"[A]\nx=1");
    assert_eq!(table.get("A", "x", None), Some("1"));
    assert_eq!(table.get("A", "x", Some("p")), None);
    assert!(table.has_section("A"));
    assert!(table.get_attr("A", "x").is_some());
    assert!(table.get_attr("A", "y").is_none());
    assert!(table.get_section("B").is_none());
    assert!(table.attr_names_iter("B").is_none());
    assert!(table.param_names_iter("A", "x").is_none());
    let mut names = table.attr_names_iter("A").unwrap();
    assert_eq!(names.next(), Some("x"));
    assert_eq!(names.next(), None);
    let mut titles = table.section_names_iter();
    assert_eq!(titles.next(), Some("A"));
    assert_eq!(titles.next(), None);
}
