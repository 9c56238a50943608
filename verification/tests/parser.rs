use freedesktop_entry_parser::errors::{ErrorKind, SyntaxError};
use freedesktop_entry_parser::parser::{
    attr, header, next_line, section, AttrBytes, ParamBytes, SectionBytes,
};

#[test]
fn header_ok() {
    assert_eq!(header(b"[hello]"), Ok((&b""[..], &b"hello"[..])));
}

#[test]
fn no_start() {
    assert_eq!(
        header(b"hello").unwrap_err(),
        SyntaxError {
            input: &b"hello"[..],
            code: ErrorKind::Tag
        }
    );
}

#[test]
fn no_end() {
    assert_eq!(
        header(b"[hello").unwrap_err(),
        SyntaxError {
            input: &b""[..],
            code: ErrorKind::Tag
        }
    );
}

#[test]
fn empty() {
    assert_eq!(next_line(b""), Ok(&b""[..]));
}

#[test]
fn only_whitespace() {
    assert_eq!(next_line(b" \t \t\n\r\nhello"), Ok(&b"hello"[..]));
}

#[test]
fn comment() {
    assert_eq!(next_line(b"   \t\n# Comment\nhello"), Ok(&b"hello"[..]));
}

#[test]
fn no_change() {
    assert_eq!(next_line(b"hello\n"), Ok(&b"hello\n"[..]));
}

#[test]
fn ok() {
    assert_eq!(
        attr(b"hello=world"),
        Ok((
            &b""[..],
            AttrBytes {
                name: &b"hello"[..],
                value: &b"world"[..],
                param: None,
            }
        ))
    );
}

#[test]
fn with_param() {
    assert_eq!(
        attr(b"hello[en]=world"),
        Ok((
            &b""[..],
            AttrBytes {
                name: &b"hello[en]"[..],
                value: &b"world"[..],
                param: Some(ParamBytes {
                    attr_name: &b"hello"[..],
                    param: &b"en"[..]
                }),
            }
        ))
    );
}

#[test]
fn space_in_value() {
    assert_eq!(
        attr(b"hello=world today"),
        Ok((
            &b""[..],
            AttrBytes {
                name: &b"hello"[..],
                value: &b"world today"[..],
                param: None,
            }
        ))
    );
}

#[test]
fn no_value() {
    assert_eq!(
        attr(b"hello="),
        Ok((
            &b""[..],
            AttrBytes {
                name: &b"hello"[..],
                value: &b""[..],
                param: None,
            }
        ))
    );
}

#[test]
fn no_name() {
    assert_eq!(
        attr(b"=world"),
        Ok((
            &b""[..],
            AttrBytes {
                name: &b""[..],
                value: &b"world"[..],
                param: None,
            }
        ))
    );
}

#[test]
fn no_eq() {
    assert_eq!(
        attr(b"hello"),
        Err(SyntaxError {
            input: &b""[..],
            code: ErrorKind::Tag
        })
    );
}

#[test]
fn parser_ok() {
    assert_eq!(
        section(b"[apps]\nSize=48\nScale=1"),
        Ok((
            &b""[..],
            SectionBytes {
                title: &b"apps"[..],
                attrs: vec![
                    AttrBytes {
                        name: &b"Size"[..],
                        value: &b"48"[..],
                        param: None,
                    },
                    AttrBytes {
                        name: &b"Scale"[..],
                        value: &b"1"[..],
                        param: None,
                    }
                ]
            }
        ))
    );
}

#[test]
fn no_attrs() {
    assert_eq!(
        section(b"[apps]\n"),
        Err(SyntaxError {
            input: &b""[..],
            code: ErrorKind::Tag
        })
    );
}

#[test]
fn no_header() {
    assert_eq!(
        section(b"Size=48\nScale=1"),
        Err(SyntaxError {
            input: &b"Size=48\nScale=1"[..],
            code: ErrorKind::Tag
        })
    );
}
