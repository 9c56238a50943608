//! The tokenizer reads what a parser built from nom's combinators reads: the
//! same tokens, the same remaining input, and on failure the same position and
//! the error code of the same name.
use freedesktop_entry_parser::errors::{ErrorKind, SyntaxError};
use freedesktop_entry_parser::parser;
use freedesktop_entry_parser::parser::{AttrBytes, ParamBytes, SectionBytes};
use nom::bytes::complete::{tag, take_till, take_till1};
use nom::multi::many1;
use nom::sequence::{delimited, terminated};
use nom::IResult;

type Failure<'a> = nom::Err<nom::error::Error<&'a [u8]>>;

fn nom_header(input: &[u8]) -> IResult<&[u8], &[u8]> {
    delimited(tag(&b"["[..]), take_till1(|c| c == b']'), tag(&b"]"[..]))(input)
}

fn nom_next_line(input: &[u8]) -> Result<&[u8], Failure<'_>> {
    if input.is_empty() {
        return Ok(b"");
    }
    let (rem, _) = take_till(parser::not_whitespace)(input)?;
    if rem.first() == Some(&b'#') {
        let (rem, _) = take_till(|c| c == b'\n')(rem)?;
        return nom_next_line(rem);
    }
    Ok(rem)
}

fn nom_find_start(input: &[u8]) -> IResult<&[u8], &[u8]> {
    take_till(|c| c == b'[')(input)
}

fn nom_params(input: &[u8]) -> IResult<&[u8], ParamBytes<'_>> {
    let (rem, attr_name) = terminated(take_till(|c| c == b'['), tag(&b"["[..]))(input)?;
    let (rem, param) = take_till(|c| c == b']')(rem)?;
    Ok((rem, ParamBytes { param, attr_name }))
}

fn nom_attr(input: &[u8]) -> IResult<&[u8], AttrBytes<'_>> {
    if input.first() == Some(&b'[') {
        return Err(nom::Err::Error(nom::error::Error::new(
            input,
            nom::error::ErrorKind::Complete,
        )));
    }
    let (rem, name) = terminated(take_till(|c| c == b'='), tag(&b"="[..]))(input)?;
    let (rem, value) = take_till(|c| c == b'\n')(rem)?;
    Ok((
        nom_next_line(rem)?,
        AttrBytes {
            name,
            value,
            param: nom_params(name).ok().map(|(_, param)| param),
        },
    ))
}

fn nom_section(input: &[u8]) -> IResult<&[u8], SectionBytes<'_>> {
    let (rem, title) = nom_header(input)?;
    let rem = nom_next_line(rem)?;
    let (rem, attrs) = many1(nom_attr)(rem)?;
    Ok((rem, SectionBytes { title, attrs }))
}

fn kind_of(code: nom::error::ErrorKind) -> ErrorKind {
    match code {
        nom::error::ErrorKind::Tag => ErrorKind::Tag,
        nom::error::ErrorKind::TakeTill1 => ErrorKind::TakeTill1,
        nom::error::ErrorKind::Complete => ErrorKind::Complete,
        other => panic!("nom reported {:?}", other),
    }
}

fn expected<'a, T>(r: Result<T, Failure<'a>>) -> Result<T, SyntaxError<'a>> {
    match r {
        Ok(t) => Ok(t),
        Err(nom::Err::Error(e)) | Err(nom::Err::Failure(e)) => Err(SyntaxError {
            input: e.input,
            code: kind_of(e.code),
        }),
        Err(nom::Err::Incomplete(_)) => panic!("nom asked for more input"),
    }
}

fn check(input: &[u8]) {
    assert_eq!(parser::header(input), expected(nom_header(input)));
    assert_eq!(parser::next_line(input), expected(nom_next_line(input)));
    assert_eq!(parser::find_start(input), expected(nom_find_start(input)));
    assert_eq!(parser::params(input), expected(nom_params(input)));
    assert_eq!(parser::attr(input), expected(nom_attr(input)));
    assert_eq!(parser::section(input), expected(nom_section(input)));
}

/// Every input of the given length over the alphabet.
fn each_input(alphabet: &[u8], len: usize, visit: &mut dyn FnMut(&[u8])) {
    let mut digits = vec![0usize; len];
    let mut input = vec![alphabet[0]; len];
    loop {
        visit(&input);
        let mut i = 0;
        loop {
            if i == len {
                return;
            }
            digits[i] += 1;
            if digits[i] < alphabet.len() {
                input[i] = alphabet[digits[i]];
                break;
            }
            digits[i] = 0;
            input[i] = alphabet[0];
            i += 1;
        }
    }
}

#[test]
fn agrees_with_nom_on_short_inputs() {
    let alphabet = b"[]=\n# a";
    let mut count = 0;
    for len in 0..=6 {
        each_input(alphabet, len, &mut |input| {
            check(input);
            count += 1;
        });
    }
    assert_eq!(count, 1 + 7 + 49 + 343 + 2401 + 16807 + 117649);
}

#[test]
fn agrees_with_nom_on_other_whitespace_and_bytes() {
    let alphabet = b"[=\n\t\r\xff";
    for len in 0..=5 {
        each_input(alphabet, len, &mut |input| check(input));
    }
}

#[test]
fn agrees_with_nom_on_sample_lines() {
    let samples: [&[u8]; 12] = [
        b"[Desktop Entry]\nName=Firefox\nExec=firefox %u\nIcon=firefox",
        b"[apps]\nSize=48\nScale=1",
        b"[apps]\n",
        b"Size=48\nScale=1",
        b"[S]\n  \t\n# comment\nK=V",
        b"[S]\nName[ast]=Restolador Web\n\n[T]\nA=B",
        b"GenericName[es]=Navegador web\n# next\n\nX=Y",
        b"hello[en=world",
        b"hello]en[=world",
        b"a=b\n#c=d",
        b"   \t\n# Comment\nhello",
        b"[Unit]\r\nDescription=OpenSSH Daemon\r\n\r\n[Install]\r\nWantedBy=multi-user.target\r\n",
    ];
    for input in samples {
        for start in 0..=input.len() {
            check(&input[start..]);
        }
    }
}
