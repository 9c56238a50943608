//! The lookup table answers as hash maps do that are filled from the tokens in
//! the order of the file: a plain line sets the value, a line with a parameter
//! sets the value under the parameter, and a later section of the same title
//! takes the place of the earlier one.
use freedesktop_entry_parser::low_level::{parse_entry, SectionBytes};
use freedesktop_entry_parser::Entry;
use std::collections::HashMap;

#[derive(Default, Debug, PartialEq)]
struct Value {
    value: Option<String>,
    params: Option<HashMap<String, String>>,
}

type Model = HashMap<String, HashMap<String, Value>>;

fn text(bytes: &[u8]) -> String {
    String::from_utf8(bytes.to_vec()).unwrap()
}

fn model_of(sections: &[SectionBytes<'_>]) -> Model {
    let mut model = Model::new();
    for section in sections {
        let mut attrs: HashMap<String, Value> = HashMap::new();
        for attr in &section.attrs {
            match &attr.param {
                Some(param) => {
                    attrs
                        .entry(text(param.attr_name))
                        .or_default()
                        .params
                        .get_or_insert_with(HashMap::new)
                        .insert(text(param.param), text(attr.value));
                }
                None => {
                    attrs.entry(text(attr.name)).or_default().value = Some(text(attr.value));
                }
            }
        }
        model.insert(text(section.title), attrs);
    }
    model
}

fn model_of_entry(entry: &Entry) -> Model {
    let mut model = Model::new();
    let mut sections = entry.sections();
    while let Some(section) = sections.next() {
        let mut attrs: HashMap<String, Value> = HashMap::new();
        let mut iter = section.attrs();
        while let Some(attr) = iter.next() {
            assert_eq!(attr.section_name, section.name());
            assert_eq!(attr.value, section.attr(attr.name));
            assert_eq!(attr.has_value(), attr.value.is_some());
            let mut params = HashMap::new();
            let mut each = attr.params();
            while let Some(p) = each.next() {
                assert_eq!(p.attr_name, attr.name);
                assert_eq!(
                    section.attr_with_param(p.attr_name, p.param_val),
                    Some(p.value)
                );
                let twice = params.insert(p.param_val.to_string(), p.value.to_string());
                assert!(twice.is_none());
            }
            assert_eq!(attr.has_params(), !params.is_empty());
            let value = Value {
                value: attr.value.map(str::to_string),
                params: if attr.has_params() { Some(params) } else { None },
            };
            let twice = attrs.insert(attr.name.to_string(), value);
            assert!(twice.is_none());
        }
        let twice = model.insert(section.name().to_string(), attrs);
        assert!(twice.is_none());
    }
    model
}

fn check(input: &[u8]) {
    let tokens = parse_entry(input).collect();
    let entry = Entry::parse(input.to_vec());
    match (tokens, entry) {
        (Ok(sections), Ok(entry)) => {
            let expected = model_of(&sections);
            assert_eq!(model_of_entry(&entry), expected, "input {:?}", input);
            for (title, attrs) in &expected {
                assert!(entry.has_section(title));
                let section = entry.section(title);
                for (name, value) in attrs {
                    assert!(section.has_attr(name));
                    assert_eq!(section.attr(name), value.value.as_deref());
                    assert!(!section.has_attr_with_param(name, "no such parameter"));
                }
                assert!(!section.has_attr("no such attribute"));
            }
            assert!(!entry.has_section("no such section"));
        }
        (Err(e), Err(f)) => assert_eq!(e, f),
        (tokens, entry) => panic!(
            "input {:?}: tokens {:?}, entry {:?}",
            input,
            tokens,
            entry.err()
        ),
    }
}

/// Every input of the given length over the alphabet.
fn each_input(alphabet: &[u8], len: usize, visit: &mut dyn FnMut(&[u8])) {
    let mut digits = vec![0usize; len];
    let mut input = vec![alphabet[0]; len];
    loop {
        visit(&input);
        let mut i = 0;
        loop {
            if i == len {
                return;
            }
            digits[i] += 1;
            if digits[i] < alphabet.len() {
                input[i] = alphabet[digits[i]];
                break;
            }
            digits[i] = 0;
            input[i] = alphabet[0];
            i += 1;
        }
    }
}

#[test]
fn answers_as_hash_maps_on_short_bodies() {
    // a header, and every body of up to seven bytes
    let alphabet = b"[]=\na";
    for len in 0..=7 {
        each_input(alphabet, len, &mut |body| {
            let mut input = b"[a]\n".to_vec();
            input.extend_from_slice(body);
            check(&input);
        });
    }
}

#[test]
fn answers_as_hash_maps_on_repeated_names() {
    // lines over two names and two parameters, in every order
    let lines: [&[u8]; 7] = [
        b"a=1\n",
        b"a=2\n",
        b"a[p]=3\n",
        b"a[p]=4\n",
        b"a[q]=5\n",
        b"b=6\n",
        b"[a]\n",
    ];
    let picks: Vec<u8> = (0..lines.len() as u8).collect();
    for len in 1..=5 {
        each_input(&picks, len, &mut |order| {
            let mut input = b"[a]\n".to_vec();
            for i in order {
                input.extend_from_slice(lines[*i as usize]);
            }
            check(&input);
        });
    }
}
