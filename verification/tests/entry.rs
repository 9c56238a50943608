use freedesktop_entry_parser::errors::{ErrorBytes, ErrorKind, ParseError};
use freedesktop_entry_parser::Entry;

fn parse(text: &[u8]) -> Entry {
    Entry::parse(text.to_vec()).expect("the input is a valid entry")
}

fn names_of_sections(entry: &Entry) -> Vec<String> {
    let mut names = Vec::new();
    let mut sections = entry.sections();
    while let Some(section) = sections.next() {
        names.push(section.name().to_string());
    }
    names.sort();
    names
}

#[test]
fn round_trip_of_a_plain_attribute() {
    let entry = parse(b"[S]\nA=V\nB=W");
    assert_eq!(entry.section("S").attr("A"), Some("V"));
    assert_eq!(entry.section("S").attr("B"), Some("W"));
}

#[test]
fn value_is_not_trimmed() {
    let entry = parse(b"[S]\nA =  V \nB=\n");
    assert_eq!(entry.section("S").attr("A "), Some("  V "));
    assert_eq!(entry.section("S").attr("A"), None);
    assert_eq!(entry.section("S").attr("B"), Some(""));
}

#[test]
fn merge_plain_before_parameter() {
    let entry = parse(b"[S]\nA=X\nA[p]=Y");
    let section = entry.section("S");
    assert_eq!(section.attr("A"), Some("X"));
    assert_eq!(section.attr_with_param("A", "p"), Some("Y"));
}

#[test]
fn merge_parameter_before_plain() {
    let entry = parse(b"[S]\nA[p]=Y\nA=X");
    let section = entry.section("S");
    assert_eq!(section.attr("A"), Some("X"));
    assert_eq!(section.attr_with_param("A", "p"), Some("Y"));
}

#[test]
fn last_plain_value_wins() {
    let entry = parse(b"[S]\nA=X\nA=Z");
    assert_eq!(entry.section("S").attr("A"), Some("Z"));
}

#[test]
fn last_parameter_value_wins() {
    let entry = parse(b"[S]\nA[p]=X\nA[q]=Y\nA[p]=Z");
    let section = entry.section("S");
    assert_eq!(section.attr_with_param("A", "p"), Some("Z"));
    assert_eq!(section.attr_with_param("A", "q"), Some("Y"));
    assert_eq!(section.attr("A"), None);
}

#[test]
fn later_section_of_the_same_title_replaces_the_earlier() {
    let entry = parse(b"[S]\nA=1\nB=2\n[T]\nC=3\n[S]\nA=4");
    assert_eq!(entry.section("S").attr("A"), Some("4"));
    assert_eq!(entry.section("S").attr("B"), None);
    assert_eq!(entry.section("T").attr("C"), Some("3"));
    assert_eq!(names_of_sections(&entry), vec!["S", "T"]);
}

#[test]
fn absence_is_none() {
    let entry = parse(b"[S]\nA=X\nB[p]=Y");
    assert!(!entry.has_section("T"));
    assert_eq!(entry.section("T").attr("A"), None);
    assert_eq!(entry.section("T").attr_with_param("A", "p"), None);
    assert!(!entry.section("T").has_attr("A"));
    assert!(entry.section("T").attrs().next().is_none());
    assert_eq!(entry.section("S").attr("C"), None);
    assert!(!entry.section("S").has_attr("C"));
    assert_eq!(entry.section("S").attr_with_param("A", "p"), None);
    assert!(!entry.section("S").has_attr_with_param("A", "p"));
    assert_eq!(entry.section("S").attr_with_param("B", "q"), None);
    assert_eq!(entry.section("S").attr("B"), None);
    assert!(entry.section("S").has_attr("B"));
    assert!(entry.section("S").has_attr_with_param("B", "p"));
}

#[test]
fn zero_attributes_are_rejected() {
    assert_eq!(
        Entry::parse(b"[S]\n".to_vec()).err(),
        Some(ParseError::Other {
            at: ErrorBytes::Valid(String::new()),
            kind: ErrorKind::Tag,
        })
    );
}

#[test]
fn comments_and_whitespace_are_transparent() {
    let with = parse(b"[S]\n  \t\n# comment\nK=V");
    let without = parse(b"[S]\nK=V");
    assert_eq!(names_of_sections(&with), names_of_sections(&without));
    assert_eq!(with.section("S").attr("K"), Some("V"));
    assert_eq!(without.section("S").attr("K"), Some("V"));
    let mut attrs = with.section("S").attrs();
    assert_eq!(attrs.next().map(|a| a.name), Some("K"));
    assert!(attrs.next().is_none());
}

#[test]
fn comments_between_attributes_and_sections() {
    let entry = parse(b"# head\n\n[S]\nA=1\n# note = [x]\n\n  B=2\n\r\n[T]\n\t# c\nC=3\n# tail");
    assert_eq!(entry.section("S").attr("A"), Some("1"));
    assert_eq!(entry.section("S").attr("B"), Some("2"));
    assert_eq!(entry.section("T").attr("C"), Some("3"));
    assert_eq!(names_of_sections(&entry), vec!["S", "T"]);
}

#[test]
fn parameter_extraction() {
    let entry = parse(b"[S]\nName[ast]=Restolador Web");
    let section = entry.section("S");
    assert_eq!(
        section.attr_with_param("Name", "ast"),
        Some("Restolador Web")
    );
    assert!(section.has_attr("Name"));
    assert!(!section.has_attr("Name[ast]"));
    assert_eq!(section.attr("Name"), None);
}

#[test]
fn parameter_without_closing_bracket() {
    let entry = parse(b"[S]\nName[as=V\nOther[]=W\nThird[x]tail=U");
    let section = entry.section("S");
    assert_eq!(section.attr_with_param("Name", "as"), Some("V"));
    assert_eq!(section.attr_with_param("Other", ""), Some("W"));
    assert_eq!(section.attr_with_param("Third", "x"), Some("U"));
}

#[test]
fn desktop_entry_scenario() {
    let entry = parse(b"[Desktop Entry]\nName=Firefox\nExec=firefox %u\nIcon=firefox");
    assert_eq!(names_of_sections(&entry), vec!["Desktop Entry"]);
    let section = entry.section("Desktop Entry");
    assert_eq!(section.name(), "Desktop Entry");
    assert_eq!(section.attr("Name"), Some("Firefox"));
    assert_eq!(section.attr("Exec"), Some("firefox %u"));
    assert_eq!(section.attr("Icon"), Some("firefox"));
    let mut seen = Vec::new();
    let mut attrs = section.attrs();
    while let Some(attr) = attrs.next() {
        assert_eq!(attr.section_name, "Desktop Entry");
        assert!(attr.has_value());
        assert!(!attr.has_params());
        assert!(attr.params().next().is_none());
        seen.push((attr.name.to_string(), attr.value.map(str::to_string)));
    }
    seen.sort();
    assert_eq!(
        seen,
        vec![
            ("Exec".to_string(), Some("firefox %u".to_string())),
            ("Icon".to_string(), Some("firefox".to_string())),
            ("Name".to_string(), Some("Firefox".to_string())),
        ]
    );
}

#[test]
fn apps_scenario() {
    let entry = parse(b"[apps]\nSize=48\nScale=1");
    assert_eq!(names_of_sections(&entry), vec!["apps"]);
    assert_eq!(entry.section("apps").attr("Size"), Some("48"));
    assert_eq!(entry.section("apps").attr("Scale"), Some("1"));
    let mut count = 0;
    let mut attrs = entry.section("apps").attrs();
    while attrs.next().is_some() {
        count += 1;
    }
    assert_eq!(count, 2);
}

#[test]
fn input_without_a_header_has_no_section() {
    let entry = parse(b"Size=48\nScale=1");
    assert!(entry.sections().next().is_none());
    assert!(!entry.has_section("Size"));
    assert_eq!(entry.section("").attr("Size"), None);
    let empty = parse(b"");
    assert!(empty.sections().next().is_none());
    let blank = parse(b"\n\n# only a comment\n");
    assert!(blank.sections().next().is_none());
}

#[test]
fn iteration_over_parameters() {
    let entry = parse(b"[S]\nName=N\nName[de]=D\nName[fr]=F\nName[de]=E\nIcon=i");
    let mut attrs = entry.section("S").attrs();
    let mut params = Vec::new();
    let mut plain = Vec::new();
    while let Some(attr) = attrs.next() {
        plain.push((attr.name, attr.value, attr.has_params()));
        let mut iter = attr.params();
        while let Some(p) = iter.next() {
            assert_eq!(p.section_name, "S");
            params.push((p.attr_name, p.param_val, p.value));
        }
    }
    plain.sort();
    params.sort();
    assert_eq!(
        plain,
        vec![("Icon", Some("i"), false), ("Name", Some("N"), true)]
    );
    assert_eq!(params, vec![("Name", "de", "E"), ("Name", "fr", "F")]);
}

#[test]
fn attribute_with_parameters_only() {
    let entry = parse(b"[S]\nName[de]=D");
    let mut attrs = entry.section("S").attrs();
    let attr = attrs.next().unwrap();
    assert_eq!(attr.name, "Name");
    assert_eq!(attr.value, None);
    assert!(!attr.has_value());
    assert!(attr.has_params());
    assert!(attrs.next().is_none());
    assert!(attrs.next().is_none());
}

#[test]
fn text_beyond_ascii() {
    let entry = parse("[Büro]\nNamé[日本]=値\nNamé=ü".as_bytes());
    assert!(entry.has_section("Büro"));
    assert_eq!(entry.section("Büro").attr("Namé"), Some("ü"));
    assert_eq!(
        entry.section("Büro").attr_with_param("Namé", "日本"),
        Some("値")
    );
    assert_eq!(entry.section("Buro").attr("Namé"), None);
}
