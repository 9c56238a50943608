//! The lookup table of an entry.
//!
//! The table owns the bytes of the file and holds, for every title, name,
//! parameter and value, the range of the buffer in which it stands. A range
//! becomes text when it is looked up, so that nothing is copied and nothing
//! points into the buffer. The table's invariant says that every range lies in
//! the buffer and holds UTF-8, and that no key stands twice in one list.
use crate::assoc::{assoc, distinct_keys, keys};
use crate::assoc::{lemma_assoc_absent, lemma_assoc_get, lemma_assoc_push, lemma_assoc_update};
use crate::assoc::lemma_keys;
use crate::errors::ParseError;
use crate::index;
use crate::index::{SpecAttrMap, SpecAttrValue, SpecIndex};
use crate::parser::failure;
use crate::grammar;
use crate::scan::{attrs_of, sections_of, tokenize, AttrSpan, SectionSpan};
use crate::text::{bytes_eq, from_utf8, is_text, lemma_text_eq, resolve, text_of};
use crate::text::{decode_utf8, valid_utf8, Span};
use vstd::prelude::*;
use vstd::slice::slice_to_vec;
use vstd::string::StringSliceAdditionalSpecFns;

verus! {

/// Decodes a byte slice that an entry treats as text.
pub fn parse_str(input: &[u8]) -> (r: Result<&str, ParseError>)
    ensures
        match r {
            Ok(s) => valid_utf8(input@) && s@ == decode_utf8(input@),
            Err(e) => !valid_utf8(input@) && e.rejects(input@),
        },
{
    match from_utf8(input) {
        Ok(s) => Ok(s),
        Err(e) => Err(ParseError::Utf8Error { bytes: slice_to_vec(input), source: e }),
    }
}

/// The place in `list` of the key whose bytes are `key`.
fn find_key<T>(list: &Vec<(Span, T)>, data: &[u8], key: &[u8]) -> (r: Option<usize>)
    requires
        forall|i: int| 0 <= i < list@.len() ==> (#[trigger] list@[i]).0.within(data@.len()),
    ensures
        match r {
            Some(i) => i < list@.len() && list@[i as int].0.of(data@) == key@,
            None => forall|i: int| 0 <= i < list@.len() ==> (#[trigger] list@[i]).0.of(data@) != key@,
        },
{
    let mut i: usize = 0;
    while i < list.len()
        invariant
            i <= list@.len(),
            forall|j: int| 0 <= j < list@.len() ==> (#[trigger] list@[j]).0.within(data@.len()),
            forall|j: int| 0 <= j < i ==> (#[trigger] list@[j]).0.of(data@) != key@,
        decreases list@.len() - i,
    {
        if bytes_eq(list[i].0.slice(data), key) {
            return Some(i);
        }
        i += 1;
    }
    None
}

/// The bytes of the keys of `list`.
spec fn key_bytes<T>(list: Seq<(Span, T)>, data: Seq<u8>) -> Seq<Seq<u8>> {
    Seq::new(list.len(), |i: int| list[i].0.of(data))
}

/// What it says of a map that the bytes of a key are, or are not, among the
/// bytes of its keys: keys are compared as bytes and looked up as text.
proof fn lemma_found<V>(
    pairs: Seq<(Seq<char>, V)>,
    bytes: Seq<Seq<u8>>,
    key: Seq<u8>,
    r: Option<usize>,
)
    requires
        distinct_keys(pairs),
        bytes.len() == pairs.len(),
        forall|i: int|
            0 <= i < bytes.len() ==> valid_utf8(#[trigger] bytes[i]) && pairs[i].0 == decode_utf8(
                bytes[i],
            ),
        valid_utf8(key),
        match r {
            Some(i) => i < bytes.len() && bytes[i as int] == key,
            None => forall|i: int| 0 <= i < bytes.len() ==> #[trigger] bytes[i] != key,
        },
    ensures
        match r {
            Some(i) => {
                &&& pairs[i as int].0 == decode_utf8(key)
                &&& assoc(pairs).contains_key(decode_utf8(key))
                &&& assoc(pairs)[decode_utf8(key)] == pairs[i as int].1
            },
            None => !assoc(pairs).contains_key(decode_utf8(key)),
        },
{
    match r {
        Some(i) => {
            lemma_assoc_get(pairs, i as int);
        },
        None => {
            assert forall|i: int| 0 <= i < pairs.len() implies pairs[i].0 != decode_utf8(key) by {
                lemma_text_eq(bytes[i], key);
            }
            lemma_assoc_absent(pairs, decode_utf8(key));
        },
    }
}

/// The values of an attribute under its parameters.
pub struct ParamMap(Vec<(Span, Span)>);

impl ParamMap {
    /// The parameters and their values, as text, in the order of the list.
    pub closed spec fn pairs(&self, data: Seq<u8>) -> Seq<(Seq<char>, Seq<char>)> {
        Seq::new(
            self.0@.len(),
            |i: int| (text_of(self.0@[i].0, data), text_of(self.0@[i].1, data)),
        )
    }

    /// Every range is text of the buffer `data`, and no parameter stands twice.
    pub closed spec fn wf(&self, data: Seq<u8>) -> bool {
        &&& forall|i: int|
            0 <= i < self.0@.len() ==> is_text((#[trigger] self.0@[i]).0, data) && is_text(
                self.0@[i].1,
                data,
            )
        &&& distinct_keys(self.pairs(data))
    }

    /// The values by parameter.
    pub closed spec fn model(&self, data: Seq<u8>) -> Map<Seq<char>, Seq<char>> {
        assoc(self.pairs(data))
    }

    /// The parameters, in the order of the list.
    pub closed spec fn names(&self, data: Seq<u8>) -> Seq<Seq<char>> {
        keys(self.pairs(data))
    }

    /// The number of parameters.
    pub closed spec fn count(&self) -> nat {
        self.0@.len()
    }

    /// No parameter.
    pub(crate) fn new() -> (r: ParamMap)
        ensures
            forall|data: Seq<u8>| #[trigger] r.wf(data),
            forall|data: Seq<u8>| #[trigger] r.model(data) == Map::<Seq<char>, Seq<char>>::empty(),
    {
        let r = ParamMap(Vec::new());
        assert forall|data: Seq<u8>| #[trigger] r.pairs(data) == Seq::<(Seq<char>, Seq<char>)>::empty() by {
            assert(r.pairs(data) =~= Seq::empty());
        }
        r
    }

    /// The place of the parameter `key` in the list.
    fn position(&self, data: &[u8], key: &[u8]) -> (r: Option<usize>)
        requires
            self.wf(data@),
            valid_utf8(key@),
        ensures
            match r {
                Some(i) => {
                    &&& i < self.count()
                    &&& self.pairs(data@)[i as int].0 == decode_utf8(key@)
                    &&& self.model(data@).contains_key(decode_utf8(key@))
                    &&& self.model(data@)[decode_utf8(key@)] == self.pairs(data@)[i as int].1
                },
                None => !self.model(data@).contains_key(decode_utf8(key@)),
            },
    {
        let r = find_key(&self.0, data, key);
        proof {
            lemma_found(self.pairs(data@), key_bytes(self.0@, data@), key@, r);
        }
        r
    }

    /// The value under the parameter `param_val`.
    pub(crate) fn get_param<'a>(&self, data: &'a [u8], param_val: &str) -> (r: Option<&'a str>)
        requires
            self.wf(data@),
        ensures
            match r {
                Some(s) => self.model(data@).contains_key(param_val@) && s@ == self.model(
                    data@,
                )[param_val@],
                None => !self.model(data@).contains_key(param_val@),
            },
    {
        let key = param_val.as_bytes();
        proof {
            vstd::utf8::encode_utf8_valid_utf8(param_val@);
            vstd::utf8::encode_utf8_decode_utf8(param_val@);
        }
        match self.position(data, key) {
            Some(i) => Some(resolve(data, self.0[i].1)),
            None => None,
        }
    }

    /// Sets the value under the parameter that stands at `key`.
    pub(crate) fn insert(&mut self, data: &[u8], key: Span, value: Span)
        requires
            old(self).wf(data@),
            is_text(key, data@),
            is_text(value, data@),
        ensures
            final(self).wf(data@),
            final(self).model(data@) == old(self).model(data@).insert(
                text_of(key, data@),
                text_of(value, data@),
            ),
    {
        let ghost before = self.pairs(data@);
        match self.position(data, key.slice(data)) {
            Some(i) => {
                self.0[i].1 = value;
                proof {
                    lemma_assoc_update(before, i as int, text_of(value, data@));
                    assert(self.pairs(data@) =~= before.update(
                        i as int,
                        (before[i as int].0, text_of(value, data@)),
                    ));
                }
            },
            None => {
                self.0.push((key, value));
                proof {
                    lemma_assoc_push(before, text_of(key, data@), text_of(value, data@));
                    assert(self.pairs(data@) =~= before.push(
                        (text_of(key, data@), text_of(value, data@)),
                    ));
                }
            },
        }
    }
}

/// What an entry knows of one attribute: its value, and its values under
/// parameters.
pub struct AttrValue {
    value: Option<Span>,
    param_map: Option<ParamMap>,
}

impl AttrValue {
    /// Every range is text of the buffer `data`.
    pub closed spec fn wf(&self, data: Seq<u8>) -> bool {
        &&& self.value matches Some(sp) ==> is_text(sp, data)
        &&& self.param_map matches Some(pm) ==> pm.wf(data)
    }

    /// The value and the parameters, as text.
    pub closed spec fn model(&self, data: Seq<u8>) -> SpecAttrValue {
        SpecAttrValue {
            value: match self.value {
                Some(sp) => Some(text_of(sp, data)),
                None => None,
            },
            params: match self.param_map {
                Some(pm) => Some(pm.model(data)),
                None => None,
            },
        }
    }

    /// The parameters, where the attribute has any.
    pub closed spec fn params(&self) -> Option<ParamMap> {
        self.param_map
    }

    /// The value of the attribute without a parameter.
    pub(crate) fn get_value<'a>(&self, data: &'a [u8]) -> (r: Option<&'a str>)
        requires
            self.wf(data@),
        ensures
            match r {
                Some(s) => self.model(data@).value == Some(s@),
                None => self.model(data@).value is None,
            },
    {
        match self.value {
            Some(sp) => Some(resolve(data, sp)),
            None => None,
        }
    }

    /// The values of the attribute under its parameters.
    pub fn get_params(&self) -> (r: Option<&ParamMap>)
        ensures
            match r {
                Some(pm) => self.params() == Some(*pm),
                None => self.params() is None,
            },
            forall|data: Seq<u8>|
                #![trigger self.model(data)]
                match r {
                    Some(pm) => self.model(data).params == Some(pm.model(data)) && (self.wf(data)
                        ==> pm.wf(data)),
                    None => self.model(data).params is None,
                },
    {
        self.param_map.as_ref()
    }

    /// The attribute has a value without a parameter.
    pub fn has_value(&self) -> (r: bool)
        ensures
            forall|data: Seq<u8>| r == (#[trigger] self.model(data)).value is Some,
    {
        self.value.is_some()
    }

    /// Sets the value without a parameter.
    fn set_value(&mut self, data: &[u8], value: Span)
        requires
            old(self).wf(data@),
            is_text(value, data@),
        ensures
            final(self).wf(data@),
            final(self).model(data@) == (SpecAttrValue {
                value: Some(text_of(value, data@)),
                params: old(self).model(data@).params,
            }),
    {
        self.value = Some(value);
    }

    /// Sets the value under the parameter that stands at `key`.
    fn set_param(&mut self, data: &[u8], key: Span, value: Span)
        requires
            old(self).wf(data@),
            is_text(key, data@),
            is_text(value, data@),
        ensures
            final(self).wf(data@),
            final(self).model(data@) == (SpecAttrValue {
                value: old(self).model(data@).value,
                params: Some(
                    (match old(self).model(data@).params {
                        Some(pm) => pm,
                        None => Map::empty(),
                    }).insert(text_of(key, data@), text_of(value, data@)),
                ),
            }),
    {
        let mut pm = match self.param_map.take() {
            Some(pm) => pm,
            None => ParamMap::new(),
        };
        pm.insert(data, key, value);
        self.param_map = Some(pm);
    }
}

/// The attributes of a section.
pub struct AttrMap(Vec<(Span, AttrValue)>);

impl AttrMap {
    /// The names and what is known of each, in the order of the list.
    pub closed spec fn pairs(&self, data: Seq<u8>) -> Seq<(Seq<char>, SpecAttrValue)> {
        Seq::new(self.0@.len(), |i: int| (text_of(self.0@[i].0, data), self.0@[i].1.model(data)))
    }

    /// Every range is text of the buffer `data`, and no name stands twice.
    pub closed spec fn wf(&self, data: Seq<u8>) -> bool {
        &&& forall|i: int|
            0 <= i < self.0@.len() ==> is_text((#[trigger] self.0@[i]).0, data) && self.0@[i].1.wf(
                data,
            )
        &&& distinct_keys(self.pairs(data))
    }

    /// The attributes by name.
    pub closed spec fn model(&self, data: Seq<u8>) -> SpecAttrMap {
        assoc(self.pairs(data))
    }

    /// The names, in the order of the list.
    pub closed spec fn names(&self, data: Seq<u8>) -> Seq<Seq<char>> {
        keys(self.pairs(data))
    }

    /// The number of attributes.
    pub closed spec fn count(&self) -> nat {
        self.0@.len()
    }

    /// No attribute.
    fn new() -> (r: AttrMap)
        ensures
            forall|data: Seq<u8>| #[trigger] r.wf(data),
            forall|data: Seq<u8>| #[trigger] r.model(data) == Map::<Seq<char>, SpecAttrValue>::empty(),
    {
        let r = AttrMap(Vec::new());
        assert forall|data: Seq<u8>| #[trigger] r.pairs(data) == Seq::<(Seq<char>, SpecAttrValue)>::empty() by {
            assert(r.pairs(data) =~= Seq::empty());
        }
        r
    }

    /// The place of the attribute `key` in the list.
    fn position(&self, data: &[u8], key: &[u8]) -> (r: Option<usize>)
        requires
            self.wf(data@),
            valid_utf8(key@),
        ensures
            match r {
                Some(i) => {
                    &&& i < self.count()
                    &&& self.pairs(data@)[i as int].0 == decode_utf8(key@)
                    &&& self.model(data@).contains_key(decode_utf8(key@))
                    &&& self.model(data@)[decode_utf8(key@)] == self.pairs(data@)[i as int].1
                },
                None => !self.model(data@).contains_key(decode_utf8(key@)),
            },
    {
        let r = find_key(&self.0, data, key);
        proof {
            lemma_found(self.pairs(data@), key_bytes(self.0@, data@), key@, r);
        }
        r
    }

    /// What is known of the attribute `attr_name`.
    pub(crate) fn get_attr(&self, data: &[u8], attr_name: &str) -> (r: Option<&AttrValue>)
        requires
            self.wf(data@),
        ensures
            match r {
                Some(v) => {
                    &&& self.model(data@).contains_key(attr_name@)
                    &&& v.wf(data@)
                    &&& v.model(data@) == self.model(data@)[attr_name@]
                },
                None => !self.model(data@).contains_key(attr_name@),
            },
    {
        let key = attr_name.as_bytes();
        proof {
            vstd::utf8::encode_utf8_valid_utf8(attr_name@);
            vstd::utf8::encode_utf8_decode_utf8(attr_name@);
        }
        match self.position(data, key) {
            Some(i) => Some(&self.0[i].1),
            None => None,
        }
    }

    /// Takes in the attribute line that stands at `a`.
    fn declare(&mut self, data: &[u8], a: AttrSpan)
        requires
            old(self).wf(data@),
            a.within(data@.len()),
            index::bad_attr(a.of(data@)) is None,
        ensures
            final(self).wf(data@),
            final(self).model(data@) == index::declare(old(self).model(data@), a.of(data@)),
    {
        let ghost before = self.pairs(data@);
        match a.param {
            Some(p) => {
                match self.position(data, p.attr_name.slice(data)) {
                    Some(i) => {
                        self.0[i].1.set_param(data, p.param, a.value);
                        proof {
                            let now = self.0@[i as int].1.model(data@);
                            lemma_assoc_update(before, i as int, now);
                            assert(self.pairs(data@) =~= before.update(
                                i as int,
                                (before[i as int].0, now),
                            ));
                        }
                    },
                    None => {
                        let mut v = AttrValue { value: None, param_map: None };
                        v.set_param(data, p.param, a.value);
                        let ghost model = v.model(data@);
                        proof {
                            lemma_assoc_push(before, text_of(p.attr_name, data@), model);
                        }
                        self.0.push((p.attr_name, v));
                        assert(self.pairs(data@) =~= before.push(
                            (text_of(p.attr_name, data@), model),
                        ));
                    },
                }
            },
            None => {
                match self.position(data, a.name.slice(data)) {
                    Some(i) => {
                        self.0[i].1.set_value(data, a.value);
                        proof {
                            let now = self.0@[i as int].1.model(data@);
                            lemma_assoc_update(before, i as int, now);
                            assert(self.pairs(data@) =~= before.update(
                                i as int,
                                (before[i as int].0, now),
                            ));
                        }
                    },
                    None => {
                        let mut v = AttrValue { value: None, param_map: None };
                        v.set_value(data, a.value);
                        let ghost model = v.model(data@);
                        proof {
                            lemma_assoc_push(before, text_of(a.name, data@), model);
                        }
                        self.0.push((a.name, v));
                        assert(self.pairs(data@) =~= before.push(
                            (text_of(a.name, data@), model),
                        ));
                    },
                }
            },
        }
    }
}

/// The titles and the attributes of each section, in the order of `list`.
spec fn section_pairs(list: Seq<(Span, AttrMap)>, data: Seq<u8>) -> Seq<
    (Seq<char>, SpecAttrMap),
> {
    Seq::new(list.len(), |i: int| (text_of(list[i].0, data), list[i].1.model(data)))
}

/// Every range of `list` is text of the buffer `data`, and no title or name
/// stands twice.
spec fn sections_wf(list: Seq<(Span, AttrMap)>, data: Seq<u8>) -> bool {
    &&& forall|i: int|
        0 <= i < list.len() ==> is_text((#[trigger] list[i]).0, data) && list[i].1.wf(data)
    &&& distinct_keys(section_pairs(list, data))
}

/// Checks that what an attribute line holds is text.
fn check_attr(data: &[u8], a: AttrSpan) -> (r: Result<(), ParseError>)
    requires
        a.within(data@.len()),
    ensures
        match r {
            Ok(_) => index::bad_attr(a.of(data@)) is None,
            Err(e) => index::bad_attr(a.of(data@)) matches Some(b) && e.rejects(b),
        },
{
    match parse_str(a.value.slice(data)) {
        Ok(_) => {},
        Err(e) => {
            return Err(e);
        },
    }
    match a.param {
        Some(p) => {
            match parse_str(p.attr_name.slice(data)) {
                Ok(_) => {},
                Err(e) => {
                    return Err(e);
                },
            }
            match parse_str(p.param.slice(data)) {
                Ok(_) => Ok(()),
                Err(e) => Err(e),
            }
        },
        None => {
            match parse_str(a.name.slice(data)) {
                Ok(_) => Ok(()),
                Err(e) => Err(e),
            }
        },
    }
}

/// The attributes that the lines of the section `sec` declare.
fn build_attrs(data: &[u8], sec: &SectionSpan) -> (r: Result<AttrMap, ParseError>)
    requires
        sec.within(data@.len()),
    ensures
        match r {
            Ok(m) => {
                &&& m.wf(data@)
                &&& index::bad_attrs(sec.of(data@).attrs) is None
                &&& m.model(data@) == index::attr_map(sec.of(data@).attrs)
            },
            Err(e) => index::bad_attrs(sec.of(data@).attrs) matches Some(b) && e.rejects(b),
        },
{
    let mut map = AttrMap::new();
    let ghost lines = sec.of(data@).attrs;
    let mut j: usize = 0;
    assert(lines.take(0) =~= Seq::empty());
    while j < sec.attrs.len()
        invariant
            j <= sec.attrs@.len(),
            sec.within(data@.len()),
            lines == attrs_of(sec.attrs@, data@),
            map.wf(data@),
            index::bad_attrs(lines.take(j as int)) is None,
            map.model(data@) == index::attr_map(lines.take(j as int)),
        decreases sec.attrs@.len() - j,
    {
        let a = sec.attrs[j];
        proof {
            assert(lines.take(j + 1).drop_last() =~= lines.take(j as int));
            assert(lines.take(j + 1).last() == a.of(data@));
        }
        match check_attr(data, a) {
            Ok(_) => {},
            Err(e) => {
                proof {
                    index::lemma_bad_attrs_prefix(lines, j + 1);
                }
                return Err(e);
            },
        }
        map.declare(data, a);
        j += 1;
    }
    assert(lines.take(j as int) =~= lines);
    Ok(map)
}

/// Puts the attributes `attrs` under the title that stands at `title`. They
/// take the place of what stood under that title before.
fn insert_section(list: &mut Vec<(Span, AttrMap)>, data: &[u8], title: Span, attrs: AttrMap)
    requires
        sections_wf(old(list)@, data@),
        is_text(title, data@),
        attrs.wf(data@),
    ensures
        sections_wf(final(list)@, data@),
        assoc(section_pairs(final(list)@, data@)) == assoc(
            section_pairs(old(list)@, data@),
        ).insert(text_of(title, data@), attrs.model(data@)),
{
    let ghost before = section_pairs(list@, data@);
    let ghost model = attrs.model(data@);
    match find_key(list, data, title.slice(data)) {
        Some(i) => {
            list[i].1 = attrs;
            proof {
                lemma_assoc_update(before, i as int, model);
                assert(section_pairs(list@, data@) =~= before.update(
                    i as int,
                    (before[i as int].0, model),
                ));
            }
        },
        None => {
            proof {
                lemma_found(before, key_bytes(list@, data@), title.of(data@), None);
                lemma_assoc_push(before, text_of(title, data@), model);
            }
            list.push((title, attrs));
            assert(section_pairs(list@, data@) =~= before.push((text_of(title, data@), model)));
        },
    }
}

/// The index of the sections that stand at `sections`.
fn build_index(data: &[u8], sections: &Vec<SectionSpan>) -> (r: Result<
    Vec<(Span, AttrMap)>,
    ParseError,
>)
    requires
        forall|i: int| 0 <= i < sections@.len() ==> (#[trigger] sections@[i]).within(data@.len()),
    ensures
        match r {
            Ok(list) => {
                &&& sections_wf(list@, data@)
                &&& index::bad_text(sections_of(sections@, data@)) is None
                &&& assoc(section_pairs(list@, data@)) == index::index(
                    sections_of(sections@, data@),
                )
            },
            Err(e) => index::bad_text(sections_of(sections@, data@)) matches Some(b) && e.rejects(
                b,
            ),
        },
{
    let mut list: Vec<(Span, AttrMap)> = Vec::new();
    let ghost all = sections_of(sections@, data@);
    let mut i: usize = 0;
    assert(all.take(0) =~= Seq::empty());
    assert(section_pairs(list@, data@) =~= Seq::empty());
    while i < sections.len()
        invariant
            i <= sections@.len(),
            forall|k: int|
                0 <= k < sections@.len() ==> (#[trigger] sections@[k]).within(data@.len()),
            all == sections_of(sections@, data@),
            sections_wf(list@, data@),
            index::bad_text(all.take(i as int)) is None,
            assoc(section_pairs(list@, data@)) == index::index(all.take(i as int)),
        decreases sections@.len() - i,
    {
        let sec = &sections[i];
        proof {
            assert(all.take(i + 1).drop_last() =~= all.take(i as int));
            assert(all.take(i + 1).last() == sec.of(data@));
        }
        match parse_str(sec.title.slice(data)) {
            Ok(_) => {},
            Err(e) => {
                proof {
                    index::lemma_bad_text_prefix(all, i + 1);
                }
                return Err(e);
            },
        }
        match build_attrs(data, sec) {
            Ok(attrs) => {
                insert_section(&mut list, data, sec.title, attrs);
            },
            Err(e) => {
                proof {
                    index::lemma_bad_text_prefix(all, i + 1);
                }
                return Err(e);
            },
        }
        i += 1;
    }
    assert(all.take(i as int) =~= all);
    Ok(list)
}

/// The lookup table of an entry: the bytes of the file, and the index over
/// them.
pub struct Internal {
    map: Vec<(Span, AttrMap)>,
    data: Vec<u8>,
}

impl View for Internal {
    type V = SpecIndex;

    /// The sections by title.
    closed spec fn view(&self) -> SpecIndex {
        assoc(section_pairs(self.map@, self.data@))
    }
}

impl Internal {
    /// Every range of the index is text of the buffer, and no key stands twice
    /// in its list.
    #[verifier::type_invariant]
    closed spec fn inv(&self) -> bool {
        sections_wf(self.map@, self.data@)
    }

    /// The bytes of the file.
    pub closed spec fn bytes(&self) -> Seq<u8> {
        self.data@
    }

    /// Builds the table of the file `data`. This fails if the file does not
    /// follow the grammar, with the failure of the tokenizer, and if a title,
    /// a name, a parameter or a value is not UTF-8, with the first of them.
    pub fn new(data: Vec<u8>) -> (r: Result<Internal, ParseError>)
        ensures
            match grammar::sections(data@) {
                Err(e) => r matches Err(error) && error.reports(e),
                Ok(list) => match index::bad_text(list) {
                    Some(b) => r matches Err(error) && error.rejects(b),
                    None => r matches Ok(table) && table@ == index::index(list) && table.bytes()
                        == data@,
                },
            },
    {
        let sections = match tokenize(data.as_slice()) {
            Ok(sections) => sections,
            Err(e) => {
                return Err(ParseError::from(failure(data.as_slice(), e)));
            },
        };
        match build_index(data.as_slice(), &sections) {
            Ok(map) => Ok(Internal { map, data }),
            Err(e) => Err(e),
        }
    }

    /// The bytes of the file.
    pub fn data(&self) -> (r: &[u8])
        ensures
            r@ == self.bytes(),
    {
        self.data.as_slice()
    }

    /// The place of the section `section_name` in the list.
    fn position(&self, section_name: &str) -> (r: Option<usize>)
        ensures
            match r {
                Some(i) => {
                    &&& i < self.map@.len()
                    &&& self@.contains_key(section_name@)
                    &&& self@[section_name@] == self.map@[i as int].1.model(self.data@)
                    &&& self.map@[i as int].1.wf(self.data@)
                },
                None => !self@.contains_key(section_name@),
            },
    {
        proof {
            use_type_invariant(self);
            vstd::utf8::encode_utf8_valid_utf8(section_name@);
            vstd::utf8::encode_utf8_decode_utf8(section_name@);
        }
        let key = section_name.as_bytes();
        let r = find_key(&self.map, self.data.as_slice(), key);
        proof {
            lemma_found(
                section_pairs(self.map@, self.data@),
                key_bytes(self.map@, self.data@),
                key@,
                r,
            );
        }
        r
    }

    /// The attributes of the section `section_name`.
    pub fn get_section(&self, section_name: &str) -> (r: Option<&AttrMap>)
        ensures
            match r {
                Some(m) => {
                    &&& self@.contains_key(section_name@)
                    &&& m.wf(self.bytes())
                    &&& m.model(self.bytes()) == self@[section_name@]
                },
                None => !self@.contains_key(section_name@),
            },
    {
        match self.position(section_name) {
            Some(i) => Some(&self.map[i].1),
            None => None,
        }
    }

    /// The value of the attribute `attr_name` of the section `section_name`:
    /// without a parameter, or under the parameter `param_name`. `None` where
    /// there is no such section, attribute, parameter or value.
    pub fn get<'a>(
        &'a self,
        section_name: &str,
        attr_name: &str,
        param_name: Option<&str>,
    ) -> (r: Option<&'a str>)
        ensures
            match r {
                Some(s) => Some(s@),
                None => None,
            } == index::lookup(
                self@,
                section_name@,
                attr_name@,
                match param_name {
                    Some(p) => Some(p@),
                    None => None,
                },
            ),
    {
        let section_map = match self.get_section(section_name) {
            Some(m) => m,
            None => {
                return None;
            },
        };
        let attr_val = match section_map.get_attr(self.data(), attr_name) {
            Some(v) => v,
            None => {
                return None;
            },
        };
        match param_name {
            Some(param_name) => {
                match attr_val.get_params() {
                    Some(param_map) => param_map.get_param(self.data(), param_name),
                    None => None,
                }
            },
            None => attr_val.get_value(self.data()),
        }
    }

    /// What is known of the attribute `attr_name` of the section
    /// `section_name`.
    pub fn get_attr(&self, section_name: &str, attr_name: &str) -> (r: Option<&AttrValue>)
        ensures
            match r {
                Some(v) => {
                    &&& self@.contains_key(section_name@)
                    &&& self@[section_name@].contains_key(attr_name@)
                    &&& v.wf(self.bytes())
                    &&& v.model(self.bytes()) == self@[section_name@][attr_name@]
                },
                None => !(self@.contains_key(section_name@) && self@[section_name@].contains_key(
                    attr_name@,
                )),
            },
    {
        match self.get_section(section_name) {
            Some(section_map) => section_map.get_attr(self.data(), attr_name),
            None => None,
        }
    }

    /// The entry has a section `section_name`.
    pub fn has_section(&self, section_name: &str) -> (r: bool)
        ensures
            r == self@.contains_key(section_name@),
    {
        self.get_section(section_name).is_some()
    }
}

/// The texts of `names`.
pub open spec fn texts(names: Seq<&str>) -> Seq<Seq<char>> {
    Seq::new(names.len(), |i: int| names[i]@)
}

/// The keys of `list`, as text.
fn key_names<'a, T>(list: &Vec<(Span, T)>, data: &'a [u8]) -> (r: Vec<&'a str>)
    requires
        forall|i: int| 0 <= i < list@.len() ==> is_text((#[trigger] list@[i]).0, data@),
    ensures
        r@.len() == list@.len(),
        forall|i: int| 0 <= i < list@.len() ==> (#[trigger] r@[i])@ == text_of(list@[i].0, data@),
{
    let mut names: Vec<&'a str> = Vec::new();
    let mut i: usize = 0;
    while i < list.len()
        invariant
            i <= list@.len(),
            names@.len() == i,
            forall|j: int| 0 <= j < list@.len() ==> is_text((#[trigger] list@[j]).0, data@),
            forall|j: int| 0 <= j < i ==> (#[trigger] names@[j])@ == text_of(list@[j].0, data@),
        decreases list@.len() - i,
    {
        names.push(resolve(data, list[i].0));
        i += 1;
    }
    names
}

/// An iteration over the keys of one of the lists of an entry: the titles of
/// its sections, the names of the attributes of a section, or the parameters
/// of an attribute. The keys come in the order in which the file first names
/// them.
pub struct KeysIter<'a> {
    names: Vec<&'a str>,
    pos: usize,
}

impl<'a> KeysIter<'a> {
    /// The keys that are still to come.
    pub closed spec fn remaining(&self) -> Seq<Seq<char>> {
        if self.pos <= self.names@.len() {
            texts(self.names@.skip(self.pos as int))
        } else {
            Seq::empty()
        }
    }

    /// An iteration over `names`.
    fn new(names: Vec<&'a str>) -> (r: KeysIter<'a>)
        ensures
            r.remaining() == texts(names@),
    {
        assert(names@.skip(0) =~= names@);
        KeysIter { names, pos: 0 }
    }

    /// The next key, if one is left.
    pub fn next(&mut self) -> (r: Option<&'a str>)
        ensures
            match r {
                Some(s) => old(self).remaining().len() > 0 && s@ == old(self).remaining()[0]
                    && final(self).remaining() == old(self).remaining().drop_first(),
                None => old(self).remaining().len() == 0 && final(self).remaining().len() == 0,
            },
    {
        if self.pos < self.names.len() {
            let s = self.names[self.pos];
            proof {
                assert(texts(self.names@.skip(self.pos + 1)) =~= texts(
                    self.names@.skip(self.pos as int),
                ).drop_first());
            }
            self.pos += 1;
            Some(s)
        } else {
            None
        }
    }
}

impl ParamMap {
    /// The parameters.
    pub(crate) fn keys<'a>(&self, data: &'a [u8]) -> (r: Vec<&'a str>)
        requires
            self.wf(data@),
        ensures
            texts(r@) == self.names(data@),
            texts(r@).no_duplicates(),
            texts(r@).to_set() == self.model(data@).dom(),
    {
        let names = key_names(&self.0, data);
        proof {
            lemma_keys(self.pairs(data@));
            assert(texts(names@) =~= self.names(data@));
        }
        names
    }
}

impl AttrMap {
    /// The names of the attributes.
    pub(crate) fn keys<'a>(&self, data: &'a [u8]) -> (r: Vec<&'a str>)
        requires
            self.wf(data@),
        ensures
            texts(r@) == self.names(data@),
            texts(r@).no_duplicates(),
            texts(r@).to_set() == self.model(data@).dom(),
    {
        let names = key_names(&self.0, data);
        proof {
            lemma_keys(self.pairs(data@));
            assert(texts(names@) =~= self.names(data@));
        }
        names
    }
}

impl Internal {
    /// The titles of the sections, in the order of the list.
    pub closed spec fn titles(&self) -> Seq<Seq<char>> {
        keys(section_pairs(self.map@, self.data@))
    }

    /// The titles of the sections of the entry, each of them once.
    pub fn section_names<'a>(&'a self) -> (r: Vec<&'a str>)
        ensures
            texts(r@) == self.titles(),
            texts(r@).no_duplicates(),
            texts(r@).to_set() == self@.dom(),
    {
        proof {
            use_type_invariant(self);
        }
        let names = key_names(&self.map, self.data.as_slice());
        proof {
            lemma_keys(section_pairs(self.map@, self.data@));
            assert(texts(names@) =~= self.titles());
        }
        names
    }

    /// An iteration over the titles of the sections of the entry, each of them
    /// once.
    pub fn section_names_iter<'a>(&'a self) -> (r: KeysIter<'a>)
        ensures
            r.remaining() == self.titles(),
            r.remaining().no_duplicates(),
            r.remaining().to_set() == self@.dom(),
    {
        KeysIter::new(self.section_names())
    }

    /// The names of the attributes of the section `section_name`, each of them
    /// once; `None` where the entry has no such section.
    pub fn attr_names<'a>(&'a self, section_name: &str) -> (r: Option<Vec<&'a str>>)
        ensures
            match r {
                Some(names) => {
                    &&& self@.contains_key(section_name@)
                    &&& texts(names@).no_duplicates()
                    &&& texts(names@).to_set() == self@[section_name@].dom()
                },
                None => !self@.contains_key(section_name@),
            },
    {
        match self.get_section(section_name) {
            Some(section_map) => Some(section_map.keys(self.data())),
            None => None,
        }
    }

    /// An iteration over the names of the attributes of the section
    /// `section_name`, each of them once; `None` where the entry has no such
    /// section.
    pub fn attr_names_iter<'a>(&'a self, section_name: &str) -> (r: Option<KeysIter<'a>>)
        ensures
            match r {
                Some(iter) => {
                    &&& self@.contains_key(section_name@)
                    &&& iter.remaining().no_duplicates()
                    &&& iter.remaining().to_set() == self@[section_name@].dom()
                },
                None => !self@.contains_key(section_name@),
            },
    {
        match self.attr_names(section_name) {
            Some(names) => Some(KeysIter::new(names)),
            None => None,
        }
    }

    /// The parameters of the attribute `attr_name` of the section
    /// `section_name`, each of them once; `None` where the entry has no such
    /// attribute, or the attribute has no parameter.
    pub fn param_names<'a>(&'a self, section_name: &str, attr_name: &str) -> (r: Option<
        Vec<&'a str>,
    >)
        ensures
            match r {
                Some(names) => {
                    &&& self@.contains_key(section_name@)
                    &&& self@[section_name@].contains_key(attr_name@)
                    &&& self@[section_name@][attr_name@].params matches Some(pm)
                    &&& texts(names@).no_duplicates()
                    &&& texts(names@).to_set() == pm.dom()
                },
                None => !(self@.contains_key(section_name@) && self@[section_name@].contains_key(
                    attr_name@,
                ) && self@[section_name@][attr_name@].params is Some),
            },
    {
        let attr_val = match self.get_attr(section_name, attr_name) {
            Some(v) => v,
            None => {
                return None;
            },
        };
        match attr_val.get_params() {
            Some(param_map) => Some(param_map.keys(self.data())),
            None => None,
        }
    }

    /// An iteration over the parameters of the attribute `attr_name` of the
    /// section `section_name`, each of them once; `None` where the entry has
    /// no such attribute, or the attribute has no parameter.
    pub fn param_names_iter<'a>(&'a self, section_name: &str, attr_name: &str) -> (r: Option<
        KeysIter<'a>,
    >)
        ensures
            match r {
                Some(iter) => {
                    &&& self@.contains_key(section_name@)
                    &&& self@[section_name@].contains_key(attr_name@)
                    &&& self@[section_name@][attr_name@].params matches Some(pm)
                    &&& iter.remaining().no_duplicates()
                    &&& iter.remaining().to_set() == pm.dom()
                },
                None => !(self@.contains_key(section_name@) && self@[section_name@].contains_key(
                    attr_name@,
                ) && self@[section_name@][attr_name@].params is Some),
            },
    {
        match self.param_names(section_name, attr_name) {
            Some(names) => Some(KeysIter::new(names)),
            None => None,
        }
    }
}

} // verus!
