//! A parser for FreeDesktop entry files: desktop entries, icon theme indexes
//! and systemd unit files.
//!
//! An entry file is split into sections, each opened by a header of the form
//! `[NAME]`. A section holds attributes, written `key=value`, one per line. An
//! attribute's key may end in a parameter between `[` and `]`, which is mostly
//! used for localization: `GenericName[ast]=Restolador Web`.
//!
//! The crate has two layers. [`parser`] cuts a byte slice into sections and
//! attributes without copying any of it. [`Entry`] owns a buffer and an index
//! over it, and answers lookups by section, attribute and parameter.
//!
//! Every function is verified: [`grammar`] states what the tokenizer
//! recognizes, [`index`] states what the lookup table holds, and the contracts
//! of the executable functions refer to those two.

pub mod assoc;
pub mod errors;
pub mod grammar;
pub mod index;
pub mod internal;
pub mod low_level;
pub mod parser;
mod scan;
pub mod text;

use crate::errors::ParseError;
use crate::index::SpecIndex;
use crate::internal::{texts, AttrValue, Internal, KeysIter};
use vstd::prelude::*;

verus! {

/// The text of `s`, if there is one.
pub open spec fn text(s: Option<&str>) -> Option<Seq<char>> {
    match s {
        Some(s) => Some(s@),
        None => None,
    }
}

/// A parsed entry file: its bytes, and the index of its sections.
pub struct Entry(Internal);

impl View for Entry {
    type V = SpecIndex;

    /// The sections of the entry by title, and the attributes of each by name.
    closed spec fn view(&self) -> SpecIndex {
        self.0@
    }
}

impl Entry {
    /// The bytes of the file.
    pub closed spec fn bytes(&self) -> Seq<u8> {
        self.0.bytes()
    }

    /// Parse an entry from a byte buffer.
    ///
    /// This fails if the buffer does not follow the grammar of entry files,
    /// and if a title, a name, a parameter or a value in it is not UTF-8.
    pub fn parse(input: Vec<u8>) -> (r: Result<Entry, ParseError>)
        ensures
            match grammar::sections(input@) {
                Err(e) => r matches Err(error) && error.reports(e),
                Ok(list) => match index::bad_text(list) {
                    Some(b) => r matches Err(error) && error.rejects(b),
                    None => r matches Ok(entry) && entry@ == index::index(list) && entry.bytes()
                        == input@,
                },
            },
    {
        match Internal::new(input) {
            Ok(table) => Ok(Entry(table)),
            Err(e) => Err(e),
        }
    }

    /// Check if the entry has a section with a `name`.
    pub fn has_section(&self, name: &str) -> (r: bool)
        ensures
            r == self@.contains_key(name@),
    {
        self.0.has_section(name)
    }

    /// Get section with `name`.
    pub fn section<'a, 'n>(&'a self, name: &'n str) -> (r: AttrSelector<'a, 'n>)
        ensures
            r.title() == name@,
            r.entry() == self,
    {
        AttrSelector { name, entry: self }
    }

    /// Iterator over sections.
    pub fn sections(&self) -> (r: SectionIter<'_>)
        ensures
            r.entry() == self,
            r.remaining().no_duplicates(),
            r.remaining().to_set() == self@.dom(),
    {
        SectionIter { iter: self.0.section_names_iter(), entry: self }
    }
}

/// Iterate over the sections in an entry.
///
/// Created from [`Entry::sections`]. Outputs [`AttrSelector`]
pub struct SectionIter<'a> {
    iter: KeysIter<'a>,
    entry: &'a Entry,
}

impl<'a> SectionIter<'a> {
    /// The entry whose sections these are.
    pub closed spec fn entry(&self) -> &'a Entry {
        self.entry
    }

    /// The titles of the sections that are still to come.
    pub closed spec fn remaining(&self) -> Seq<Seq<char>> {
        self.iter.remaining()
    }

    /// The next section, if one is left.
    pub fn next(&mut self) -> (r: Option<AttrSelector<'a, 'a>>)
        ensures
            final(self).entry() == old(self).entry(),
            match r {
                Some(section) => {
                    &&& old(self).remaining().len() > 0
                    &&& section.title() == old(self).remaining()[0]
                    &&& section.entry() == old(self).entry()
                    &&& final(self).remaining() == old(self).remaining().drop_first()
                },
                None => old(self).remaining().len() == 0 && final(self).remaining().len() == 0,
            },
    {
        match self.iter.next() {
            Some(name) => Some(AttrSelector { name, entry: self.entry }),
            None => None,
        }
    }
}

/// Get attributes and their values from a given section.
///
/// Created from [`Entry::section`] or [`SectionIter`]
pub struct AttrSelector<'a, 'n> {
    name: &'n str,
    entry: &'a Entry,
}

impl<'a, 'n> AttrSelector<'a, 'n> {
    /// The entry that the section is looked up in.
    pub closed spec fn entry(&self) -> &'a Entry {
        self.entry
    }

    /// The title of the section.
    pub closed spec fn title(&self) -> Seq<char> {
        self.name@
    }

    /// Get the value of the attribute `name`.
    pub fn attr(&self, name: &str) -> (r: Option<&'a str>)
        ensures
            text(r) == index::lookup(self.entry()@, self.title(), name@, None),
    {
        self.entry.0.get(self.name, name, None)
    }

    /// Check if this section has an attribute with `name`.
    pub fn has_attr(&self, name: &str) -> (r: bool)
        ensures
            r == (self.entry()@.contains_key(self.title()) && self.entry()@[self.title()].contains_key(
                name@,
            )),
    {
        self.entry.0.get_attr(self.name, name).is_some()
    }

    /// Get the value of the attribute `name` and param value `param_val`.
    pub fn attr_with_param(&self, name: &str, param_val: &str) -> (r: Option<&'a str>)
        ensures
            text(r) == index::lookup(self.entry()@, self.title(), name@, Some(param_val@)),
    {
        self.entry.0.get(self.name, name, Some(param_val))
    }

    /// Check if this section has an attribute with `name` and param value `param_val`.
    pub fn has_attr_with_param(&self, name: &str, param_val: &str) -> (r: bool)
        ensures
            r == index::lookup(self.entry()@, self.title(), name@, Some(param_val@)) is Some,
    {
        self.entry.0.get(self.name, name, Some(param_val)).is_some()
    }

    /// Get this section's name.
    pub fn name(&self) -> (r: &'n str)
        ensures
            r@ == self.title(),
    {
        self.name
    }
}

impl<'a> AttrSelector<'a, 'a> {
    /// Iterator over attributes in this section
    pub fn attrs(&self) -> (r: AttrIter<'a>)
        ensures
            r.entry() == self.entry(),
            r.title() == self.title(),
            r.remaining().no_duplicates(),
            r.remaining().to_set() == (if self.entry()@.contains_key(self.title()) {
                self.entry()@[self.title()].dom()
            } else {
                Set::empty()
            }),
    {
        let names = match self.entry.0.attr_names(self.name) {
            Some(names) => names,
            None => Vec::new(),
        };
        proof {
            let all = texts(names@);
            assert(names@.skip(0) =~= names@);
            assert forall|i: int| 0 <= i < names@.len() implies self.entry@[self.name@].contains_key(
            #[trigger] names@[i]@) by {
                assert(all[i] == names@[i]@);
                assert(all.to_set().contains(all[i]));
            }
            if !self.entry@.contains_key(self.name@) {
                assert(all.to_set() =~= Set::empty());
            }
        }
        AttrIter { section_name: self.name, names, pos: 0, entry: self.entry }
    }
}

/// A single attribute and it's value. Can also get attribute params if they
/// exist.
///
/// The value is an `Option` because this attribute may have values under
/// params only.
pub struct Attr<'a> {
    /// Name of the section the attribute is from
    pub section_name: &'a str,
    /// Name of the attribute
    pub name: &'a str,
    /// Value of the attribute if it exists.
    pub value: Option<&'a str>,
    attr: &'a AttrValue,
    entry: &'a Entry,
}

impl<'a> Attr<'a> {
    /// The entry that the attribute is from.
    pub closed spec fn entry(&self) -> &'a Entry {
        self.entry
    }

    /// The title of the section that the attribute is from.
    pub closed spec fn title(&self) -> Seq<char> {
        self.section_name@
    }

    /// The name of the attribute.
    pub closed spec fn label(&self) -> Seq<char> {
        self.name@
    }

    /// The value that the attribute carries along.
    pub closed spec fn plain(&self) -> Option<Seq<char>> {
        text(self.value)
    }

    /// What the entry knows of the attribute.
    pub open spec fn known(&self) -> index::SpecAttrValue {
        self.entry()@[self.title()][self.label()]
    }

    /// The attribute is one of its entry, under its section and its name, and
    /// holds what the entry knows of it. This is so of every attribute that an
    /// [`AttrIter`] returns, as long as its fields are left as they are.
    pub closed spec fn wf(&self) -> bool {
        &&& self.entry@.contains_key(self.section_name@)
        &&& self.entry@[self.section_name@].contains_key(self.name@)
        &&& self.attr.model(self.entry.bytes()) == self.entry@[self.section_name@][self.name@]
        &&& text(self.value) == self.entry@[self.section_name@][self.name@].value
    }

    /// The attribute and its value are those that the entry holds.
    pub proof fn lemma_known(&self)
        requires
            self.wf(),
        ensures
            self.entry()@.contains_key(self.title()),
            self.entry()@[self.title()].contains_key(self.label()),
            self.plain() == self.known().value,
    {
    }

    /// Check if this attribute has a value without a param.
    pub fn has_value(&self) -> (r: bool)
        ensures
            self.wf() ==> r == self.known().value is Some,
    {
        self.attr.has_value()
    }

    /// Check if this attribute has a param.
    pub fn has_params(&self) -> (r: bool)
        ensures
            self.wf() ==> r == self.known().params is Some,
    {
        self.attr.get_params().is_some()
    }

    /// Iterator over params
    pub fn params(&self) -> (r: ParamIter<'a>)
        ensures
            r.entry() == self.entry(),
            r.title() == self.title(),
            r.attr_name() == self.label(),
            r.remaining().no_duplicates(),
            r.remaining().to_set() == index::params_of(self.entry()@, self.title(), self.label()).dom(),
    {
        let names = match self.entry.0.param_names(self.section_name, self.name) {
            Some(names) => names,
            None => Vec::new(),
        };
        proof {
            let all = texts(names@);
            let pm = index::params_of(self.entry@, self.section_name@, self.name@);
            assert(names@.skip(0) =~= names@);
            assert forall|i: int| 0 <= i < names@.len() implies pm.contains_key(
                #[trigger] names@[i]@,
            ) by {
                assert(all[i] == names@[i]@);
                assert(all.to_set().contains(all[i]));
            }
            assert(all.to_set() =~= pm.dom());
        }
        ParamIter {
            section_name: self.section_name,
            attr_name: self.name,
            names,
            pos: 0,
            entry: self.entry,
        }
    }
}

/// Iterates over attributes in a section
pub struct AttrIter<'a> {
    section_name: &'a str,
    names: Vec<&'a str>,
    pos: usize,
    entry: &'a Entry,
}

impl<'a> AttrIter<'a> {
    /// Every name that is still to come is an attribute of the section.
    #[verifier::type_invariant]
    closed spec fn inv(&self) -> bool {
        &&& self.pos <= self.names@.len()
        &&& forall|i: int|
            self.pos <= i < self.names@.len() ==> self.entry@.contains_key(self.section_name@)
                && self.entry@[self.section_name@].contains_key((#[trigger] self.names@[i])@)
    }

    /// The entry whose attributes these are.
    pub closed spec fn entry(&self) -> &'a Entry {
        self.entry
    }

    /// The title of the section whose attributes these are.
    pub closed spec fn title(&self) -> Seq<char> {
        self.section_name@
    }

    /// The names of the attributes that are still to come. There is none
    /// where the entry has no such section.
    pub closed spec fn remaining(&self) -> Seq<Seq<char>> {
        if self.pos <= self.names@.len() {
            texts(self.names@.skip(self.pos as int))
        } else {
            Seq::empty()
        }
    }

    /// The next attribute, if one is left.
    pub fn next(&mut self) -> (r: Option<Attr<'a>>)
        ensures
            final(self).entry() == old(self).entry(),
            final(self).title() == old(self).title(),
            match r {
                Some(attr) => {
                    &&& old(self).remaining().len() > 0
                    &&& attr.wf()
                    &&& attr.entry() == old(self).entry()
                    &&& attr.title() == old(self).title()
                    &&& attr.label() == old(self).remaining()[0]
                    &&& final(self).remaining() == old(self).remaining().drop_first()
                },
                None => old(self).remaining().len() == 0 && final(self).remaining().len() == 0,
            },
    {
        proof {
            use_type_invariant(&*self);
        }
        if self.pos >= self.names.len() {
            return None;
        }
        let attr_name = self.names[self.pos];
        proof {
            assert(texts(self.names@.skip(self.pos + 1)) =~= texts(
                self.names@.skip(self.pos as int),
            ).drop_first());
        }
        self.pos += 1;
        match self.entry.0.get_attr(self.section_name, attr_name) {
            Some(attr) => Some(
                Attr {
                    attr,
                    name: attr_name,
                    section_name: self.section_name,
                    entry: self.entry,
                    value: attr.get_value(self.entry.0.data()),
                },
            ),
            None => {
                proof {
                    assert(false);
                }
                None
            },
        }
    }
}

/// Value of an attribute with a param.
pub struct AttrParam<'a> {
    /// Section this param is from
    pub section_name: &'a str,
    /// Attribute this param is from
    pub attr_name: &'a str,
    /// Name of the param.
    pub param_val: &'a str,
    /// Value of the attribute with this param.
    pub value: &'a str,
}

/// Iterator over an attributes params.
pub struct ParamIter<'a> {
    section_name: &'a str,
    attr_name: &'a str,
    names: Vec<&'a str>,
    pos: usize,
    entry: &'a Entry,
}

impl<'a> ParamIter<'a> {
    /// Every parameter that is still to come is one of the attribute.
    #[verifier::type_invariant]
    closed spec fn inv(&self) -> bool {
        &&& self.pos <= self.names@.len()
        &&& forall|i: int|
            self.pos <= i < self.names@.len() ==> index::params_of(
                self.entry@,
                self.section_name@,
                self.attr_name@,
            ).contains_key((#[trigger] self.names@[i])@)
    }

    /// The entry whose parameters these are.
    pub closed spec fn entry(&self) -> &'a Entry {
        self.entry
    }

    /// The title of the section of the attribute.
    pub closed spec fn title(&self) -> Seq<char> {
        self.section_name@
    }

    /// The name of the attribute whose parameters these are.
    pub closed spec fn attr_name(&self) -> Seq<char> {
        self.attr_name@
    }

    /// The parameters that are still to come. There is none where the
    /// attribute has no parameter.
    pub closed spec fn remaining(&self) -> Seq<Seq<char>> {
        if self.pos <= self.names@.len() {
            texts(self.names@.skip(self.pos as int))
        } else {
            Seq::empty()
        }
    }

    /// The next parameter and the value under it, if one is left.
    pub fn next(&mut self) -> (r: Option<AttrParam<'a>>)
        ensures
            final(self).entry() == old(self).entry(),
            final(self).title() == old(self).title(),
            final(self).attr_name() == old(self).attr_name(),
            match r {
                Some(p) => {
                    &&& old(self).remaining().len() > 0
                    &&& p.section_name@ == old(self).title()
                    &&& p.attr_name@ == old(self).attr_name()
                    &&& p.param_val@ == old(self).remaining()[0]
                    &&& Some(p.value@) == index::lookup(
                        old(self).entry()@,
                        old(self).title(),
                        old(self).attr_name(),
                        Some(p.param_val@),
                    )
                    &&& final(self).remaining() == old(self).remaining().drop_first()
                },
                None => old(self).remaining().len() == 0 && final(self).remaining().len() == 0,
            },
    {
        proof {
            use_type_invariant(&*self);
        }
        if self.pos >= self.names.len() {
            return None;
        }
        let param_val = self.names[self.pos];
        proof {
            assert(texts(self.names@.skip(self.pos + 1)) =~= texts(
                self.names@.skip(self.pos as int),
            ).drop_first());
        }
        self.pos += 1;
        match self.entry.0.get(self.section_name, self.attr_name, Some(param_val)) {
            Some(value) => Some(
                AttrParam {
                    section_name: self.section_name,
                    attr_name: self.attr_name,
                    param_val,
                    value,
                },
            ),
            None => {
                proof {
                    assert(false);
                }
                None
            },
        }
    }
}

} // verus!
