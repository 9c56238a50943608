//! The byte oriented tokenizer: it cuts a byte slice into sections and
//! attributes, each of them a view into the slice.
use crate::errors::{ParseError, SpecError, SyntaxError};
use crate::grammar;
use crate::grammar::{SpecAttr, SpecParam, SpecSection, Step};
use crate::scan::{attr_at, find_byte, header_at, params_at, section_at, skip_lines};
use crate::scan::{AttrSpan, ParamSpan, SectionSpan, SpanError};
use crate::text::Span;
use vstd::prelude::*;
use vstd::slice::slice_subrange;

verus! {

/// A name and value pair from a [`SectionBytes`]
#[derive(Debug, PartialEq, Eq)]
pub struct AttrBytes<'a> {
    pub name: &'a [u8],
    pub value: &'a [u8],
    /// Some attributes have a parameter like `GenericName[es]=Navegador web`
    /// If it does this field will be present
    pub param: Option<ParamBytes<'a>>,
}

/// A param value and attribute name
#[derive(Debug, PartialEq, Eq)]
pub struct ParamBytes<'a> {
    /// Value of the the param, ex. `es`
    pub param: &'a [u8],
    /// Name of the attribute without the param ex `GenericName`
    pub attr_name: &'a [u8],
}

/// One section of an entry file
#[derive(Debug, PartialEq, Eq)]
pub struct SectionBytes<'a> {
    /// Section title
    pub title: &'a [u8],
    /// List of attributes
    pub attrs: Vec<AttrBytes<'a>>,
}

impl<'a> View for ParamBytes<'a> {
    type V = SpecParam;

    open spec fn view(&self) -> SpecParam {
        SpecParam { param: self.param@, attr_name: self.attr_name@ }
    }
}

impl<'a> View for AttrBytes<'a> {
    type V = SpecAttr;

    open spec fn view(&self) -> SpecAttr {
        SpecAttr {
            name: self.name@,
            value: self.value@,
            param: match self.param {
                Some(p) => Some(p@),
                None => None,
            },
        }
    }
}

impl<'a> View for SectionBytes<'a> {
    type V = SpecSection;

    open spec fn view(&self) -> SpecSection {
        SpecSection { title: self.title@, attrs: attr_views(self.attrs@) }
    }
}

/// The attribute lines that `list` holds.
pub open spec fn attr_views(list: Seq<AttrBytes>) -> Seq<SpecAttr> {
    Seq::new(list.len(), |i: int| list[i]@)
}

/// The sections that `list` holds.
pub open spec fn section_views(list: Seq<SectionBytes>) -> Seq<SpecSection> {
    Seq::new(list.len(), |i: int| list[i]@)
}

/// `c` is none of newline, tab, carriage return and space.
pub fn not_whitespace(c: u8) -> (r: bool)
    ensures
        r == !grammar::is_whitespace(c),
{
    c != 0x0a && c != 0x09 && c != 0x0d && c != 0x20
}

/// The input from the offset `from` on.
fn tail<'a>(input: &'a [u8], from: usize) -> (r: &'a [u8])
    requires
        from <= input@.len(),
    ensures
        r@ == input@.skip(from as int),
{
    let r = slice_subrange(input, from, input.len());
    assert(r@ =~= input@.skip(from as int));
    r
}

/// The failure `e` of the tokenizer on `input`, with the input that was left.
pub(crate) fn failure<'a>(input: &'a [u8], e: SpanError) -> (r: SyntaxError<'a>)
    requires
        e.at <= input@.len(),
    ensures
        r@ == e.of(input@),
{
    SyntaxError { input: tail(input, e.at), code: e.code }
}

fn param_bytes<'a>(input: &'a [u8], p: ParamSpan) -> (r: ParamBytes<'a>)
    requires
        p.within(input@.len()),
    ensures
        r@ == p.of(input@),
{
    ParamBytes { param: p.param.slice(input), attr_name: p.attr_name.slice(input) }
}

fn attr_bytes<'a>(input: &'a [u8], a: AttrSpan) -> (r: AttrBytes<'a>)
    requires
        a.within(input@.len()),
    ensures
        r@ == a.of(input@),
{
    AttrBytes {
        name: a.name.slice(input),
        value: a.value.slice(input),
        param: match a.param {
            Some(p) => Some(param_bytes(input, p)),
            None => None,
        },
    }
}

fn section_bytes<'a>(input: &'a [u8], sec: &SectionSpan) -> (r: SectionBytes<'a>)
    requires
        sec.within(input@.len()),
    ensures
        r@ == sec.of(input@),
{
    let mut attrs: Vec<AttrBytes<'a>> = Vec::new();
    let mut i: usize = 0;
    while i < sec.attrs.len()
        invariant
            i <= sec.attrs@.len(),
            sec.within(input@.len()),
            attrs@.len() == i,
            forall|j: int| 0 <= j < i ==> (#[trigger] attrs@[j])@ == sec.attrs@[j].of(input@),
        decreases sec.attrs@.len() - i,
    {
        attrs.push(attr_bytes(input, sec.attrs[i]));
        i += 1;
    }
    let r = SectionBytes { title: sec.title.slice(input), attrs };
    assert(r@.attrs =~= sec.of(input@).attrs);
    r
}

/// Parse a header line. Return the header name
pub fn header(input: &[u8]) -> (r: Result<(&[u8], &[u8]), SyntaxError>)
    ensures
        match r {
            Ok((rest, title)) => grammar::header(input@) == Ok::<_, SpecError>((rest@, title@)),
            Err(e) => grammar::header(input@) == Err::<(Seq<u8>, Seq<u8>), _>(e@),
        },
{
    assert(input@.skip(0) =~= input@);
    match header_at(input, 0) {
        Ok((next, title)) => Ok((tail(input, next), title.slice(input))),
        Err(e) => Err(failure(input, e)),
    }
}

/// Find the next line, ignoring comments
pub fn next_line(input: &[u8]) -> (r: Result<&[u8], SyntaxError>)
    ensures
        r matches Ok(rest) && rest@ == grammar::skip_lines(input@),
{
    assert(input@.skip(0) =~= input@);
    let next: usize = skip_lines(input, 0);
    Ok(tail(input, next))
}

/// Split the input before its first `[`. Returns what follows, and what was
/// passed over.
pub fn find_start(input: &[u8]) -> (r: Result<(&[u8], &[u8]), SyntaxError>)
    ensures
        r matches Ok((rest, skipped)) && rest@ == grammar::find_start(input@) && skipped@
            == input@.take(grammar::until(input@, grammar::OPEN) as int),
{
    assert(input@.subrange(0, input@.len() as int) =~= input@);
    let start: usize = find_byte(input, 0, input.len(), grammar::OPEN);
    let skipped = slice_subrange(input, 0, start);
    Ok((tail(input, start), skipped))
}

/// Parse attr params
pub fn params(input: &[u8]) -> (r: Result<(&[u8], ParamBytes), SyntaxError>)
    ensures
        match r {
            Ok((rest, p)) => grammar::params(input@) == Ok::<_, SpecError>((rest@, p@)),
            Err(e) => grammar::params(input@) == Err::<(Seq<u8>, SpecParam), _>(e@),
        },
{
    let whole = Span { start: 0, end: input.len() };
    assert(whole.of(input@) =~= input@);
    match params_at(input, whole) {
        Ok((next, p)) => Ok((tail(input, next), param_bytes(input, p))),
        Err(e) => Err(failure(input, e)),
    }
}

/// Parse an attribute line, and pass over the whitespace and comments that
/// follow it.
pub fn attr(input: &[u8]) -> (r: Result<(&[u8], AttrBytes), SyntaxError>)
    ensures
        match r {
            Ok((rest, a)) => grammar::attr(input@) == Ok::<_, SpecError>((rest@, a@)),
            Err(e) => grammar::attr(input@) == Err::<(Seq<u8>, SpecAttr), _>(e@),
        },
{
    assert(input@.skip(0) =~= input@);
    match attr_at(input, 0) {
        Ok((next, a)) => Ok((tail(input, next), attr_bytes(input, a))),
        Err(e) => Err(failure(input, e)),
    }
}

/// Parse a section: its header and its attributes.
pub fn section(input: &[u8]) -> (r: Result<(&[u8], SectionBytes), SyntaxError>)
    ensures
        match r {
            Ok((rest, sec)) => grammar::section(input@) == Ok::<_, SpecError>((rest@, sec@)),
            Err(e) => grammar::section(input@) == Err::<(Seq<u8>, SpecSection), _>(e@),
        },
{
    assert(input@.skip(0) =~= input@);
    match section_at(input, 0) {
        Ok((next, sec)) => Ok((tail(input, next), section_bytes(input, &sec))),
        Err(e) => Err(failure(input, e)),
    }
}

/// An iterator over the sections in a entry file.
/// Returns [`SectionBytes`]
///
/// A failure ends the iteration: after an `Err`, `next` returns `None`.
pub struct EntryIter<'a> {
    rem: &'a [u8],
    found_start: bool,
}

impl<'a> EntryIter<'a> {
    /// The input that is left.
    pub closed spec fn rest(&self) -> Seq<u8> {
        self.rem@
    }

    /// A section has been looked for before.
    pub closed spec fn started(&self) -> bool {
        self.found_start
    }

    /// Reads the section at the next `[` of the input that is left.
    fn next_section(&mut self) -> (r: Result<SectionBytes<'a>, ParseError>)
        ensures
            match grammar::section(grammar::find_start(old(self).rest())) {
                Ok((rest, sec)) => {
                    &&& r matches Ok(found)
                    &&& found@ == sec
                    &&& final(self).rest() == rest
                    &&& final(self).started() == old(self).started()
                },
                Err(e) => {
                    &&& r matches Err(error)
                    &&& error.reports(e)
                    &&& final(self).rest().len() == 0
                    &&& final(self).started() == old(self).started()
                },
            },
    {
        let input = self.rem;
        assert(input@.subrange(0, input@.len() as int) =~= input@);
        let start: usize = find_byte(input, 0, input.len(), grammar::OPEN);
        match section_at(input, start) {
            Ok((next, sec)) => {
                self.rem = tail(input, next);
                Ok(section_bytes(input, &sec))
            },
            Err(e) => {
                self.rem = tail(input, input.len());
                Err(ParseError::from(failure(input, e)))
            },
        }
    }

    /// The next section of the file, or the reason why it cannot be read.
    pub fn next(&mut self) -> (r: Option<Result<SectionBytes<'a>, ParseError>>)
        ensures
            match grammar::step(old(self).rest(), old(self).started()) {
                Step::Done => r is None && final(self).rest().len() == 0,
                Step::Section(sec, rest) => {
                    &&& r matches Some(Ok(found))
                    &&& found@ == sec
                    &&& final(self).rest() == rest
                    &&& final(self).started()
                },
                Step::Failed(e) => {
                    &&& r matches Some(Err(error))
                    &&& error.reports(e)
                    &&& final(self).rest().len() == 0
                },
            },
    {
        if self.rem.len() == 0 {
            return None;
        }
        if !self.found_start {
            let input = self.rem;
            assert(input@.subrange(0, input@.len() as int) =~= input@);
            let start: usize = find_byte(input, 0, input.len(), grammar::OPEN);
            self.rem = tail(input, start);
            self.found_start = true;
            if self.rem.len() == 0 {
                return None;
            }
            proof {
                grammar::lemma_find_start_again(input@);
            }
        }
        Some(self.next_section())
    }

    /// All the sections of the file, or the first failure.
    pub fn collect(self) -> (r: Result<Vec<SectionBytes<'a>>, ParseError>)
        ensures
            match grammar::sections_from(self.rest(), self.started()) {
                Ok(list) => r matches Ok(found) && section_views(found@) == list,
                Err(e) => r matches Err(error) && error.reports(e),
            },
    {
        let mut iter = self;
        let mut found: Vec<SectionBytes<'a>> = Vec::new();
        let ghost whole = grammar::sections_from(self.rest(), self.started());
        loop
            invariant
                whole == grammar::sections_from(self.rest(), self.started()),
                match grammar::sections_from(iter.rest(), iter.started()) {
                    Ok(more) => whole == Ok::<_, SpecError>(section_views(found@) + more),
                    Err(e) => whole == Err::<Seq<SpecSection>, _>(e),
                },
            decreases iter.rest().len(),
        {
            proof {
                grammar::lemma_step_shrinks(iter.rest(), iter.started());
            }
            let ghost before = section_views(found@);
            match iter.next() {
                None => {
                    assert(before + Seq::<SpecSection>::empty() =~= before);
                    return Ok(found);
                },
                Some(Err(e)) => {
                    return Err(e);
                },
                Some(Ok(sec)) => {
                    proof {
                        match grammar::sections_from(iter.rest(), true) {
                            Ok(more) => {
                                assert(before + (seq![sec@] + more) =~= section_views(
                                    found@.push(sec),
                                ) + more);
                            },
                            Err(_) => {},
                        }
                    }
                    found.push(sec);
                },
            }
        }
    }
}

/// Parse a FreeDesktop entry file.
/// Returns an iterator over the sections in the file.
pub fn parse_entry(input: &[u8]) -> (r: EntryIter<'_>)
    ensures
        r.rest() == input@,
        !r.started(),
{
    EntryIter { rem: input, found_start: false }
}

} // verus!
