//! The tokenizer on offsets: it reads a buffer from a position on and returns
//! the ranges of the tokens it finds, as [`crate::grammar`] defines them.
use crate::errors::{ErrorKind, SpecError};
use crate::grammar;
use crate::grammar::{CLOSE, EQUALS, HASH, NEWLINE, OPEN, SpecAttr, SpecParam, SpecSection};
use crate::parser::not_whitespace;
use crate::text::Span;
use vstd::prelude::*;

verus! {

/// Where the tokenizer gave up, and at which stage.
#[derive(Clone, Copy, Debug, PartialEq, Eq)]
pub struct SpanError {
    /// The offset at which the input that was left begins
    pub at: usize,
    pub code: ErrorKind,
}

impl SpanError {
    /// The failure in terms of the buffer `s`.
    pub open spec fn of(self, s: Seq<u8>) -> SpecError {
        SpecError { input: s.skip(self.at as int), code: self.code }
    }
}

/// The ranges of a parameter.
#[derive(Clone, Copy, Debug, PartialEq, Eq)]
pub struct ParamSpan {
    pub param: Span,
    pub attr_name: Span,
}

impl ParamSpan {
    pub open spec fn within(self, len: nat) -> bool {
        self.param.within(len) && self.attr_name.within(len)
    }

    pub open spec fn of(self, s: Seq<u8>) -> SpecParam {
        SpecParam { param: self.param.of(s), attr_name: self.attr_name.of(s) }
    }
}

/// The ranges of an attribute line.
#[derive(Clone, Copy, Debug, PartialEq, Eq)]
pub struct AttrSpan {
    pub name: Span,
    pub value: Span,
    pub param: Option<ParamSpan>,
}

impl AttrSpan {
    pub open spec fn within(self, len: nat) -> bool {
        &&& self.name.within(len)
        &&& self.value.within(len)
        &&& self.param matches Some(p) ==> p.within(len)
    }

    pub open spec fn of(self, s: Seq<u8>) -> SpecAttr {
        SpecAttr {
            name: self.name.of(s),
            value: self.value.of(s),
            param: match self.param {
                Some(p) => Some(p.of(s)),
                None => None,
            },
        }
    }

    /// The ranges are those of an attribute line that begins at `pos`.
    pub open spec fn begins_at(self, pos: int) -> bool {
        &&& self.name.start == pos
        &&& self.value.start == self.name.end + 1
        &&& self.param matches Some(p) ==> p.attr_name.start == pos && p.param.start
            == p.attr_name.end + 1
    }
}

/// The ranges of a section.
#[derive(Debug, PartialEq, Eq)]
pub struct SectionSpan {
    pub title: Span,
    pub attrs: Vec<AttrSpan>,
}

impl SectionSpan {
    pub open spec fn within(self, len: nat) -> bool {
        &&& self.title.within(len)
        &&& forall|i: int| 0 <= i < self.attrs@.len() ==> (#[trigger] self.attrs@[i]).within(len)
    }

    pub open spec fn of(self, s: Seq<u8>) -> SpecSection {
        SpecSection { title: self.title.of(s), attrs: attrs_of(self.attrs@, s) }
    }
}

/// The attribute lines that the ranges `list` stand for in the buffer `s`.
pub open spec fn attrs_of(list: Seq<AttrSpan>, s: Seq<u8>) -> Seq<SpecAttr> {
    Seq::new(list.len(), |i: int| list[i].of(s))
}

/// The sections that the ranges `list` stand for in the buffer `s`.
pub open spec fn sections_of(list: Seq<SectionSpan>, s: Seq<u8>) -> Seq<SpecSection> {
    Seq::new(list.len(), |i: int| list[i].of(s))
}

/// The offset of the first `b` in `input[from..to]`, or `to` where there is
/// none.
pub fn find_byte(input: &[u8], from: usize, to: usize, b: u8) -> (r: usize)
    requires
        from <= to <= input@.len(),
    ensures
        r == from + grammar::until(input@.subrange(from as int, to as int), b),
        from <= r <= to,
{
    let mut i: usize = from;
    while i < to && input[i] != b
        invariant
            from <= i <= to <= input@.len(),
            forall|j: int| from <= j < i ==> input@[j] != b,
        decreases to - i,
    {
        i += 1;
    }
    proof {
        grammar::lemma_until_is(input@.subrange(from as int, to as int), b, i - from);
    }
    i
}

/// The offset of the first byte at or after `from` that is no whitespace, or
/// the length of `input`.
pub fn skip_blanks(input: &[u8], from: usize) -> (r: usize)
    requires
        from <= input@.len(),
    ensures
        r == from + grammar::blanks(input@.skip(from as int)),
        from <= r <= input@.len(),
{
    let mut i: usize = from;
    while i < input.len() && !not_whitespace(input[i])
        invariant
            from <= i <= input@.len(),
            forall|j: int| from <= j < i ==> grammar::is_whitespace(input@[j]),
        decreases input@.len() - i,
    {
        i += 1;
    }
    proof {
        grammar::lemma_blanks_is(input@.skip(from as int), i - from);
    }
    i
}

/// The offset at which the input goes on after the whitespace and comments
/// that stand at `from`.
pub fn skip_lines(input: &[u8], from: usize) -> (r: usize)
    requires
        from <= input@.len(),
    ensures
        from <= r <= input@.len(),
        input@.skip(r as int) == grammar::skip_lines(input@.skip(from as int)),
{
    let mut pos: usize = from;
    loop
        invariant
            from <= pos <= input@.len(),
            grammar::skip_lines(input@.skip(pos as int)) == grammar::skip_lines(
                input@.skip(from as int),
            ),
        decreases input@.len() - pos,
    {
        let p: usize = skip_blanks(input, pos);
        let ghost s = input@.skip(pos as int);
        assert(s.skip(grammar::blanks(s) as int) =~= input@.skip(p as int));
        if p < input.len() && input[p] == HASH {
            let q: usize = find_byte(input, p, input.len(), NEWLINE);
            proof {
                let rem = input@.skip(p as int);
                assert(input@.subrange(p as int, input@.len() as int) =~= rem);
                assert(rem.skip(grammar::until(rem, NEWLINE) as int) =~= input@.skip(q as int));
                grammar::lemma_until(rem, NEWLINE);
            }
            pos = q;
        } else {
            return p;
        }
    }
}

/// Reads a header at `pos`.
pub fn header_at(input: &[u8], pos: usize) -> (r: Result<(usize, Span), SpanError>)
    requires
        pos <= input@.len(),
    ensures
        match r {
            Ok((next, title)) => {
                &&& title.within(input@.len())
                &&& title.start == pos + 1
                &&& next == title.end + 1
                &&& next <= input@.len()
                &&& grammar::header(input@.skip(pos as int)) == Ok::<_, SpecError>(
                    (input@.skip(next as int), title.of(input@)),
                )
            },
            Err(e) => {
                &&& e.at <= input@.len()
                &&& grammar::header(input@.skip(pos as int)) == Err::<(Seq<u8>, Seq<u8>), _>(
                    e.of(input@),
                )
            },
        },
{
    let ghost s = input@.skip(pos as int);
    if pos >= input.len() || input[pos] != OPEN {
        return Err(SpanError { at: pos, code: ErrorKind::Tag });
    }
    let start: usize = pos + 1;
    let end: usize = find_byte(input, start, input.len(), CLOSE);
    proof {
        assert(input@.subrange(start as int, input@.len() as int) =~= s.skip(1));
        assert(s.skip(1) =~= input@.skip(start as int));
    }
    if end == start {
        Err(SpanError { at: start, code: ErrorKind::TakeTill1 })
    } else if end == input.len() {
        proof {
            assert(s.skip(1).skip(end - start) =~= input@.skip(end as int));
        }
        Err(SpanError { at: end, code: ErrorKind::Tag })
    } else {
        let title = Span { start, end };
        proof {
            assert(s.skip(1).skip(end - start + 1) =~= input@.skip(end + 1));
            assert(s.skip(1).take(end - start) =~= title.of(input@));
        }
        Ok((end + 1, title))
    }
}

/// Reads the parameter in the name that stands at `name`.
pub fn params_at(input: &[u8], name: Span) -> (r: Result<(usize, ParamSpan), SpanError>)
    requires
        name.within(input@.len()),
    ensures
        match r {
            Ok((next, p)) => {
                &&& p.within(input@.len())
                &&& p.attr_name.start == name.start
                &&& p.param.start == p.attr_name.end + 1
                &&& p.param.end == next
                &&& next <= name.end
                &&& grammar::params(name.of(input@)) == Ok::<_, SpecError>(
                    (name.of(input@).skip(next - name.start), p.of(input@)),
                )
            },
            Err(e) => {
                &&& e.at == name.end
                &&& grammar::params(name.of(input@)) == Err::<(Seq<u8>, SpecParam), _>(
                    SpecError { input: name.of(input@).skip(e.at - name.start), code: e.code },
                )
            },
        },
{
    let ghost s = name.of(input@);
    let open: usize = find_byte(input, name.start, name.end, OPEN);
    if open == name.end {
        return Err(SpanError { at: open, code: ErrorKind::Tag });
    }
    let close: usize = find_byte(input, open + 1, name.end, CLOSE);
    let p = ParamSpan {
        param: Span { start: open + 1, end: close },
        attr_name: Span { start: name.start, end: open },
    };
    proof {
        let n = open - name.start;
        let rem = s.skip(n + 1);
        assert(rem =~= input@.subrange(open + 1, name.end as int));
        assert(rem.take(close - open - 1) =~= p.param.of(input@));
        assert(s.take(n) =~= p.attr_name.of(input@));
        assert(rem.skip(close - open - 1) =~= s.skip(close - name.start));
    }
    Ok((close, p))
}

/// Reads an attribute line at `pos`.
pub fn attr_at(input: &[u8], pos: usize) -> (r: Result<(usize, AttrSpan), SpanError>)
    requires
        pos <= input@.len(),
    ensures
        match r {
            Ok((next, a)) => {
                &&& a.within(input@.len())
                &&& a.begins_at(pos as int)
                &&& pos < next <= input@.len()
                &&& grammar::attr(input@.skip(pos as int)) == Ok::<_, SpecError>(
                    (input@.skip(next as int), a.of(input@)),
                )
            },
            Err(e) => {
                &&& e.at <= input@.len()
                &&& grammar::attr(input@.skip(pos as int)) == Err::<(Seq<u8>, SpecAttr), _>(
                    e.of(input@),
                )
            },
        },
{
    let ghost s = input@.skip(pos as int);
    if pos < input.len() && input[pos] == OPEN {
        return Err(SpanError { at: pos, code: ErrorKind::Complete });
    }
    let eq: usize = find_byte(input, pos, input.len(), EQUALS);
    assert(input@.subrange(pos as int, input@.len() as int) =~= s);
    if eq == input.len() {
        assert(s.skip(eq - pos) =~= input@.skip(eq as int));
        return Err(SpanError { at: eq, code: ErrorKind::Tag });
    }
    let nl: usize = find_byte(input, eq + 1, input.len(), NEWLINE);
    let next: usize = skip_lines(input, nl);
    let name = Span { start: pos, end: eq };
    let value = Span { start: eq + 1, end: nl };
    let param = match params_at(input, name) {
        Ok((_, p)) => Some(p),
        Err(_) => None,
    };
    let a = AttrSpan { name, value, param };
    proof {
        let n = eq - pos;
        let rem = s.skip(n + 1);
        assert(rem =~= input@.subrange(eq + 1, input@.len() as int));
        assert(rem.skip(nl - eq - 1) =~= input@.skip(nl as int));
        assert(rem.take(nl - eq - 1) =~= value.of(input@));
        assert(s.take(n) =~= name.of(input@));
    }
    Ok((next, a))
}

/// Reads a section at `pos`: a header and the attribute lines that follow it.
pub fn section_at(input: &[u8], pos: usize) -> (r: Result<(usize, SectionSpan), SpanError>)
    requires
        pos <= input@.len(),
    ensures
        match r {
            Ok((next, sec)) => {
                &&& sec.within(input@.len())
                &&& sec.title.start == pos + 1
                &&& sec.attrs@.len() > 0
                &&& pos < next <= input@.len()
                &&& grammar::section(input@.skip(pos as int)) == Ok::<_, SpecError>(
                    (input@.skip(next as int), sec.of(input@)),
                )
            },
            Err(e) => {
                &&& e.at <= input@.len()
                &&& grammar::section(input@.skip(pos as int)) == Err::<(Seq<u8>, SpecSection), _>(
                    e.of(input@),
                )
            },
        },
{
    let (after, title) = match header_at(input, pos) {
        Ok(found) => found,
        Err(e) => {
            return Err(e);
        },
    };
    let body: usize = skip_lines(input, after);
    let (first_end, first) = match attr_at(input, body) {
        Ok(found) => found,
        Err(e) => {
            return Err(e);
        },
    };
    let mut attrs: Vec<AttrSpan> = Vec::new();
    attrs.push(first);
    let mut cur: usize = first_end;
    let ghost whole = grammar::attrs(input@.skip(body as int));
    proof {
        assert(seq![first.of(input@)] =~= attrs_of(attrs@, input@));
    }
    loop
        invariant
            body < cur <= input@.len(),
            attrs@.len() > 0,
            forall|i: int| 0 <= i < attrs@.len() ==> (#[trigger] attrs@[i]).within(input@.len()),
            whole.0 == grammar::attrs(input@.skip(cur as int)).0,
            whole.1 == attrs_of(attrs@, input@) + grammar::attrs(input@.skip(cur as int)).1,
        ensures
            grammar::attr(input@.skip(cur as int)) is Err,
        decreases input@.len() - cur,
    {
        match attr_at(input, cur) {
            Ok((next, a)) => {
                proof {
                    let before = attrs_of(attrs@, input@);
                    let more = grammar::attrs(input@.skip(next as int)).1;
                    assert(before + (seq![a.of(input@)] + more) =~= attrs_of(
                        attrs@.push(a),
                        input@,
                    ) + more);
                }
                attrs.push(a);
                cur = next;
            },
            Err(_) => {
                break ;
            },
        }
    }
    let sec = SectionSpan { title, attrs };
    proof {
        assert(whole.1 =~= attrs_of(sec.attrs@, input@));
    }
    Ok((cur, sec))
}

/// Reads all the sections of `input`.
pub fn tokenize(input: &[u8]) -> (r: Result<Vec<SectionSpan>, SpanError>)
    ensures
        match r {
            Ok(list) => {
                &&& forall|i: int| 0 <= i < list@.len() ==> (#[trigger] list@[i]).within(input@.len())
                &&& grammar::sections(input@) == Ok::<_, SpecError>(sections_of(list@, input@))
            },
            Err(e) => {
                &&& e.at <= input@.len()
                &&& grammar::sections(input@) == Err::<Seq<SpecSection>, _>(e.of(input@))
            },
        },
{
    let mut list: Vec<SectionSpan> = Vec::new();
    let mut pos: usize = 0;
    let mut started = false;
    let ghost whole = grammar::sections(input@);
    assert(input@.skip(0) =~= input@);
    loop
        invariant
            pos <= input@.len(),
            forall|i: int| 0 <= i < list@.len() ==> (#[trigger] list@[i]).within(input@.len()),
            whole == grammar::sections(input@),
            match grammar::sections_from(input@.skip(pos as int), started) {
                Ok(more) => whole == Ok::<_, SpecError>(sections_of(list@, input@) + more),
                Err(e) => whole == Err::<Seq<SpecSection>, _>(e),
            },
        decreases input@.len() - pos,
    {
        let ghost s = input@.skip(pos as int);
        if pos == input.len() {
            assert(sections_of(list@, input@) + Seq::<SpecSection>::empty() =~= sections_of(
                list@,
                input@,
            ));
            return Ok(list);
        }
        let start: usize = find_byte(input, pos, input.len(), OPEN);
        proof {
            assert(input@.subrange(pos as int, input@.len() as int) =~= s);
            assert(grammar::find_start(s) =~= input@.skip(start as int));
        }
        if !started && start == input.len() {
            assert(sections_of(list@, input@) + Seq::<SpecSection>::empty() =~= sections_of(
                list@,
                input@,
            ));
            return Ok(list);
        }
        match section_at(input, start) {
            Ok((next, sec)) => {
                proof {
                    let before = sections_of(list@, input@);
                    match grammar::sections_from(input@.skip(next as int), true) {
                        Ok(more) => {
                            assert(before + (seq![sec.of(input@)] + more) =~= sections_of(
                                list@.push(sec),
                                input@,
                            ) + more);
                        },
                        Err(_) => {},
                    }
                }
                list.push(sec);
                pos = next;
                started = true;
            },
            Err(e) => {
                return Err(e);
            },
        }
    }
}

} // verus!
