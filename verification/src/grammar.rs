//! The grammar of entry files, as functions on byte sequences.
//!
//! Each function takes the input that is left and returns what the tokenizer
//! recognizes at its start: on success the input that follows and the token,
//! on failure the input at the point of failure and the stage that failed.
//! The executable tokenizer is specified by these functions.
use crate::errors::{ErrorKind, SpecError};
use vstd::prelude::*;

verus! {

/// A parameter of an attribute: the `es` of `GenericName[es]`.
pub struct SpecParam {
    /// The bytes between the first `[` of the name and the `]` that follows
    pub param: Seq<u8>,
    /// The bytes of the name before its first `[`
    pub attr_name: Seq<u8>,
}

/// One attribute line.
pub struct SpecAttr {
    /// The bytes before the first `=`
    pub name: Seq<u8>,
    /// The bytes between that `=` and the end of the line
    pub value: Seq<u8>,
    /// The parameter, where `name` holds a `[`
    pub param: Option<SpecParam>,
}

/// One section: its title and its attributes in the order of the file.
pub struct SpecSection {
    /// The bytes between `[` and `]`
    pub title: Seq<u8>,
    /// The attribute lines of the section
    pub attrs: Seq<SpecAttr>,
}

/// What a step of the tokenizer returns: the input that is left and the token,
/// or the failure.
pub type Parsed<T> = Result<(Seq<u8>, T), SpecError>;

pub const NEWLINE: u8 = 0x0a;

pub const HASH: u8 = 0x23;

pub const EQUALS: u8 = 0x3d;

pub const OPEN: u8 = 0x5b;

pub const CLOSE: u8 = 0x5d;

/// Newline, tab, carriage return and space.
pub open spec fn is_whitespace(c: u8) -> bool {
    c == 0x0a || c == 0x09 || c == 0x0d || c == 0x20
}

/// The number of bytes of `s` before the first `b`; the length of `s` where
/// it holds no `b`.
pub open spec fn until(s: Seq<u8>, b: u8) -> nat
    decreases s.len(),
{
    if s.len() == 0 || s[0] == b {
        0
    } else {
        1 + until(s.drop_first(), b)
    }
}

/// The number of whitespace bytes that `s` begins with.
pub open spec fn blanks(s: Seq<u8>) -> nat
    decreases s.len(),
{
    if s.len() == 0 || !is_whitespace(s[0]) {
        0
    } else {
        1 + blanks(s.drop_first())
    }
}

/// What is left of `s` after the whitespace and the comments it begins with.
/// A comment runs from a `#` to the end of its line.
pub open spec fn skip_lines(s: Seq<u8>) -> Seq<u8>
    decreases s.len(),
    via skip_lines_decreases
{
    let rem = s.skip(blanks(s) as int);
    if rem.len() > 0 && rem[0] == HASH {
        skip_lines(rem.skip(until(rem, NEWLINE) as int))
    } else {
        rem
    }
}

#[via_fn]
proof fn skip_lines_decreases(s: Seq<u8>) {
    let rem = s.skip(blanks(s) as int);
    lemma_blanks(s);
    if rem.len() > 0 && rem[0] == HASH {
        lemma_until(rem, NEWLINE);
        assert(until(rem, NEWLINE) >= 1);
    }
}

/// What is left of `s` from its first `[` on.
pub open spec fn find_start(s: Seq<u8>) -> Seq<u8> {
    s.skip(until(s, OPEN) as int)
}

/// A header: `[`, a title of at least one byte, `]`.
pub open spec fn header(s: Seq<u8>) -> Parsed<Seq<u8>> {
    if s.len() == 0 || s[0] != OPEN {
        Err(SpecError { input: s, code: ErrorKind::Tag })
    } else {
        let rem = s.skip(1);
        let n = until(rem, CLOSE) as int;
        if n == 0 {
            Err(SpecError { input: rem, code: ErrorKind::TakeTill1 })
        } else if n == rem.len() {
            Err(SpecError { input: rem.skip(n), code: ErrorKind::Tag })
        } else {
            Ok((rem.skip(n + 1), rem.take(n)))
        }
    }
}

/// The parameter in an attribute's name. The name has one if it holds a `[`;
/// the parameter ends at the next `]`, or with the name.
pub open spec fn params(s: Seq<u8>) -> Parsed<SpecParam> {
    let n = until(s, OPEN) as int;
    if n == s.len() {
        Err(SpecError { input: s.skip(n), code: ErrorKind::Tag })
    } else {
        let rem = s.skip(n + 1);
        let m = until(rem, CLOSE) as int;
        Ok((rem.skip(m), SpecParam { param: rem.take(m), attr_name: s.take(n) }))
    }
}

/// The parameter of an attribute named `name`, if it has one.
pub open spec fn param_of(name: Seq<u8>) -> Option<SpecParam> {
    match params(name) {
        Ok((_, p)) => Some(p),
        Err(_) => None,
    }
}

/// An attribute line: a name up to the first `=`, a value up to the end of the
/// line, and the whitespace and comments that follow. It does not begin with
/// `[`.
pub open spec fn attr(s: Seq<u8>) -> Parsed<SpecAttr> {
    if s.len() > 0 && s[0] == OPEN {
        Err(SpecError { input: s, code: ErrorKind::Complete })
    } else {
        let n = until(s, EQUALS) as int;
        if n == s.len() {
            Err(SpecError { input: s.skip(n), code: ErrorKind::Tag })
        } else {
            let rem = s.skip(n + 1);
            let m = until(rem, NEWLINE) as int;
            let name = s.take(n);
            Ok(
                (
                    skip_lines(rem.skip(m)),
                    SpecAttr { name, value: rem.take(m), param: param_of(name) },
                ),
            )
        }
    }
}

/// The attribute lines that `s` begins with, and what is left after them.
pub open spec fn attrs(s: Seq<u8>) -> (Seq<u8>, Seq<SpecAttr>)
    decreases s.len(),
    via attrs_decreases
{
    match attr(s) {
        Ok((rem, a)) => {
            let (rest, more) = attrs(rem);
            (rest, seq![a] + more)
        },
        Err(_) => (s, Seq::empty()),
    }
}

#[via_fn]
proof fn attrs_decreases(s: Seq<u8>) {
    lemma_attr_shrinks(s);
}

/// A section: a header, whitespace and comments, and at least one attribute
/// line.
pub open spec fn section(s: Seq<u8>) -> Parsed<SpecSection> {
    match header(s) {
        Err(e) => Err(e),
        Ok((rem, title)) => {
            let body = skip_lines(rem);
            match attr(body) {
                Err(e) => Err(e),
                Ok(_) => {
                    let (rest, list) = attrs(body);
                    Ok((rest, SpecSection { title, attrs: list }))
                },
            }
        },
    }
}

/// One step of the iteration over the sections of a file.
pub enum Step {
    /// There is no further section.
    Done,
    /// The next section, and the input that follows it.
    Section(SpecSection, Seq<u8>),
    /// The input is malformed; the iteration ends.
    Failed(SpecError),
}

/// The step that the iteration takes on the input `s`. `started` says that a
/// section has been looked for before: what precedes the first header of a file
/// is passed over, and a file without a header has no section, while input
/// left after a section has to hold another one.
pub open spec fn step(s: Seq<u8>, started: bool) -> Step {
    if s.len() == 0 {
        Step::Done
    } else {
        let start = find_start(s);
        if !started && start.len() == 0 {
            Step::Done
        } else {
            match section(start) {
                Ok((rest, sec)) => Step::Section(sec, rest),
                Err(e) => Step::Failed(e),
            }
        }
    }
}

/// The sections of the input `s`, or the first failure.
pub open spec fn sections_from(s: Seq<u8>, started: bool) -> Result<Seq<SpecSection>, SpecError>
    decreases s.len(),
    via sections_from_decreases
{
    match step(s, started) {
        Step::Done => Ok(Seq::empty()),
        Step::Failed(e) => Err(e),
        Step::Section(sec, rest) => match sections_from(rest, true) {
            Ok(more) => Ok(seq![sec] + more),
            Err(e) => Err(e),
        },
    }
}

#[via_fn]
proof fn sections_from_decreases(s: Seq<u8>, started: bool) {
    lemma_step_shrinks(s, started);
}

/// The sections of a whole file, or the first failure.
pub open spec fn sections(file: Seq<u8>) -> Result<Seq<SpecSection>, SpecError> {
    sections_from(file, false)
}

/// `until` stops at the first `b`, or at the end.
pub proof fn lemma_until(s: Seq<u8>, b: u8)
    ensures
        until(s, b) <= s.len(),
        forall|i: int| 0 <= i < until(s, b) ==> s[i] != b,
        until(s, b) < s.len() ==> s[until(s, b) as int] == b,
    decreases s.len(),
{
    if s.len() != 0 && s[0] != b {
        let t = s.drop_first();
        lemma_until(t, b);
        assert forall|i: int| 0 <= i < until(s, b) implies s[i] != b by {
            if i > 0 {
                assert(s[i] == t[i - 1]);
            }
        }
    }
}

/// The one position that `until` can return.
pub proof fn lemma_until_is(s: Seq<u8>, b: u8, n: int)
    requires
        0 <= n <= s.len(),
        forall|i: int| 0 <= i < n ==> s[i] != b,
        n < s.len() ==> s[n] == b,
    ensures
        until(s, b) == n,
    decreases s.len(),
{
    if n > 0 {
        let t = s.drop_first();
        assert forall|i: int| 0 <= i < n - 1 implies t[i] != b by {
            assert(t[i] == s[i + 1]);
        }
        lemma_until_is(t, b, n - 1);
    }
}

/// `blanks` stops at the first byte that is no whitespace, or at the end.
pub proof fn lemma_blanks(s: Seq<u8>)
    ensures
        blanks(s) <= s.len(),
        forall|i: int| 0 <= i < blanks(s) ==> is_whitespace(s[i]),
        blanks(s) < s.len() ==> !is_whitespace(s[blanks(s) as int]),
    decreases s.len(),
{
    if s.len() != 0 && is_whitespace(s[0]) {
        let t = s.drop_first();
        lemma_blanks(t);
        assert forall|i: int| 0 <= i < blanks(s) implies is_whitespace(s[i]) by {
            if i > 0 {
                assert(s[i] == t[i - 1]);
            }
        }
    }
}

/// The one length that `blanks` can return.
pub proof fn lemma_blanks_is(s: Seq<u8>, n: int)
    requires
        0 <= n <= s.len(),
        forall|i: int| 0 <= i < n ==> is_whitespace(s[i]),
        n < s.len() ==> !is_whitespace(s[n]),
    ensures
        blanks(s) == n,
    decreases s.len(),
{
    if n > 0 {
        let t = s.drop_first();
        assert forall|i: int| 0 <= i < n - 1 implies is_whitespace(t[i]) by {
            assert(t[i] == s[i + 1]);
        }
        lemma_blanks_is(t, n - 1);
    }
}

/// `skip_lines` returns a suffix of its argument.
pub proof fn lemma_skip_lines_suffix(s: Seq<u8>)
    ensures
        skip_lines(s).len() <= s.len(),
        skip_lines(s) == s.skip(s.len() - skip_lines(s).len()),
    decreases s.len(),
{
    lemma_blanks(s);
    let rem = s.skip(blanks(s) as int);
    if rem.len() > 0 && rem[0] == HASH {
        lemma_until(rem, NEWLINE);
        let tail = rem.skip(until(rem, NEWLINE) as int);
        lemma_skip_lines_suffix(tail);
        let k = tail.len() - skip_lines(tail).len();
        assert(tail.skip(k) =~= s.skip(s.len() - skip_lines(tail).len()));
    } else {
        assert(rem =~= s.skip(s.len() - rem.len()));
    }
}

/// An attribute line takes at least one byte, and what it leaves is a suffix of
/// the input.
pub proof fn lemma_attr_shrinks(s: Seq<u8>)
    ensures
        attr(s) matches Ok((rem, _)) ==> rem.len() < s.len() && rem == s.skip(s.len() - rem.len()),
{
    if let Ok((rem, _)) = attr(s) {
        lemma_until(s, EQUALS);
        let n = until(s, EQUALS) as int;
        let after = s.skip(n + 1);
        lemma_until(after, NEWLINE);
        let tail = after.skip(until(after, NEWLINE) as int);
        lemma_skip_lines_suffix(tail);
        let k = tail.len() - rem.len();
        assert(tail.skip(k) =~= s.skip(s.len() - rem.len()));
    }
}

/// What `attrs` leaves is a suffix of the input.
pub proof fn lemma_attrs_suffix(s: Seq<u8>)
    ensures
        attrs(s).0.len() <= s.len(),
        attrs(s).0 == s.skip(s.len() - attrs(s).0.len()),
        attr(s) is Ok ==> attrs(s).0.len() < s.len() && attrs(s).1.len() > 0,
    decreases s.len(),
{
    match attr(s) {
        Ok((rem, a)) => {
            lemma_attr_shrinks(s);
            lemma_attrs_suffix(rem);
            let rest = attrs(rem).0;
            assert(rem.skip(rem.len() - rest.len()) =~= s.skip(s.len() - rest.len()));
        },
        Err(_) => {
            assert(s =~= s.skip(0));
        },
    }
}

/// A section takes at least one byte, and what it leaves is a suffix of the
/// input.
pub proof fn lemma_section_shrinks(s: Seq<u8>)
    ensures
        section(s) matches Ok((rest, sec)) ==> rest.len() < s.len() && rest == s.skip(
            s.len() - rest.len(),
        ) && sec.attrs.len() > 0,
{
    if let Ok((rest, _)) = section(s) {
        let rem = header(s)->Ok_0.0;
        lemma_until(s.skip(1), CLOSE);
        let body = skip_lines(rem);
        lemma_skip_lines_suffix(rem);
        lemma_attrs_suffix(body);
        assert(body.skip(body.len() - rest.len()) =~= s.skip(s.len() - rest.len()));
    }
}

/// A step that finds a section leaves less input than it was given.
pub proof fn lemma_step_shrinks(s: Seq<u8>, started: bool)
    ensures
        step(s, started) matches Step::Section(_, rest) ==> rest.len() < s.len() && rest == s.skip(
            s.len() - rest.len(),
        ),
{
    if let Step::Section(_, rest) = step(s, started) {
        lemma_until(s, OPEN);
        let start = find_start(s);
        lemma_section_shrinks(start);
        assert(start.skip(start.len() - rest.len()) =~= s.skip(s.len() - rest.len()));
    }
}

/// Looking for the first `[` a second time changes nothing.
pub proof fn lemma_find_start_again(s: Seq<u8>)
    ensures
        find_start(find_start(s)) == find_start(s),
{
    lemma_until(s, OPEN);
    let t = find_start(s);
    assert(t.skip(0) =~= t);
}

/// What follows the first `b` does not matter to `until`.
pub proof fn lemma_until_append(s: Seq<u8>, t: Seq<u8>, b: u8)
    ensures
        until(s, b) < s.len() ==> until(s + t, b) == until(s, b),
        until(s, b) == s.len() ==> until(s + t, b) == s.len() + until(t, b),
    decreases s.len(),
{
    if s.len() == 0 {
        assert(s + t =~= t);
    } else {
        assert((s + t).drop_first() =~= s.drop_first() + t);
        lemma_until_append(s.drop_first(), t, b);
    }
}

/// Whitespace before whitespace adds up.
pub proof fn lemma_blanks_append(s: Seq<u8>, t: Seq<u8>)
    requires
        forall|i: int| 0 <= i < s.len() ==> is_whitespace(s[i]),
    ensures
        blanks(s + t) == s.len() + blanks(t),
    decreases s.len(),
{
    if s.len() == 0 {
        assert(s + t =~= t);
    } else {
        let rest = s.drop_first();
        assert((s + t).drop_first() =~= rest + t);
        assert forall|i: int| 0 <= i < rest.len() implies is_whitespace(rest[i]) by {
            assert(rest[i] == s[i + 1]);
        }
        lemma_blanks_append(rest, t);
    }
}

/// Blank lines are transparent: whitespace before the input changes nothing
/// in what is left after the whitespace and comments.
pub proof fn law_blank_transparent(blank: Seq<u8>, s: Seq<u8>)
    requires
        forall|i: int| 0 <= i < blank.len() ==> is_whitespace(blank[i]),
    ensures
        skip_lines(blank + s) == skip_lines(s),
{
    lemma_blanks_append(blank, s);
    lemma_blanks(s);
    let n = blanks(s) as int;
    assert((blank + s).skip(blank.len() + n) =~= s.skip(n));
}

/// Comments are transparent: a comment line before the input changes nothing
/// in what is left after the whitespace and comments.
pub proof fn law_comment_transparent(comment: Seq<u8>, s: Seq<u8>)
    requires
        comment.len() > 0,
        comment[0] == HASH,
        forall|i: int| 0 <= i < comment.len() ==> comment[i] != NEWLINE,
    ensures
        skip_lines(comment + seq![NEWLINE] + s) == skip_lines(s),
{
    let line = comment + seq![NEWLINE];
    let all = line + s;
    assert(all[0] == HASH);
    assert(all.skip(0) =~= all);
    lemma_until_is(line, NEWLINE, comment.len() as int);
    lemma_until_append(line, s, NEWLINE);
    assert(all.skip(comment.len() as int) =~= seq![NEWLINE] + s);
    assert forall|i: int| 0 <= i < seq![NEWLINE].len() implies is_whitespace(
        seq![NEWLINE][i],
    ) by {}
    law_blank_transparent(seq![NEWLINE], s);
}

/// What stands between a header and the first attribute line matters only
/// through what `skip_lines` leaves of it: two inputs that begin with the same
/// header, and go on alike after whitespace and comments, hold the same
/// section.
pub proof fn law_section_filler(head: Seq<u8>, a: Seq<u8>, b: Seq<u8>)
    requires
        header(head) matches Ok((rest, _)) && rest.len() == 0,
        skip_lines(a) == skip_lines(b),
    ensures
        section(head + a) == section(head + b),
{
    lemma_header_append(head, a);
    lemma_header_append(head, b);
}

/// A header is read alike whatever follows it.
pub proof fn lemma_header_append(head: Seq<u8>, t: Seq<u8>)
    requires
        header(head) matches Ok((rest, _)) && rest.len() == 0,
    ensures
        header(head + t) == Ok::<_, SpecError>((t, header(head)->Ok_0.1)),
{
    let rem = head.skip(1);
    lemma_until(rem, CLOSE);
    let n = until(rem, CLOSE) as int;
    assert((head + t).skip(1) =~= rem + t);
    lemma_until_append(rem, t, CLOSE);
    assert((rem + t).skip(n + 1) =~= t);
    assert((rem + t).take(n) =~= rem.take(n));
}

/// A name has a parameter whenever it holds a `[`, and only then. The name
/// before the parameter holds no `[`, the parameter no `]`, and the parameter
/// ends at the first `]` or with the name.
pub proof fn law_param_present(name: Seq<u8>)
    ensures
        param_of(name) is Some <==> name.contains(OPEN),
        param_of(name) matches Some(p) ==> {
            let n = p.attr_name.len() as int;
            let m = p.param.len() as int;
            &&& !p.attr_name.contains(OPEN)
            &&& !p.param.contains(CLOSE)
            &&& name.len() >= n + 1 + m
            &&& name.subrange(0, n) == p.attr_name
            &&& name[n] == OPEN
            &&& name.subrange(n + 1, n + 1 + m) == p.param
            &&& name.len() > n + 1 + m ==> name[n + 1 + m] == CLOSE
        },
{
    lemma_until(name, OPEN);
    let n = until(name, OPEN) as int;
    if n < name.len() {
        assert(name.contains(OPEN));
        let rem = name.skip(n + 1);
        lemma_until(rem, CLOSE);
        let m = until(rem, CLOSE) as int;
        let p = param_of(name)->0;
        assert(p.attr_name =~= name.subrange(0, n));
        assert(p.param =~= name.subrange(n + 1, n + 1 + m));
        if p.attr_name.contains(OPEN) {
            let i = choose|i: int| 0 <= i < p.attr_name.len() && p.attr_name[i] == OPEN;
            assert(name[i] == OPEN);
        }
        if p.param.contains(CLOSE) {
            let i = choose|i: int| 0 <= i < p.param.len() && p.param[i] == CLOSE;
            assert(rem[i] == CLOSE);
        }
        if name.len() > n + 1 + m {
            assert(rem[m] == name[n + 1 + m]);
        }
    } else {
        if name.contains(OPEN) {
            let i = choose|i: int| 0 <= i < name.len() && name[i] == OPEN;
            assert(false);
        }
    }
}

/// The name of an attribute line holds no `=`, and its value no newline. A
/// section has a title of at least one byte without `]`, and at least one
/// attribute line.
pub proof fn law_token_shapes(s: Seq<u8>)
    ensures
        attr(s) matches Ok((_, a)) ==> !a.name.contains(EQUALS) && !a.value.contains(NEWLINE)
            && a.param == param_of(a.name),
        section(s) matches Ok((_, sec)) ==> sec.title.len() > 0 && !sec.title.contains(CLOSE)
            && sec.attrs.len() > 0,
{
    if let Ok((_, a)) = attr(s) {
        lemma_until(s, EQUALS);
        let n = until(s, EQUALS) as int;
        let rem = s.skip(n + 1);
        lemma_until(rem, NEWLINE);
        if a.name.contains(EQUALS) {
            let i = choose|i: int| 0 <= i < a.name.len() && a.name[i] == EQUALS;
            assert(s[i] == EQUALS);
        }
        if a.value.contains(NEWLINE) {
            let i = choose|i: int| 0 <= i < a.value.len() && a.value[i] == NEWLINE;
            assert(rem[i] == NEWLINE);
        }
    }
    if let Ok((_, sec)) = section(s) {
        lemma_section_shrinks(s);
        let rem = s.skip(1);
        lemma_until(rem, CLOSE);
        if sec.title.contains(CLOSE) {
            let i = choose|i: int| 0 <= i < sec.title.len() && sec.title[i] == CLOSE;
            assert(rem[i] == CLOSE);
        }
    }
}

} // verus!
