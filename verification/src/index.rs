//! What the lookup table of an entry holds, as a function of the sections of
//! its file.
//!
//! The index maps a section's title to the attributes of the section, and an
//! attribute's name to its value and to its values under parameters. All of
//! them are text: the bytes of the file, decoded as UTF-8.
use crate::grammar;
use crate::grammar::{SpecAttr, SpecSection};
use crate::text::{decode_utf8, valid_utf8};
use vstd::prelude::*;

verus! {

/// What an entry knows of one attribute.
#[verifier::ext_equal]
pub struct SpecAttrValue {
    /// The value of the attribute without a parameter
    pub value: Option<Seq<char>>,
    /// The values of the attribute under each of its parameters
    pub params: Option<Map<Seq<char>, Seq<char>>>,
}

/// The attributes of a section, by name.
pub type SpecAttrMap = Map<Seq<char>, SpecAttrValue>;

/// The sections of an entry, by title.
pub type SpecIndex = Map<Seq<char>, SpecAttrMap>;

/// The attributes `m` after the line `name=value`.
pub open spec fn set_value(m: SpecAttrMap, name: Seq<char>, value: Seq<char>) -> SpecAttrMap {
    let params = if m.contains_key(name) {
        m[name].params
    } else {
        None
    };
    m.insert(name, SpecAttrValue { value: Some(value), params })
}

/// The attributes `m` after the line `name[key]=value`.
pub open spec fn set_param(
    m: SpecAttrMap,
    name: Seq<char>,
    key: Seq<char>,
    value: Seq<char>,
) -> SpecAttrMap {
    let old = if m.contains_key(name) {
        m[name]
    } else {
        SpecAttrValue { value: None, params: None }
    };
    let params = match old.params {
        Some(pm) => pm,
        None => Map::empty(),
    };
    m.insert(name, SpecAttrValue { value: old.value, params: Some(params.insert(key, value)) })
}

/// The attributes `m` after the attribute line `a`. A line without a parameter
/// sets the value of the attribute it names; a line with a parameter sets the
/// value under that parameter, of the attribute named before the `[`.
pub open spec fn declare(m: SpecAttrMap, a: SpecAttr) -> SpecAttrMap {
    match a.param {
        Some(p) => set_param(
            m,
            decode_utf8(p.attr_name),
            decode_utf8(p.param),
            decode_utf8(a.value),
        ),
        None => set_value(m, decode_utf8(a.name), decode_utf8(a.value)),
    }
}

/// The attributes that the lines `attrs` declare, in their order.
pub open spec fn attr_map(attrs: Seq<SpecAttr>) -> SpecAttrMap
    decreases attrs.len(),
{
    if attrs.len() == 0 {
        Map::empty()
    } else {
        declare(attr_map(attrs.drop_last()), attrs.last())
    }
}

/// The index of the sections `list`. Of two sections with one title the later
/// one counts.
pub open spec fn index(list: Seq<SpecSection>) -> SpecIndex
    decreases list.len(),
{
    if list.len() == 0 {
        Map::empty()
    } else {
        index(list.drop_last()).insert(
            decode_utf8(list.last().title),
            attr_map(list.last().attrs),
        )
    }
}

/// The first of the byte strings of the line `a` that is not UTF-8, in the
/// order in which an entry decodes them: the value, and either the name, or the
/// name before the `[` and the parameter.
pub open spec fn bad_attr(a: SpecAttr) -> Option<Seq<u8>> {
    if !valid_utf8(a.value) {
        Some(a.value)
    } else {
        match a.param {
            Some(p) => if !valid_utf8(p.attr_name) {
                Some(p.attr_name)
            } else if !valid_utf8(p.param) {
                Some(p.param)
            } else {
                None
            },
            None => if !valid_utf8(a.name) {
                Some(a.name)
            } else {
                None
            },
        }
    }
}

/// The first byte string of the lines `attrs` that is not UTF-8.
pub open spec fn bad_attrs(attrs: Seq<SpecAttr>) -> Option<Seq<u8>>
    decreases attrs.len(),
{
    if attrs.len() == 0 {
        None
    } else {
        match bad_attrs(attrs.drop_last()) {
            Some(b) => Some(b),
            None => bad_attr(attrs.last()),
        }
    }
}

/// The first byte string of the section `s` that is not UTF-8: its title, or
/// one in its lines.
pub open spec fn bad_section(s: SpecSection) -> Option<Seq<u8>> {
    if !valid_utf8(s.title) {
        Some(s.title)
    } else {
        bad_attrs(s.attrs)
    }
}

/// The first byte string of the sections `list` that is not UTF-8.
pub open spec fn bad_text(list: Seq<SpecSection>) -> Option<Seq<u8>>
    decreases list.len(),
{
    if list.len() == 0 {
        None
    } else {
        match bad_text(list.drop_last()) {
            Some(b) => Some(b),
            None => bad_section(list.last()),
        }
    }
}

/// The value of the attribute `attr` of the section `section`: without a
/// parameter, or under the parameter `param`.
pub open spec fn lookup(
    idx: SpecIndex,
    section: Seq<char>,
    attr: Seq<char>,
    param: Option<Seq<char>>,
) -> Option<Seq<char>> {
    if idx.contains_key(section) && idx[section].contains_key(attr) {
        let v = idx[section][attr];
        match param {
            None => v.value,
            Some(key) => match v.params {
                Some(pm) => if pm.contains_key(key) {
                    Some(pm[key])
                } else {
                    None
                },
                None => None,
            },
        }
    } else {
        None
    }
}

/// The values under parameters of the attribute `attr` of the section
/// `section`; none where the index holds no such attribute.
pub open spec fn params_of(idx: SpecIndex, section: Seq<char>, attr: Seq<char>) -> Map<
    Seq<char>,
    Seq<char>,
> {
    if idx.contains_key(section) && idx[section].contains_key(attr) {
        match idx[section][attr].params {
            Some(pm) => pm,
            None => Map::empty(),
        }
    } else {
        Map::empty()
    }
}

/// A byte string that is not UTF-8 among the first lines stays the first one
/// when lines follow.
pub proof fn lemma_bad_attrs_prefix(attrs: Seq<SpecAttr>, n: int)
    requires
        0 <= n <= attrs.len(),
        bad_attrs(attrs.take(n)) is Some,
    ensures
        bad_attrs(attrs) == bad_attrs(attrs.take(n)),
    decreases attrs.len() - n,
{
    if n < attrs.len() {
        assert(attrs.take(n + 1).drop_last() =~= attrs.take(n));
        lemma_bad_attrs_prefix(attrs, n + 1);
    } else {
        assert(attrs.take(n) =~= attrs);
    }
}

/// A byte string that is not UTF-8 among the first sections stays the first
/// one when sections follow.
pub proof fn lemma_bad_text_prefix(list: Seq<SpecSection>, n: int)
    requires
        0 <= n <= list.len(),
        bad_text(list.take(n)) is Some,
    ensures
        bad_text(list) == bad_text(list.take(n)),
    decreases list.len() - n,
{
    if n < list.len() {
        assert(list.take(n + 1).drop_last() =~= list.take(n));
        lemma_bad_text_prefix(list, n + 1);
    } else {
        assert(list.take(n) =~= list);
    }
}

/// The name under which the line `a` declares: its name, or the part of its
/// name before the `[`.
pub open spec fn declared_name(a: SpecAttr) -> Seq<char> {
    match a.param {
        Some(p) => decode_utf8(p.attr_name),
        None => decode_utf8(a.name),
    }
}

/// A line changes nothing under another name.
pub proof fn lemma_declare_other(m: SpecAttrMap, a: SpecAttr, name: Seq<char>)
    requires
        declared_name(a) != name,
    ensures
        declare(m, a).contains_key(name) == m.contains_key(name),
        m.contains_key(name) ==> declare(m, a)[name] == m[name],
{
}

/// A line with a parameter leaves the value without a parameter as it is.
pub proof fn lemma_declare_param_keeps_value(m: SpecAttrMap, a: SpecAttr, name: Seq<char>)
    requires
        a.param is Some,
        m.contains_key(name),
    ensures
        declare(m, a).contains_key(name),
        declare(m, a)[name].value == m[name].value,
{
}

/// A lookup without a parameter returns the value of the last line without a
/// parameter that names the attribute.
pub proof fn lemma_attr_map_value(attrs: Seq<SpecAttr>, j: int)
    requires
        0 <= j < attrs.len(),
        attrs[j].param is None,
        forall|k: int|
            j < k < attrs.len() && attrs[k].param is None ==> decode_utf8(
                (#[trigger] attrs[k]).name,
            ) != decode_utf8(attrs[j].name),
    ensures
        attr_map(attrs).contains_key(decode_utf8(attrs[j].name)),
        attr_map(attrs)[decode_utf8(attrs[j].name)].value == Some(decode_utf8(attrs[j].value)),
    decreases attrs.len(),
{
    if j < attrs.len() - 1 {
        let front = attrs.drop_last();
        let last = attrs.last();
        assert(front[j] == attrs[j]);
        assert forall|k: int| j < k < front.len() && front[k].param is None implies decode_utf8(
            (#[trigger] front[k]).name,
        ) != decode_utf8(front[j].name) by {
            assert(front[k] == attrs[k]);
        }
        lemma_attr_map_value(front, j);
        let name = decode_utf8(attrs[j].name);
        if last.param is Some {
            lemma_declare_param_keeps_value(attr_map(front), last, name);
            if declared_name(last) != name {
                lemma_declare_other(attr_map(front), last, name);
            }
        } else {
            assert(attrs[attrs.len() - 1] == last);
            lemma_declare_other(attr_map(front), last, name);
        }
    }
}

/// A lookup in a section finds the attributes of the last section of that
/// title.
pub proof fn lemma_index_section(list: Seq<SpecSection>, i: int)
    requires
        0 <= i < list.len(),
        forall|k: int|
            i < k < list.len() ==> decode_utf8((#[trigger] list[k]).title) != decode_utf8(
                list[i].title,
            ),
    ensures
        index(list).contains_key(decode_utf8(list[i].title)),
        index(list)[decode_utf8(list[i].title)] == attr_map(list[i].attrs),
    decreases list.len(),
{
    if i < list.len() - 1 {
        let front = list.drop_last();
        assert(front[i] == list[i]);
        assert forall|k: int| i < k < front.len() implies decode_utf8(
            (#[trigger] front[k]).title,
        ) != decode_utf8(front[i].title) by {
            assert(front[k] == list[k]);
        }
        lemma_index_section(front, i);
        assert(list[list.len() - 1] == list.last());
    }
}

/// Round trip. Let a file hold the section `S` and in it the line `A=V`, `A`
/// without a parameter. A lookup of `A` in `S` returns `V`, if `S` is the last
/// section of its title and the line is the last one in `S` that sets `A`: a
/// later section of that title takes the place of `S`, and a later line `A=W`
/// overwrites `V`.
pub proof fn law_round_trip(file: Seq<u8>, i: int, j: int)
    requires
        grammar::sections(file) is Ok,
        0 <= i < grammar::sections(file)->Ok_0.len(),
        0 <= j < grammar::sections(file)->Ok_0[i].attrs.len(),
        grammar::sections(file)->Ok_0[i].attrs[j].param is None,
        forall|k: int|
            i < k < grammar::sections(file)->Ok_0.len() ==> decode_utf8(
                (#[trigger] grammar::sections(file)->Ok_0[k]).title,
            ) != decode_utf8(grammar::sections(file)->Ok_0[i].title),
        forall|k: int|
            j < k < grammar::sections(file)->Ok_0[i].attrs.len() && grammar::sections(
                file,
            )->Ok_0[i].attrs[k].param is None ==> decode_utf8(
                (#[trigger] grammar::sections(file)->Ok_0[i].attrs[k]).name,
            ) != decode_utf8(grammar::sections(file)->Ok_0[i].attrs[j].name),
    ensures
        ({
            let list = grammar::sections(file)->Ok_0;
            let line = list[i].attrs[j];
            lookup(index(list), decode_utf8(list[i].title), decode_utf8(line.name), None) == Some(
                decode_utf8(line.value),
            )
        }),
{
    let list = grammar::sections(file)->Ok_0;
    lemma_index_section(list, i);
    lemma_attr_map_value(list[i].attrs, j);
}

/// Merge, in either order. The lines `A=X` and `A[p]=Y` give the same
/// attributes whichever comes first, after any lines `before`: `A` has the
/// value `X`, and `Y` under `p`. This holds of any line without a parameter
/// and any line with one, whatever they name.
pub proof fn law_merge_commutes(before: Seq<SpecAttr>, plain: SpecAttr, with_param: SpecAttr)
    requires
        plain.param is None,
        with_param.param is Some,
    ensures
        attr_map(before.push(plain).push(with_param)) == attr_map(
            before.push(with_param).push(plain),
        ),
        declared_name(plain) == declared_name(with_param) ==> {
            let v = attr_map(before.push(plain).push(with_param))[declared_name(plain)];
            &&& attr_map(before.push(plain).push(with_param)).contains_key(declared_name(plain))
            &&& v.value == Some(decode_utf8(plain.value))
            &&& v.params matches Some(pm)
            &&& pm.contains_key(decode_utf8(with_param.param->0.param))
            &&& pm[decode_utf8(with_param.param->0.param)] == decode_utf8(with_param.value)
        },
{
    let m = attr_map(before);
    lemma_attr_map_push(before, plain);
    lemma_attr_map_push(before, with_param);
    lemma_attr_map_push(before.push(plain), with_param);
    lemma_attr_map_push(before.push(with_param), plain);
    let one = declare(declare(m, plain), with_param);
    let other = declare(declare(m, with_param), plain);
    assert(one =~~= other);
}

/// Merge under two parameters. Two lines with a parameter give the same
/// attributes whichever comes first, unless they set the same parameter of the
/// same attribute.
pub proof fn law_params_commute(before: Seq<SpecAttr>, a: SpecAttr, b: SpecAttr)
    requires
        a.param is Some,
        b.param is Some,
        declared_name(a) != declared_name(b) || decode_utf8(a.param->0.param) != decode_utf8(
            b.param->0.param,
        ),
    ensures
        attr_map(before.push(a).push(b)) == attr_map(before.push(b).push(a)),
{
    let m = attr_map(before);
    lemma_attr_map_push(before, a);
    lemma_attr_map_push(before, b);
    lemma_attr_map_push(before.push(a), b);
    lemma_attr_map_push(before.push(b), a);
    let one = declare(declare(m, a), b);
    let other = declare(declare(m, b), a);
    assert(one =~~= other);
}

/// The last line wins. Of two lines that set the same thing, the value of an
/// attribute or its value under one parameter, the second one counts: the
/// attributes are those that the second line alone gives.
pub proof fn law_last_wins(before: Seq<SpecAttr>, first: SpecAttr, second: SpecAttr)
    requires
        declared_name(first) == declared_name(second),
        match (first.param, second.param) {
            (None, None) => true,
            (Some(p), Some(q)) => decode_utf8(p.param) == decode_utf8(q.param),
            _ => false,
        },
    ensures
        attr_map(before.push(first).push(second)) == attr_map(before.push(second)),
        second.param is None ==> attr_map(before.push(first).push(second))[declared_name(
            second,
        )].value == Some(decode_utf8(second.value)),
{
    let m = attr_map(before);
    lemma_attr_map_push(before, first);
    lemma_attr_map_push(before, second);
    lemma_attr_map_push(before.push(first), second);
    let one = declare(declare(m, first), second);
    let other = declare(m, second);
    assert(one =~~= other);
}

/// The attributes after one more line.
pub proof fn lemma_attr_map_push(attrs: Seq<SpecAttr>, a: SpecAttr)
    ensures
        attr_map(attrs.push(a)) == declare(attr_map(attrs), a),
{
    assert(attrs.push(a).drop_last() =~= attrs);
}

/// Absence is no failure. A lookup of a section, an attribute or a parameter
/// that the index does not hold returns `None`.
pub proof fn law_absent_is_none(
    idx: SpecIndex,
    section: Seq<char>,
    attr: Seq<char>,
    param: Option<Seq<char>>,
)
    ensures
        !idx.contains_key(section) ==> lookup(idx, section, attr, param) is None,
        idx.contains_key(section) && !idx[section].contains_key(attr) ==> lookup(
            idx,
            section,
            attr,
            param,
        ) is None,
        lookup(idx, section, attr, param) is Some ==> {
            &&& idx.contains_key(section)
            &&& idx[section].contains_key(attr)
            &&& param matches Some(key) ==> idx[section][attr].params matches Some(pm)
                && pm.contains_key(key)
        },
{
}

} // verus!
