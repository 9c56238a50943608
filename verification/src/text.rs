//! Byte ranges of a buffer, and their reading as text.
use vstd::prelude::*;
use vstd::slice::slice_subrange;
use vstd::string::StringSliceAdditionalSpecFns;

verus! {

/// A range of bytes of a buffer: those from `start` up to, not including,
/// `end`.
#[derive(Clone, Copy, Debug, PartialEq, Eq)]
pub struct Span {
    pub start: usize,
    pub end: usize,
}

impl Span {
    /// The range lies in a buffer of `len` bytes.
    pub open spec fn within(self, len: nat) -> bool {
        self.start <= self.end <= len
    }

    /// The bytes of the range in the buffer `s`.
    pub open spec fn of(self, s: Seq<u8>) -> Seq<u8> {
        s.subrange(self.start as int, self.end as int)
    }

    /// The bytes of the range in `data`.
    pub fn slice<'a>(self, data: &'a [u8]) -> (r: &'a [u8])
        requires
            self.within(data@.len()),
        ensures
            r@ == self.of(data@),
    {
        slice_subrange(data, self.start, self.end)
    }
}

/// The error of `core::str::from_utf8`. Nothing is known of a value of it.
#[verifier::external_type_specification]
#[verifier::external_body]
pub struct ExUtf8Error(core::str::Utf8Error);

/// `core::str::from_utf8` succeeds on the byte slices that are UTF-8 and on no
/// other, and the string it returns is made of the bytes it was given.
pub assume_specification[ core::str::from_utf8 ](v: &[u8]) -> (r: Result<
    &str,
    core::str::Utf8Error,
>)
    ensures
        r is Ok <==> vstd::utf8::valid_utf8(v@),
        r matches Ok(s) ==> s.spec_bytes() == v@,
;

/// `bytes` is well-formed UTF-8.
pub open spec fn valid_utf8(bytes: Seq<u8>) -> bool {
    vstd::utf8::valid_utf8(bytes)
}

/// The text that `bytes` encodes, where `bytes` is well-formed UTF-8.
pub open spec fn decode_utf8(bytes: Seq<u8>) -> Seq<char> {
    vstd::utf8::decode_utf8(bytes)
}

/// Decodes a byte slice, as `core::str::from_utf8` does, and says in the
/// model's terms what came out.
pub fn from_utf8(v: &[u8]) -> (r: Result<&str, core::str::Utf8Error>)
    ensures
        r is Ok <==> valid_utf8(v@),
        r matches Ok(s) ==> s.spec_bytes() == v@ && s@ == decode_utf8(v@),
{
    let r = core::str::from_utf8(v);
    proof {
        if let Ok(s) = r {
            vstd::utf8::encode_utf8_decode_utf8(s@);
        }
    }
    r
}

/// The range `sp` lies in the buffer `data` and holds UTF-8.
pub open spec fn is_text(sp: Span, data: Seq<u8>) -> bool {
    sp.within(data.len()) && valid_utf8(sp.of(data))
}

/// The text that the range `sp` of the buffer `data` holds.
pub open spec fn text_of(sp: Span, data: Seq<u8>) -> Seq<char> {
    decode_utf8(sp.of(data))
}

/// Two byte strings that are UTF-8 encode the same text only if they are
/// equal.
pub proof fn lemma_text_eq(a: Seq<u8>, b: Seq<u8>)
    requires
        valid_utf8(a),
        valid_utf8(b),
    ensures
        decode_utf8(a) == decode_utf8(b) <==> a == b,
{
    vstd::utf8::decode_utf8_encode_utf8(a);
    vstd::utf8::decode_utf8_encode_utf8(b);
}

/// The text in the range `sp` of `data`. This is the one place where ranges
/// become text: the range is known to hold UTF-8, so that decoding it cannot
/// fail.
pub fn resolve<'a>(data: &'a [u8], sp: Span) -> (r: &'a str)
    requires
        is_text(sp, data@),
    ensures
        r@ == text_of(sp, data@),
        r.spec_bytes() == sp.of(data@),
{
    match from_utf8(sp.slice(data)) {
        Ok(s) => s,
        Err(_) => {
            proof {
                assert(false);
            }
            ""
        },
    }
}

/// `a` and `b` hold the same bytes.
pub fn bytes_eq(a: &[u8], b: &[u8]) -> (r: bool)
    ensures
        r == (a@ == b@),
{
    if a.len() != b.len() {
        return false;
    }
    let mut i: usize = 0;
    while i < a.len()
        invariant
            i <= a@.len(),
            a@.len() == b@.len(),
            forall|j: int| 0 <= j < i ==> a@[j] == b@[j],
        decreases a@.len() - i,
    {
        if a[i] != b[i] {
            return false;
        }
        i += 1;
    }
    assert(a@ =~= b@);
    true
}

} // verus!
