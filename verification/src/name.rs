//! Lump names: 8-byte directory fields padded with trailing zero bytes, whose
//! remaining bytes must come from a small set of ASCII characters (uppercase
//! letters, digits, `[`, `]`, `-`, `_`, `\`).

use vstd::prelude::*;

verus! {

/// Whether one byte is legal inside a lump name: an uppercase ASCII letter,
/// an ASCII digit, `[`, `]`, `-`, `_` or `\`.
pub open spec fn is_name_byte(b: u8) -> bool {
    (65 <= b && b <= 90) || (48 <= b && b <= 57) || b == 91 || b == 93 || b == 45 || b == 95
        || b == 92
}

/// The raw 8-byte directory field with its trailing zero padding removed.
pub open spec fn trim_zeros(raw: Seq<u8>) -> Seq<u8>
    decreases raw.len(),
{
    if raw.len() > 0 && raw.last() == 0u8 {
        trim_zeros(raw.drop_last())
    } else {
        raw
    }
}

/// A legal lump name is non-empty and made of legal name bytes only.
pub open spec fn is_legal_name_bytes(s: Seq<u8>) -> bool {
    s.len() > 0 && forall|i: int| 0 <= i < s.len() ==> is_name_byte(#[trigger] s[i])
}

/// The characters spelled by a sequence of ASCII bytes, one character per byte.
pub open spec fn chars_of_bytes(s: Seq<u8>) -> Seq<char> {
    Seq::new(s.len(), |i: int| s[i] as char)
}

/// Relies on `String::push`: appends exactly the given character.
#[verifier::external_body]
fn push_char(s: &mut String, c: char)
    ensures
        final(s)@ == old(s)@.push(c),
{
    s.push(c);
}

/// Checks one byte against the legal lump-name set.
pub fn check_name_byte(b: u8) -> (r: bool)
    ensures
        r == is_name_byte(b),
{
    (65 <= b && b <= 90) || (48 <= b && b <= 57) || b == 91 || b == 93 || b == 45 || b == 95
        || b == 92
}

/// Spells a raw name field for an error message: printable ASCII bytes as
/// themselves, everything else as `?`.
pub fn describe_bytes(raw: &[u8]) -> (r: String)
    ensures
        r@.len() == raw@.len(),
{
    let mut s = String::new();
    let mut i: usize = 0;
    while i < raw.len()
        invariant
            i <= raw@.len(),
            s@.len() == i,
        decreases raw@.len() - i,
    {
        let b = raw[i];
        if 32 <= b && b <= 126 {
            push_char(&mut s, b as char);
        } else {
            push_char(&mut s, '?');
        }
        i = i + 1;
    }
    s
}

/// Strips the trailing zero padding from a raw name field and, when every
/// remaining byte is legal and at least one remains, spells them as a string.
pub fn read_raw_name(raw: &[u8]) -> (r: Option<String>)
    ensures
        match r {
            Some(name) => is_legal_name_bytes(trim_zeros(raw@)) && name@ == chars_of_bytes(
                trim_zeros(raw@),
            ),
            None => !is_legal_name_bytes(trim_zeros(raw@)),
        },
{
    let mut end: usize = raw.len();
    proof {
        assert(raw@.subrange(0, raw@.len() as int) =~= raw@);
    }
    while end > 0 && raw[end - 1] == 0u8
        invariant
            end <= raw.len(),
            trim_zeros(raw@) == trim_zeros(raw@.subrange(0, end as int)),
        decreases end,
    {
        proof {
            assert(raw@.subrange(0, end as int).drop_last() =~= raw@.subrange(0, end - 1 as int));
        }
        end = end - 1;
    }
    let trimmed = vstd::slice::slice_subrange(raw, 0, end);
    proof {
        assert(trim_zeros(raw@.subrange(0, end as int)) =~= raw@.subrange(0, end as int));
    }
    if trimmed.len() == 0 {
        return None;
    }
    let mut s = String::new();
    let mut i: usize = 0;
    while i < trimmed.len()
        invariant
            i <= trimmed@.len(),
            trimmed@.len() > 0,
            trimmed@ == trim_zeros(raw@),
            s@ =~= chars_of_bytes(trimmed@.subrange(0, i as int)),
            forall|j: int| 0 <= j < i ==> is_name_byte(#[trigger] trimmed@[j]),
        decreases trimmed@.len() - i,
    {
        let b = trimmed[i];
        if !check_name_byte(b) {
            proof {
                assert(!is_name_byte(trimmed@[i as int]));
            }
            return None;
        }
        push_char(&mut s, b as char);
        proof {
            assert(s@ =~= chars_of_bytes(trimmed@.subrange(0, i + 1 as int)));
        }
        i = i + 1;
    }
    proof {
        assert(trimmed@.subrange(0, trimmed@.len() as int) =~= trimmed@);
    }
    Some(s)
}

} // verus!
