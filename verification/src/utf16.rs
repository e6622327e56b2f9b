//! UTF-16, the encoding the Windows registry holds its strings in.

use vstd::prelude::*;

use crate::text::{chars_of, index_of, lemma_index_of_at};

verus! {

pub open spec fn is_surrogate(u: u16) -> bool {
    0xd800 <= u <= 0xdfff
}

pub open spec fn is_high_surrogate(u: u16) -> bool {
    0xd800 <= u <= 0xdbff
}

pub open spec fn is_low_surrogate(u: u16) -> bool {
    0xdc00 <= u <= 0xdfff
}

/// The UTF-16 code units of one character.
pub open spec fn char_units(c: char) -> Seq<u16> {
    let u = c as u32;
    if u < 0x10000 {
        seq![u as u16]
    } else {
        let v = u - 0x10000;
        seq![(0xd800 + v / 0x400) as u16, (0xdc00 + v % 0x400) as u16]
    }
}

/// `str::encode_utf16`.
pub open spec fn encode_utf16(s: Seq<char>) -> Seq<u16>
    decreases s.len(),
{
    if s.len() == 0 {
        Seq::empty()
    } else {
        char_units(s[0]) + encode_utf16(s.drop_first())
    }
}

/// The character a surrogate pair stands for.
pub open spec fn combine_surrogates(high: u16, low: u16) -> char {
    (0x10000 + (high - 0xd800) * 0x400 + (low - 0xdc00)) as char
}

/// `String::from_utf16`: the characters `u` encodes, or `None` when it holds
/// a surrogate that is not part of a pair.
pub open spec fn decode_utf16(u: Seq<u16>) -> Option<Seq<char>>
    decreases u.len(),
{
    if u.len() == 0 {
        Some(Seq::empty())
    } else if !is_surrogate(u[0]) {
        match decode_utf16(u.drop_first()) {
            Some(rest) => Some(seq![(u[0] as int) as char] + rest),
            None => None,
        }
    } else if is_high_surrogate(u[0]) && u.len() >= 2 && is_low_surrogate(u[1]) {
        match decode_utf16(u.subrange(2, u.len() as int)) {
            Some(rest) => Some(seq![combine_surrogates(u[0], u[1])] + rest),
            None => None,
        }
    } else {
        None
    }
}

/// The units of `u` before its first zero.
pub open spec fn until_nul(u: Seq<u16>) -> Seq<u16> {
    u.subrange(0, index_of(u, 0u16, 0))
}

/// A Unicode scalar value: a code point that is not a surrogate.
pub open spec fn is_scalar(v: u32) -> bool {
    v <= 0xd7ff || 0xe000 <= v <= 0x10ffff
}

/// Calls `char::from_u32`, which, as its documentation says, gives the
/// character with code point `v` when `v` is a Unicode scalar value and
/// `None` otherwise.
#[verifier::external_body]
fn char_from_u32(v: u32) -> (c: Option<char>)
    ensures
        c == if is_scalar(v) {
            Some(v as char)
        } else {
            None
        },
{
    char::from_u32(v)
}

proof fn lemma_encode_push(s: Seq<char>, c: char)
    ensures
        encode_utf16(s.push(c)) == encode_utf16(s) + char_units(c),
    decreases s.len(),
{
    if s.len() == 0 {
        assert(s.push(c).drop_first() =~= Seq::<char>::empty());
        assert(encode_utf16(Seq::<char>::empty()) =~= Seq::<u16>::empty());
        assert(encode_utf16(s.push(c)) =~= char_units(c));
    } else {
        assert(s.push(c).drop_first() =~= s.drop_first().push(c));
        lemma_encode_push(s.drop_first(), c);
        assert(encode_utf16(s.push(c)) =~= encode_utf16(s) + char_units(c));
    }
}

/// `value` in UTF-16 with a terminating zero, as Windows takes its strings.
pub fn wide(value: &str) -> (units: Vec<u16>)
    ensures
        units@ == encode_utf16(value@).push(0u16),
{
    let chars = chars_of(value);
    let mut units: Vec<u16> = Vec::new();
    let mut i: usize = 0;
    assert(chars@.subrange(0, 0) =~= Seq::<char>::empty());
    while i < chars.len()
        invariant
            i <= chars@.len(),
            units@ == encode_utf16(chars@.subrange(0, i as int)),
        decreases chars.len() - i,
    {
        let c = chars[i];
        let u = c as u32;
        if u < 0x10000 {
            units.push(u as u16);
        } else {
            let v = u - 0x10000;
            units.push((0xd800 + v / 0x400) as u16);
            units.push((0xdc00 + v % 0x400) as u16);
        }
        proof {
            lemma_encode_push(chars@.subrange(0, i as int), c);
            assert(chars@.subrange(0, i + 1) =~= chars@.subrange(0, i as int).push(c));
        }
        i += 1;
    }
    assert(chars@.subrange(0, chars@.len() as int) =~= chars@);
    units.push(0);
    units
}

/// The characters `units[0..end]` encodes, or `None` when it holds an
/// unpaired surrogate.
pub(crate) fn decode_range(units: &[u16], end: usize) -> (chars: Option<Vec<char>>)
    requires
        end <= units@.len(),
    ensures
        match chars {
            Some(v) => decode_utf16(units@.subrange(0, end as int)) == Some(v@),
            None => decode_utf16(units@.subrange(0, end as int)) is None,
        },
{
    let ghost whole = units@.subrange(0, end as int);
    let mut out: Vec<char> = Vec::new();
    let mut i: usize = 0;
    assert(whole.subrange(0, whole.len() as int) =~= whole);
    while i < end
        invariant
            i <= end <= units@.len(),
            whole == units@.subrange(0, end as int),
            decode_utf16(whole) == match decode_utf16(units@.subrange(i as int, end as int)) {
                Some(rest) => Some(out@ + rest),
                None => None::<Seq<char>>,
            },
        decreases end - i,
    {
        let ghost tail = units@.subrange(i as int, end as int);
        let u = units[i];
        if u < 0xd800 || u > 0xdfff {
            let c = match char_from_u32(u as u32) {
                Some(c) => c,
                None => return None,
            };
            proof {
                assert(tail.drop_first() =~= units@.subrange(i + 1, end as int));
                match decode_utf16(tail.drop_first()) {
                    Some(rest) => {
                        assert(out@.push(c) + rest =~= out@ + (seq![(u as int) as char] + rest));
                    },
                    None => {},
                }
            }
            out.push(c);
            i += 1;
        } else if u <= 0xdbff && i + 1 < end && 0xdc00 <= units[i + 1] && units[i + 1] <= 0xdfff {
            let low = units[i + 1];
            let v = 0x10000 + ((u - 0xd800) as u32) * 0x400 + ((low - 0xdc00) as u32);
            let c = match char_from_u32(v) {
                Some(c) => c,
                None => return None,
            };
            proof {
                assert(tail.subrange(2, tail.len() as int) =~= units@.subrange(i + 2, end as int));
                match decode_utf16(tail.subrange(2, tail.len() as int)) {
                    Some(rest) => {
                        assert(out@.push(c) + rest =~= out@ + (seq![combine_surrogates(u, low)]
                            + rest));
                    },
                    None => {},
                }
            }
            out.push(c);
            i += 2;
        } else {
            return None;
        }
    }
    assert(units@.subrange(i as int, end as int) =~= Seq::<u16>::empty());
    assert(out@ + Seq::<char>::empty() =~= out@);
    Some(out)
}

/// The position of the first zero in `units`, or its length.
pub(crate) fn find_nul(units: &[u16]) -> (e: usize)
    ensures
        e as int == index_of(units@, 0u16, 0),
        e <= units@.len(),
{
    let mut i: usize = 0;
    while i < units.len() && units[i] != 0
        invariant
            i <= units@.len(),
            index_of(units@, 0u16, 0) == index_of(units@, 0u16, i as int),
        decreases units.len() - i,
    {
        i += 1;
    }
    i
}

proof fn lemma_bmp_units(c: char)
    requires
        (c as u32) < 0x10000,
    ensures
        !is_surrogate(char_units(c)[0]),
        ((char_units(c)[0] as int) as char) == c,
        char_units(c).len() == 1,
{
    let u = c as u32;
    assert((u as int) as char == c);
    assert((u as u16) as int == u as int);
}

proof fn lemma_surrogate_units(c: char)
    requires
        (c as u32) >= 0x10000,
    ensures
        char_units(c).len() == 2,
        is_high_surrogate(char_units(c)[0]),
        is_low_surrogate(char_units(c)[1]),
        combine_surrogates(char_units(c)[0], char_units(c)[1]) == c,
{
    let u = c as u32;
    let v = u - 0x10000;
    assert(v < 0x100000);
    let e = char_units(c);
    assert(e[0] as int == 0xd800 + v / 0x400);
    assert(e[1] as int == 0xdc00 + v % 0x400);
    assert(combine_surrogates(e[0], e[1]) as u32 == u);
}

/// Decoding what was encoded gives back the characters.
pub proof fn lemma_decode_encode(s: Seq<char>)
    ensures
        decode_utf16(encode_utf16(s)) == Some(s),
    decreases s.len(),
{
    if s.len() > 0 {
        lemma_decode_encode(s.drop_first());
        let c = s[0];
        let u = c as u32;
        let e = encode_utf16(s);
        let tail = encode_utf16(s.drop_first());
        if u < 0x10000 {
            assert(e.drop_first() =~= tail);
            assert((u as u16) as u32 == u);
            lemma_bmp_units(c);
        } else {
            assert(e.subrange(2, e.len() as int) =~= tail);
            lemma_surrogate_units(c);
            assert(combine_surrogates(e[0], e[1]) == c);
        }
        assert(seq![c] + s.drop_first() =~= s);
    }
}

/// Encoding never produces a zero unit for a character other than `'\0'`.
pub proof fn lemma_encode_has_no_nul(s: Seq<char>)
    requires
        !s.contains('\0'),
    ensures
        !encode_utf16(s).contains(0u16),
    decreases s.len(),
{
    if s.len() > 0 {
        assert(!s.drop_first().contains('\0')) by {
            if s.drop_first().contains('\0') {
                let k = choose|k: int| 0 <= k < s.drop_first().len() && s.drop_first()[k] == '\0';
                assert(s[k + 1] == '\0');
            }
        }
        lemma_encode_has_no_nul(s.drop_first());
        let e = encode_utf16(s);
        let head = char_units(s[0]);
        assert(s[0] != '\0') by {
            if s[0] == '\0' {
                assert(s.contains('\0'));
            }
        }
        if (s[0] as u32) < 0x10000 {
            lemma_bmp_units(s[0]);
            assert(head[0] as int != 0);
        } else {
            lemma_surrogate_units(s[0]);
        }
        if e.contains(0u16) {
            let k = choose|k: int| 0 <= k < e.len() && e[k] == 0u16;
            if k >= head.len() {
                assert(encode_utf16(s.drop_first())[k - head.len()] == 0u16);
                assert(encode_utf16(s.drop_first()).contains(0u16));
            } else {
                assert(head[k] == 0u16);
            }
        }
    }
}

/// The text a zero-terminated UTF-16 buffer holds is everything before the
/// zero.
pub proof fn lemma_until_nul_of_terminated(u: Seq<u16>)
    requires
        !u.contains(0u16),
    ensures
        until_nul(u.push(0u16)) == u,
{
    let t = u.push(0u16);
    assert forall|k: int| 0 <= k < u.len() implies t[k] != 0u16 by {
        if t[k] == 0u16 {
            assert(u[k] == 0u16);
            assert(u.contains(0u16));
        }
    }
    lemma_index_of_at(t, 0u16, 0, u.len() as int);
    assert(t.subrange(0, u.len() as int) =~= u);
}

} // verus!
