//! Minimal UTF-8 decoding: the width of a sequence from its leading byte, the
//! well-formedness of one encoded scalar value, and the decoding of one unit.
use vstd::prelude::*;

verus! {

/// True when `b` can only appear as a continuation byte (`10xx_xxxx`).
pub open spec fn is_cont(b: u8) -> bool {
    0x80 <= b <= 0xBF
}

/// Width of a well-formed UTF-8 sequence that starts with `b`, or 0 when no
/// well-formed sequence starts with it.
pub open spec fn lead_width(b: u8) -> nat {
    if b < 0x80 {
        1
    } else if b < 0xC2 {
        0
    } else if b < 0xE0 {
        2
    } else if b < 0xF0 {
        3
    } else if b < 0xF5 {
        4
    } else {
        0
    }
}

/// `s` is exactly one well-formed UTF-8 sequence (Unicode Table 3-7).
pub open spec fn is_scalar_seq(s: Seq<u8>) -> bool {
    &&& s.len() >= 1
    &&& s.len() == lead_width(s[0])
    &&& s.len() >= 2 ==> {
        &&& s[0] == 0xE0 ==> 0xA0 <= s[1] <= 0xBF
        &&& s[0] == 0xED ==> 0x80 <= s[1] <= 0x9F
        &&& s[0] == 0xF0 ==> 0x90 <= s[1] <= 0xBF
        &&& s[0] == 0xF4 ==> 0x80 <= s[1] <= 0x8F
        &&& forall|i: int| 1 <= i < s.len() ==> is_cont(#[trigger] s[i])
    }
}

/// The scalar value that a well-formed sequence `s` encodes.
pub open spec fn scalar_of(s: Seq<u8>) -> u32 {
    if s.len() == 1 {
        s[0] as u32
    } else if s.len() == 2 {
        ((s[0] - 0xC0) * 64 + (s[1] - 0x80)) as u32
    } else if s.len() == 3 {
        ((s[0] - 0xE0) * 4096 + (s[1] - 0x80) * 64 + (s[2] - 0x80)) as u32
    } else {
        ((s[0] - 0xF0) * 262144 + (s[1] - 0x80) * 4096 + (s[2] - 0x80) * 64 + (s[3]
            - 0x80)) as u32
    }
}

/// The number of bytes that UTF-8 uses to encode the scalar value `c`.
pub open spec fn encoded_len(c: u32) -> nat {
    if c < 0x80 {
        1
    } else if c < 0x800 {
        2
    } else if c < 0x10000 {
        3
    } else {
        4
    }
}

/// A Unicode scalar value: at most `0x10FFFF` and not a surrogate.
pub open spec fn is_scalar(c: u32) -> bool {
    c <= 0x10FFFF && !(0xD800 <= c <= 0xDFFF)
}

/// The whole of `s` decoded as UTF-8, one scalar value per sequence, or `None`
/// when `s` is not well-formed UTF-8.
pub open spec fn utf8_decode(s: Seq<u8>) -> Option<Seq<u32>>
    decreases s.len(),
{
    if s.len() == 0 {
        Some(Seq::empty())
    } else {
        let w = lead_width(s[0]);
        if 0 < w <= s.len() && is_scalar_seq(s.take(w as int)) {
            match utf8_decode(s.skip(w as int)) {
                Some(rest) => Some(seq![scalar_of(s.take(w as int))] + rest),
                None => None,
            }
        } else {
            None
        }
    }
}

/// A well-formed sequence encodes a scalar value whose own encoding has the
/// sequence's length.
pub proof fn lemma_scalar_seq(s: Seq<u8>)
    requires
        is_scalar_seq(s),
    ensures
        is_scalar(scalar_of(s)),
        encoded_len(scalar_of(s)) == s.len(),
{
    if s.len() >= 2 {
        assert(is_cont(s[1]));
    }
    if s.len() >= 3 {
        assert(is_cont(s[2]));
    }
    if s.len() >= 4 {
        assert(is_cont(s[3]));
    }
}

/// Number of bytes of the UTF-8 sequence that starts with `b`, or 0 when `b`
/// starts none (a continuation byte, an overlong leader, or a leader beyond
/// `0x10FFFF`).
pub fn utf8_char_width(b: u8) -> (r: usize)
    ensures
        r == lead_width(b),
{
    if b < 0x80 {
        1
    } else if b < 0xC2 {
        0
    } else if b < 0xE0 {
        2
    } else if b < 0xF0 {
        3
    } else if b < 0xF5 {
        4
    } else {
        0
    }
}

/// `s` is exactly one generalized UTF-8 sequence: as well-formed UTF-8, but
/// with the encodings of surrogates admitted (the form in which a platform
/// stores UTF-16 that may hold unpaired surrogates).
pub open spec fn is_wide_seq(s: Seq<u8>) -> bool {
    &&& s.len() >= 1
    &&& s.len() == lead_width(s[0])
    &&& s.len() >= 2 ==> {
        &&& s[0] == 0xE0 ==> 0xA0 <= s[1] <= 0xBF
        &&& s[0] == 0xF0 ==> 0x90 <= s[1] <= 0xBF
        &&& s[0] == 0xF4 ==> 0x80 <= s[1] <= 0x8F
        &&& forall|i: int| 1 <= i < s.len() ==> is_cont(#[trigger] s[i])
    }
}

/// The scalar value that a well-formed sequence at the front of `s` encodes,
/// or `None` when `s` does not start with one.
pub open spec fn scalar_prefix(s: Seq<u8>) -> Option<u32> {
    if s.len() > 0 && 0 < lead_width(s[0]) <= s.len() && is_scalar_seq(
        s.take(lead_width(s[0]) as int),
    ) {
        Some(scalar_of(s.take(lead_width(s[0]) as int)))
    } else {
        None
    }
}

/// Decodes the well-formed UTF-8 sequence at the front of `bytes`, giving its
/// scalar value and its width, or `None` when `bytes` does not start with one
/// (an invalid leader, a bad continuation byte, or too few bytes).
pub fn decode_scalar_prefix(bytes: &[u8]) -> (r: Option<(u32, usize)>)
    requires
        bytes@.len() > 0,
    ensures
        r is None <==> scalar_prefix(bytes@) is None,
        r matches Some((c, w)) ==> {
            &&& Some(c) == scalar_prefix(bytes@)
            &&& w == lead_width(bytes@[0])
            &&& encoded_len(c) == w
            &&& is_scalar(c)
        },
{
    let x = bytes[0];
    let w = utf8_char_width(x);
    if w == 0 || w > bytes.len() {
        return None;
    }
    let ghost s = bytes@.take(w as int);
    if w == 1 {
        proof {
            lemma_scalar_seq(s);
        }
        return Some((x as u32, 1));
    }
    let y = bytes[1];
    if !(0x80 <= y && y <= 0xBF) || (x == 0xE0 && y < 0xA0) || (x == 0xED && y > 0x9F) || (x
        == 0xF0 && y < 0x90) || (x == 0xF4 && y > 0x8F) {
        assert(!is_scalar_seq(s)) by {
            assert(s[1] == y);
        }
        return None;
    }
    if w == 2 {
        assert(is_scalar_seq(s)) by {
            assert(forall|i: int| 1 <= i < s.len() ==> s[i] == y);
        }
        proof {
            lemma_scalar_seq(s);
        }
        return Some((((x - 0xC0) as u32) * 64 + ((y - 0x80) as u32), 2));
    }
    let z = bytes[2];
    if !(0x80 <= z && z <= 0xBF) {
        assert(!is_scalar_seq(s)) by {
            assert(s[2] == z);
        }
        return None;
    }
    if w == 3 {
        assert(is_scalar_seq(s)) by {
            assert(forall|i: int| 1 <= i < s.len() ==> s[i] == bytes@[i]);
        }
        proof {
            lemma_scalar_seq(s);
        }
        return Some(
            (((x - 0xE0) as u32) * 4096 + ((y - 0x80) as u32) * 64 + ((z - 0x80) as u32), 3),
        );
    }
    let v = bytes[3];
    if !(0x80 <= v && v <= 0xBF) {
        assert(!is_scalar_seq(s)) by {
            assert(s[3] == v);
        }
        return None;
    }
    assert(is_scalar_seq(s)) by {
        assert(forall|i: int| 1 <= i < s.len() ==> s[i] == bytes@[i]);
    }
    proof {
        lemma_scalar_seq(s);
    }
    Some(
        (
            ((x - 0xF0) as u32) * 262144 + ((y - 0x80) as u32) * 4096 + ((z - 0x80) as u32) * 64
                + ((v - 0x80) as u32),
            4,
        ),
    )
}

/// Reads the generalized UTF-8 sequence that starts at `*pos` and moves `*pos`
/// past it. Gives `None`, and leaves `*pos` alone, when `*pos` is at the end.
pub fn next_code_point(bytes: &[u8], pos: &mut usize) -> (r: Option<u32>)
    requires
        *old(pos) <= bytes@.len(),
        *old(pos) < bytes@.len() ==> *old(pos) + lead_width(bytes@[*old(pos) as int])
            <= bytes@.len() && is_wide_seq(
            bytes@.subrange(
                *old(pos) as int,
                *old(pos) + lead_width(bytes@[*old(pos) as int]),
            ),
        ),
    ensures
        *old(pos) == bytes@.len() ==> r is None && *final(pos) == *old(pos),
        *old(pos) < bytes@.len() ==> {
            let w = lead_width(bytes@[*old(pos) as int]);
            &&& r == Some(scalar_of(bytes@.subrange(*old(pos) as int, *old(pos) + w)))
            &&& *final(pos) == *old(pos) + w
        },
{
    let p = *pos;
    if p == bytes.len() {
        return None;
    }
    let ghost s = bytes@.subrange(p as int, p + lead_width(bytes@[p as int]));
    let x = bytes[p];
    if x < 0x80 {
        *pos = p + 1;
        return Some(x as u32);
    }
    assert(is_cont(s[1]));
    let y = bytes[p + 1];
    if x < 0xE0 {
        *pos = p + 2;
        return Some(((x - 0xC0) as u32) * 64 + ((y - 0x80) as u32));
    }
    assert(is_cont(s[2]));
    let z = bytes[p + 2];
    if x < 0xF0 {
        *pos = p + 3;
        return Some(((x - 0xE0) as u32) * 4096 + ((y - 0x80) as u32) * 64 + ((z - 0x80) as u32));
    }
    assert(is_cont(s[3]));
    let v = bytes[p + 3];
    *pos = p + 4;
    Some(
        ((x - 0xF0) as u32) * 262144 + ((y - 0x80) as u32) * 4096 + ((z - 0x80) as u32) * 64 + ((v
            - 0x80) as u32),
    )
}

} // verus!
