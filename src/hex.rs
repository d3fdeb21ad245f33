use vstd::prelude::*;

verus! {

/// Value of an ASCII hexadecimal digit of either case, or -1 for any other byte.
pub open spec fn hex_value(c: u8) -> int {
    if 48 <= c <= 57 {
        c - 48
    } else if 97 <= c <= 102 {
        c - 87
    } else if 65 <= c <= 70 {
        c - 55
    } else {
        -1
    }
}

pub open spec fn is_hex_digit(c: u8) -> bool {
    hex_value(c) >= 0
}

/// ASCII lowercase of one byte.
pub open spec fn to_lower(c: u8) -> u8 {
    if 65 <= c <= 90 {
        (c + 32) as u8
    } else {
        c
    }
}

/// A text normalised to lowercase, byte by byte.
pub open spec fn normalize(s: Seq<u8>) -> Seq<u8> {
    s.map_values(|c: u8| to_lower(c))
}

/// Exactly 64 hexadecimal digits: the textual form of a SHA-256 digest.
pub open spec fn is_hex_digest(s: Seq<u8>) -> bool {
    &&& s.len() == 64
    &&& forall|i: int| 0 <= i < s.len() ==> is_hex_digit(#[trigger] s[i])
}

/// The bytes that a string of hexadecimal digit pairs spells, high digit first.
pub open spec fn decode_hex(s: Seq<u8>) -> Seq<u8> {
    Seq::new(
        (s.len() / 2) as nat,
        |k: int| (16 * hex_value(s[2 * k]) + hex_value(s[2 * k + 1])) as u8,
    )
}

proof fn lemma_digit_pair(a: u8, b: u8, c: u8, d: u8)
    requires
        is_hex_digit(a),
        is_hex_digit(b),
        is_hex_digit(c),
        is_hex_digit(d),
    ensures
        ((16 * hex_value(a) + hex_value(b)) as u8 == (16 * hex_value(c) + hex_value(d)) as u8) <==> (
        hex_value(a) == hex_value(c) && hex_value(b) == hex_value(d)),
{
}

proof fn lemma_digit_lower(x: u8, y: u8)
    requires
        is_hex_digit(x),
        is_hex_digit(y),
    ensures
        (hex_value(x) == hex_value(y)) <==> (to_lower(x) == to_lower(y)),
{
}

/// Two hexadecimal digests spell the same bytes exactly when they are equal
/// once lowercased.
pub proof fn lemma_decode_eq_iff_normalized(a: Seq<u8>, b: Seq<u8>)
    requires
        is_hex_digest(a),
        is_hex_digest(b),
    ensures
        (decode_hex(a) == decode_hex(b)) <==> (normalize(a) == normalize(b)),
{
    if decode_hex(a) == decode_hex(b) {
        assert forall|i: int| 0 <= i < 64 implies normalize(a)[i] == normalize(b)[i] by {
            let k = i / 2;
            assert(decode_hex(a)[k] == decode_hex(b)[k]);
            assert(is_hex_digit(a[2 * k]) && is_hex_digit(a[2 * k + 1]));
            assert(is_hex_digit(b[2 * k]) && is_hex_digit(b[2 * k + 1]));
            lemma_digit_pair(a[2 * k], a[2 * k + 1], b[2 * k], b[2 * k + 1]);
            assert(is_hex_digit(a[i]) && is_hex_digit(b[i]));
            lemma_digit_lower(a[i], b[i]);
        }
        assert(normalize(a) =~= normalize(b));
    }
    if normalize(a) == normalize(b) {
        assert forall|k: int| 0 <= k < 32 implies decode_hex(a)[k] == decode_hex(b)[k] by {
            assert(normalize(a)[2 * k] == normalize(b)[2 * k]);
            assert(normalize(a)[2 * k + 1] == normalize(b)[2 * k + 1]);
            assert(is_hex_digit(a[2 * k]) && is_hex_digit(a[2 * k + 1]));
            assert(is_hex_digit(b[2 * k]) && is_hex_digit(b[2 * k + 1]));
            lemma_digit_lower(a[2 * k], b[2 * k]);
            lemma_digit_lower(a[2 * k + 1], b[2 * k + 1]);
        }
        assert(decode_hex(a) =~= decode_hex(b));
    }
}

/// Whatever lowercases to a hexadecimal digest is one itself.
pub proof fn lemma_normalized_digest(h: Seq<u8>, l: Seq<u8>)
    requires
        is_hex_digest(l),
        normalize(h) == normalize(l),
    ensures
        is_hex_digest(h),
{
    assert(h.len() == normalize(h).len());
    assert forall|i: int| 0 <= i < h.len() implies is_hex_digit(#[trigger] h[i]) by {
        assert(normalize(h)[i] == normalize(l)[i]);
        assert(normalize(h)[i] == to_lower(h[i]));
        assert(normalize(l)[i] == to_lower(l[i]));
        assert(is_hex_digit(l[i]));
    }
}

/// Reads one hexadecimal digit.
pub fn hex_digit_value(c: u8) -> (r: Option<u8>)
    ensures
        match r {
            Some(v) => is_hex_digit(c) && v == hex_value(c),
            None => !is_hex_digit(c),
        },
{
    if 48 <= c && c <= 57 {
        Some(c - 48)
    } else if 97 <= c && c <= 102 {
        Some(c - 87)
    } else if 65 <= c && c <= 70 {
        Some(c - 55)
    } else {
        None
    }
}

/// Decodes `s[lo..hi]` when it is a 64-digit hexadecimal digest.
pub fn decode_digest(s: &[u8], lo: usize, hi: usize) -> (r: Option<Vec<u8>>)
    requires
        lo <= hi <= s@.len(),
    ensures
        r is Some <==> is_hex_digest(s@.subrange(lo as int, hi as int)),
        r matches Some(v) ==> v@ == decode_hex(s@.subrange(lo as int, hi as int)),
{
    if hi - lo != 64 {
        return None;
    }
    let ghost t = s@.subrange(lo as int, hi as int);
    let mut out: Vec<u8> = Vec::new();
    let mut k: usize = 0;
    while k < 32
        invariant
            hi - lo == 64,
            lo <= hi <= s@.len(),
            t == s@.subrange(lo as int, hi as int),
            k <= 32,
            out@.len() == k,
            forall|i: int| 0 <= i < 2 * k ==> is_hex_digit(#[trigger] t[i]),
            forall|j: int| 0 <= j < k ==> #[trigger] out@[j] == decode_hex(t)[j],
        decreases 32 - k,
    {
        let hi_digit = hex_digit_value(s[lo + 2 * k]);
        let lo_digit = hex_digit_value(s[lo + 2 * k + 1]);
        match (hi_digit, lo_digit) {
            (Some(a), Some(b)) => {
                assert(t[2 * k as int] == s@[lo + 2 * k]);
                assert(t[2 * k + 1] == s@[lo + 2 * k + 1]);
                out.push(a * 16 + b);
                k = k + 1;
            },
            _ => {
                assert(t[2 * k as int] == s@[lo + 2 * k]);
                assert(t[2 * k + 1] == s@[lo + 2 * k + 1]);
                assert(!is_hex_digit(t[2 * k as int]) || !is_hex_digit(t[2 * k + 1]));
                return None;
            },
        }
    }
    assert(out@ =~= decode_hex(t));
    Some(out)
}

} // verus!
