//! JSON primitives for the two wire edges: whitespace, strings with
//! escapes, and a shape-level value skipper for unknown members.
//!
//! String contents are modelled as byte sequences: a decoded `\uXXXX`
//! escape contributes the UTF-8 bytes of its code point (surrogates are
//! refused), and the encoder escapes the quote, the backslash and every
//! control byte, so encoding then decoding a string is lossless for every
//! byte sequence.

use vstd::prelude::*;
use crate::codec::{is_digit, lemma_subrange_of_matching};

verus! {

/// JSON insignificant whitespace: space, tab, newline, carriage return.
pub open spec fn is_jws(b: u8) -> bool {
    b == 32 || b == 9 || b == 10 || b == 13
}

pub open spec fn spec_jws(s: Seq<u8>, i: int) -> int
    decreases s.len() - i,
{
    if 0 <= i < s.len() && is_jws(s[i]) {
        spec_jws(s, i + 1)
    } else {
        i
    }
}

/// Mirrors `spec_jws`.
pub fn jws(s: &Vec<u8>, i: usize) -> (r: usize)
    requires
        i <= s.len(),
    ensures
        r == spec_jws(s@, i as int),
        i <= r <= s.len(),
    decreases s.len() - i,
{
    if i < s.len() && (s[i] == 32 || s[i] == 9 || s[i] == 10 || s[i] == 13) {
        jws(s, i + 1)
    } else {
        i
    }
}

/// The value of a hex digit, or a negative number for any other byte.
pub open spec fn spec_hex_val(b: u8) -> int {
    if 48 <= b <= 57 {
        b - 48
    } else if 97 <= b <= 102 {
        b - 87
    } else if 65 <= b <= 70 {
        b - 55
    } else {
        -1
    }
}

/// Mirrors `spec_hex_val`.
fn hex_val(b: u8) -> (r: Option<u8>)
    ensures
        match r {
            Some(v) => spec_hex_val(b) == v as int && v < 16,
            None => spec_hex_val(b) < 0,
        },
{
    if 48 <= b && b <= 57 {
        Some(b - 48)
    } else if 97 <= b && b <= 102 {
        Some(b - 87)
    } else if 65 <= b && b <= 70 {
        Some(b - 55)
    } else {
        None
    }
}

/// The lower-case hex digit of a value below 16.
pub open spec fn spec_hex_digit(n: u8) -> u8 {
    if n < 10 {
        (48 + n) as u8
    } else {
        (87 + n) as u8
    }
}

/// The byte a single-letter escape stands for.
pub open spec fn spec_unescape_letter(e: u8) -> u8 {
    if e == 98 {
        8
    } else if e == 102 {
        12
    } else if e == 110 {
        10
    } else if e == 114 {
        13
    } else {
        9
    }
}

/// The UTF-8 bytes of a code point below 0x10000.
pub open spec fn spec_utf8(cp: int) -> Seq<u8> {
    if cp < 0x80 {
        seq![cp as u8]
    } else if cp < 0x800 {
        seq![(192 + cp / 64) as u8, (128 + cp % 64) as u8]
    } else {
        seq![(224 + cp / 4096) as u8, (128 + (cp / 64) % 64) as u8, (128 + cp % 64) as u8]
    }
}

/// Read a JSON string whose content starts at `i` (just past the opening
/// quote): plain bytes, the single-character escapes, and `\uXXXX` (whose
/// code point is refused if a surrogate and contributes its UTF-8 bytes
/// otherwise).  Yields the decoded content and the position just past the
/// closing quote.
pub open spec fn spec_read_string(s: Seq<u8>, i: int) -> Option<(Seq<u8>, int)>
    decreases s.len() - i,
{
    if i < 0 || i >= s.len() {
        None
    } else if s[i] == 34 {
        Some((Seq::empty(), i + 1))
    } else if s[i] == 92 {
        if i + 1 >= s.len() {
            None
        } else {
            let e = s[i + 1];
            if e == 34 || e == 92 || e == 47 {
                match spec_read_string(s, i + 2) {
                    None => None,
                    Some((t, end)) => Some((seq![e] + t, end)),
                }
            } else if e == 98 || e == 102 || e == 110 || e == 114 || e == 116 {
                match spec_read_string(s, i + 2) {
                    None => None,
                    Some((t, end)) => Some((seq![spec_unescape_letter(e)] + t, end)),
                }
            } else if e == 117 {
                if i + 6 > s.len() {
                    None
                } else {
                    let h1 = spec_hex_val(s[i + 2]);
                    let h2 = spec_hex_val(s[i + 3]);
                    let h3 = spec_hex_val(s[i + 4]);
                    let h4 = spec_hex_val(s[i + 5]);
                    if h1 < 0 || h2 < 0 || h3 < 0 || h4 < 0 {
                        None
                    } else {
                        let cp = h1 * 4096 + h2 * 256 + h3 * 16 + h4;
                        if 0xD800 <= cp < 0xE000 {
                            None
                        } else {
                            match spec_read_string(s, i + 6) {
                                None => None,
                                Some((t, end)) => Some((spec_utf8(cp) + t, end)),
                            }
                        }
                    }
                }
            } else {
                None
            }
        }
    } else if s[i] >= 32 {
        match spec_read_string(s, i + 1) {
            None => None,
            Some((t, end)) => Some((seq![s[i]] + t, end)),
        }
    } else {
        None
    }
}

/// Mirrors `spec_read_string`.
pub fn read_string(s: &Vec<u8>, i: usize) -> (r: Option<(Vec<u8>, usize)>)
    requires
        i <= s.len(),
    ensures
        match r {
            Some((c, end)) => spec_read_string(s@, i as int) == Some((c@, end as int)) && i < end
                <= s.len(),
            None => spec_read_string(s@, i as int) is None,
        },
    decreases s.len() - i,
{
    if i >= s.len() {
        return None;
    }
    let b = s[i];
    if b == 34 {
        let c: Vec<u8> = Vec::new();
        proof {
            assert(c@ =~= Seq::<u8>::empty());
        }
        Some((c, i + 1))
    } else if b == 92 {
        if s.len() - i < 2 {
            return None;
        }
        let e = s[i + 1];
        if e == 34 || e == 92 || e == 47 {
            match read_string(s, i + 2) {
                None => None,
                Some((c, end)) => {
                    let mut c = c;
                    let ghost tail = c@;
                    c.insert(0, e);
                    proof {
                        assert(c@ =~= seq![e] + tail);
                    }
                    Some((c, end))
                },
            }
        } else if e == 98 || e == 102 || e == 110 || e == 114 || e == 116 {
            let b2: u8 = if e == 98 {
                8
            } else if e == 102 {
                12
            } else if e == 110 {
                10
            } else if e == 114 {
                13
            } else {
                9
            };
            match read_string(s, i + 2) {
                None => None,
                Some((c, end)) => {
                    let mut c = c;
                    let ghost tail = c@;
                    c.insert(0, b2);
                    proof {
                        assert(b2 == spec_unescape_letter(e));
                        assert(c@ =~= seq![spec_unescape_letter(e)] + tail);
                    }
                    Some((c, end))
                },
            }
        } else if e == 117 {
            if s.len() - i < 6 {
                return None;
            }
            let h1 = match hex_val(s[i + 2]) {
                None => {
                    return None;
                },
                Some(v) => v,
            };
            let h2 = match hex_val(s[i + 3]) {
                None => {
                    return None;
                },
                Some(v) => v,
            };
            let h3 = match hex_val(s[i + 4]) {
                None => {
                    return None;
                },
                Some(v) => v,
            };
            let h4 = match hex_val(s[i + 5]) {
                None => {
                    return None;
                },
                Some(v) => v,
            };
            let cp: u32 = (h1 as u32) * 4096 + (h2 as u32) * 256 + (h3 as u32) * 16 + (h4 as u32);
            if 0xD800 <= cp && cp < 0xE000 {
                return None;
            }
            match read_string(s, i + 6) {
                None => None,
                Some((c, end)) => {
                    let mut c = c;
                    let ghost tail = c@;
                    if cp < 0x80 {
                        c.insert(0, cp as u8);
                    } else if cp < 0x800 {
                        c.insert(0, (128 + (cp % 64)) as u8);
                        c.insert(0, (192 + cp / 64) as u8);
                    } else {
                        c.insert(0, (128 + (cp % 64)) as u8);
                        c.insert(0, (128 + ((cp / 4096) % 64) * 0 + ((cp / 64) % 64)) as u8);
                        c.insert(0, (224 + cp / 4096) as u8);
                    }
                    proof {
                        assert(c@ =~= spec_utf8(cp as int) + tail);
                    }
                    Some((c, end))
                },
            }
        } else {
            None
        }
    } else if b >= 32 {
        match read_string(s, i + 1) {
            None => None,
            Some((c, end)) => {
                let mut c = c;
                let ghost tail = c@;
                c.insert(0, b);
                proof {
                    assert(c@ =~= seq![b] + tail);
                }
                Some((c, end))
            },
        }
    } else {
        None
    }
}

// ---- the escaping encoder ----

/// How one byte stands inside an encoded JSON string: quote and backslash
/// take a backslash escape, the named control bytes their letter escape,
/// the other control bytes a `\u00XX` escape, and everything else itself.
pub open spec fn spec_escape_byte(b: u8) -> Seq<u8> {
    if b == 34 {
        seq![92u8, 34]
    } else if b == 92 {
        seq![92u8, 92]
    } else if b == 8 {
        seq![92u8, 98]
    } else if b == 12 {
        seq![92u8, 102]
    } else if b == 10 {
        seq![92u8, 110]
    } else if b == 13 {
        seq![92u8, 114]
    } else if b == 9 {
        seq![92u8, 116]
    } else if b < 32 {
        seq![92u8, 117, 48, 48, spec_hex_digit(b / 16), spec_hex_digit(b % 16)]
    } else {
        seq![b]
    }
}

/// The encoded form of the content bytes from index `k` on.
pub open spec fn spec_escape_from(c: Seq<u8>, k: int) -> Seq<u8>
    decreases c.len() - k,
{
    if k < 0 || k >= c.len() {
        Seq::empty()
    } else {
        spec_escape_byte(c[k]) + spec_escape_from(c, k + 1)
    }
}

/// The encoded form of a whole string content.
pub open spec fn spec_escape(c: Seq<u8>) -> Seq<u8> {
    spec_escape_from(c, 0)
}

/// Append the encoded form of `c[k..]`; mirrors `spec_escape_from`.
pub fn push_escaped(c: &Vec<u8>, k: usize, out: &mut Vec<u8>)
    requires
        k <= c.len(),
    ensures
        final(out)@ == old(out)@ + spec_escape_from(c@, k as int),
    decreases c.len() - k,
{
    if k == c.len() {
        proof {
            assert(out@ =~= out@ + spec_escape_from(c@, k as int));
        }
    } else {
        let b = c[k];
        if b == 34 {
            out.push(92);
            out.push(34);
        } else if b == 92 {
            out.push(92);
            out.push(92);
        } else if b == 8 {
            out.push(92);
            out.push(98);
        } else if b == 12 {
            out.push(92);
            out.push(102);
        } else if b == 10 {
            out.push(92);
            out.push(110);
        } else if b == 13 {
            out.push(92);
            out.push(114);
        } else if b == 9 {
            out.push(92);
            out.push(116);
        } else if b < 32 {
            out.push(92);
            out.push(117);
            out.push(48);
            out.push(48);
            out.push(if b / 16 < 10 {
                48 + b / 16
            } else {
                87 + b / 16
            });
            out.push(if b % 16 < 10 {
                48 + b % 16
            } else {
                87 + b % 16
            });
        } else {
            out.push(b);
        }
        let ghost mid = out@;
        proof {
            assert(mid =~= old(out)@ + spec_escape_byte(c@[k as int]));
        }
        push_escaped(c, k + 1, out);
        proof {
            assert(out@ =~= old(out)@ + spec_escape_from(c@, k as int));
        }
    }
}

/// Reading the encoded form of any content, followed by a closing quote,
/// recovers the content exactly and stops just past that quote.
pub proof fn lemma_read_escaped(s: Seq<u8>, i: int, c: Seq<u8>, k: int)
    requires
        0 <= k <= c.len(),
        0 <= i,
        i + spec_escape_from(c, k).len() < s.len(),
        s.subrange(i, i + spec_escape_from(c, k).len()) == spec_escape_from(c, k),
        s[i + spec_escape_from(c, k).len()] == 34,
    ensures
        spec_read_string(s, i) == Some(
            (c.subrange(k, c.len() as int), i + spec_escape_from(c, k).len() + 1),
        ),
    decreases c.len() - k,
{
    let ef = spec_escape_from(c, k);
    if k == c.len() {
        assert(ef =~= Seq::<u8>::empty());
        assert(c.subrange(k, c.len() as int) =~= Seq::<u8>::empty());
    } else {
        let b = c[k];
        let eb = spec_escape_byte(b);
        let rest = spec_escape_from(c, k + 1);
        assert(ef == eb + rest);
        assert(ef.subrange(0, eb.len() as int) =~= eb);
        lemma_subrange_of_matching(s, i, ef, 0, eb.len() as int);
        assert(ef.subrange(eb.len() as int, ef.len() as int) =~= rest);
        lemma_subrange_of_matching(s, i, ef, eb.len() as int, ef.len() as int);
        let i2 = i + eb.len();
        assert(s.subrange(i2, i + ef.len()) == rest);
        assert(s.subrange(i, i2)[0] == eb[0]);
        assert(s[i] == eb[0]);
        if eb.len() >= 2 {
            assert(s.subrange(i, i2)[1] == eb[1]);
            assert(s[i + 1] == eb[1]);
        }
        if eb.len() >= 6 {
            assert(s.subrange(i, i2)[2] == eb[2]);
            assert(s.subrange(i, i2)[3] == eb[3]);
            assert(s.subrange(i, i2)[4] == eb[4]);
            assert(s.subrange(i, i2)[5] == eb[5]);
            assert(s[i + 2] == eb[2] && s[i + 3] == eb[3]);
            assert(s[i + 4] == eb[4] && s[i + 5] == eb[5]);
        }
        lemma_read_escaped(s, i2, c, k + 1);
        assert(c.subrange(k, c.len() as int) =~= seq![b] + c.subrange(k + 1, c.len() as int));
        if b == 34 || b == 92 {
            assert(s[i] == 92 && s[i + 1] == b);
        } else if b == 8 || b == 12 || b == 10 || b == 13 || b == 9 {
            assert(s[i] == 92);
            assert(spec_unescape_letter(s[i + 1]) == b);
        } else if b < 32 {
            assert(s[i] == 92 && s[i + 1] == 117 && s[i + 2] == 48 && s[i + 3] == 48);
            assert(s[i + 4] == spec_hex_digit(b / 16) && s[i + 5] == spec_hex_digit(b % 16));
            assert(spec_hex_val(spec_hex_digit(b / 16)) == b / 16);
            assert(spec_hex_val(spec_hex_digit(b % 16)) == b % 16);
            let cp = 0 * 4096 + 0 * 256 + (b / 16) * 16 + (b % 16);
            assert(cp == b);
            assert(!(0xD800 <= cp < 0xE000));
            assert(spec_utf8(cp) =~= seq![b]);
        } else {
            assert(s[i] == b && b >= 32 && b != 34 && b != 92);
        }
    }
}


// ---- skipping a value by shape ----

/// A byte that may stand in a JSON number.
pub open spec fn is_num_byte(b: u8) -> bool {
    is_digit(b) || b == 43 || b == 45 || b == 46 || b == 101 || b == 69
}

pub open spec fn spec_scan_num(s: Seq<u8>, i: int) -> int
    decreases s.len() - i,
{
    if 0 <= i < s.len() && is_num_byte(s[i]) {
        spec_scan_num(s, i + 1)
    } else {
        i
    }
}

/// Mirrors `spec_scan_num`.
fn scan_num(s: &Vec<u8>, i: usize) -> (r: usize)
    requires
        i <= s.len(),
    ensures
        r == spec_scan_num(s@, i as int),
        i <= r <= s.len(),
    decreases s.len() - i,
{
    if i < s.len() && ((48 <= s[i] && s[i] <= 57) || s[i] == 43 || s[i] == 45 || s[i] == 46
        || s[i] == 101 || s[i] == 69) {
        scan_num(s, i + 1)
    } else {
        i
    }
}

/// Skip one JSON value starting at `i`, by shape: a string, an object, an
/// array, a literal or a number run.  Yields the position just past it.
/// This serves only to pass over the value of an unknown member; it does
/// not validate it.
pub open spec fn spec_skip_value(s: Seq<u8>, i: int) -> Option<int>
    decreases s.len() - i, 0int,
{
    if i < 0 || i >= s.len() {
        None
    } else if s[i] == 34 {
        match spec_read_string(s, i + 1) {
            None => None,
            Some((_, j)) => Some(j),
        }
    } else if s[i] == 123 {
        spec_skip_members(s, i + 1)
    } else if s[i] == 91 {
        let k = spec_jws(s, i + 1);
        if k < i + 1 || k >= s.len() {
            None
        } else if s[k] == 93 {
            Some(k + 1)
        } else {
            spec_skip_elems(s, k)
        }
    } else if s[i] == 116 || s[i] == 110 {
        if i + 4 <= s.len() {
            Some(i + 4)
        } else {
            None
        }
    } else if s[i] == 102 {
        if i + 5 <= s.len() {
            Some(i + 5)
        } else {
            None
        }
    } else if s[i] == 45 || is_digit(s[i]) {
        Some(spec_scan_num(s, i + 1))
    } else {
        None
    }
}

/// Skip the members of an object, from just past its opening brace (or a
/// separating comma) through its closing brace.
pub open spec fn spec_skip_members(s: Seq<u8>, i: int) -> Option<int>
    decreases s.len() - i, 1int,
{
    let k = spec_jws(s, i);
    if k < i || k >= s.len() {
        None
    } else if s[k] == 125 {
        Some(k + 1)
    } else if s[k] != 34 {
        None
    } else {
        match spec_read_string(s, k + 1) {
            None => None,
            Some((_, e)) => if e <= k || e > s.len() {
                None
            } else {
                let c = spec_jws(s, e);
                if c < e || !(c < s.len() && s[c] == 58) {
                    None
                } else {
                    let w = spec_jws(s, c + 1);
                    if w < c + 1 || w > s.len() {
                        None
                    } else {
                        match spec_skip_value(s, w) {
                            None => None,
                            Some(j) => if j <= i || j > s.len() {
                                None
                            } else {
                                let t = spec_jws(s, j);
                                if t < j || t > s.len() {
                                    None
                                } else if t < s.len() && s[t] == 44 {
                                    spec_skip_members(s, t + 1)
                                } else if t < s.len() && s[t] == 125 {
                                    Some(t + 1)
                                } else {
                                    None
                                }
                            },
                        }
                    }
                }
            },
        }
    }
}

/// Skip the elements of an array, from its first element through its
/// closing bracket.
pub open spec fn spec_skip_elems(s: Seq<u8>, i: int) -> Option<int>
    decreases s.len() - i, 1int,
{
    if i < 0 {
        None
    } else {
        match spec_skip_value(s, i) {
            None => None,
            Some(j) => if j <= i || j > s.len() {
                None
            } else {
                let t = spec_jws(s, j);
                if t < j || t > s.len() {
                    None
                } else if t < s.len() && s[t] == 93 {
                    Some(t + 1)
                } else if t < s.len() && s[t] == 44 {
                    let w = spec_jws(s, t + 1);
                    if w < t + 1 || w > s.len() {
                        None
                    } else {
                        spec_skip_elems(s, w)
                    }
                } else {
                    None
                }
            },
        }
    }
}

/// Mirrors `spec_skip_value`.
pub fn skip_value(s: &Vec<u8>, i: usize) -> (r: Option<usize>)
    requires
        i <= s.len(),
    ensures
        match r {
            Some(j) => spec_skip_value(s@, i as int) == Some(j as int) && i < j <= s.len(),
            None => spec_skip_value(s@, i as int) is None,
        },
    decreases s.len() - i, 0int,
{
    if i >= s.len() {
        None
    } else if s[i] == 34 {
        match read_string(s, i + 1) {
            None => None,
            Some((_, j)) => Some(j),
        }
    } else if s[i] == 123 {
        skip_members(s, i + 1)
    } else if s[i] == 91 {
        let k = jws(s, i + 1);
        if k >= s.len() {
            None
        } else if s[k] == 93 {
            Some(k + 1)
        } else {
            skip_elems(s, k)
        }
    } else if s[i] == 116 || s[i] == 110 {
        if s.len() - i >= 4 {
            Some(i + 4)
        } else {
            None
        }
    } else if s[i] == 102 {
        if s.len() - i >= 5 {
            Some(i + 5)
        } else {
            None
        }
    } else if s[i] == 45 || (48 <= s[i] && s[i] <= 57) {
        Some(scan_num(s, i + 1))
    } else {
        None
    }
}

/// Mirrors `spec_skip_members`.
fn skip_members(s: &Vec<u8>, i: usize) -> (r: Option<usize>)
    requires
        i <= s.len(),
    ensures
        match r {
            Some(j) => spec_skip_members(s@, i as int) == Some(j as int) && i <= j <= s.len(),
            None => spec_skip_members(s@, i as int) is None,
        },
    decreases s.len() - i, 1int,
{
    let k = jws(s, i);
    if k >= s.len() {
        None
    } else if s[k] == 125 {
        Some(k + 1)
    } else if s[k] != 34 {
        None
    } else {
        match read_string(s, k + 1) {
            None => None,
            Some((_, e)) => {
                let c = jws(s, e);
                if !(c < s.len() && s[c] == 58) {
                    return None;
                }
                let w = jws(s, c + 1);
                match skip_value(s, w) {
                    None => None,
                    Some(j) => {
                        let t = jws(s, j);
                        if t < s.len() && s[t] == 44 {
                            skip_members(s, t + 1)
                        } else if t < s.len() && s[t] == 125 {
                            Some(t + 1)
                        } else {
                            None
                        }
                    },
                }
            },
        }
    }
}

/// Mirrors `spec_skip_elems`.
fn skip_elems(s: &Vec<u8>, i: usize) -> (r: Option<usize>)
    requires
        i <= s.len(),
    ensures
        match r {
            Some(j) => spec_skip_elems(s@, i as int) == Some(j as int) && i < j <= s.len(),
            None => spec_skip_elems(s@, i as int) is None,
        },
    decreases s.len() - i, 1int,
{
    match skip_value(s, i) {
        None => None,
        Some(j) => {
            let t = jws(s, j);
            if t < s.len() && s[t] == 93 {
                Some(t + 1)
            } else if t < s.len() && s[t] == 44 {
                let w = jws(s, t + 1);
                skip_elems(s, w)
            } else {
                None
            }
        },
    }
}

} // verus!
