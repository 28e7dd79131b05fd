//! Byte-level codec primitives: decimal digit runs and helpers on byte
//! vectors, with round-trip lemmas for the digits.

use vstd::prelude::*;

verus! {

/// Largest value an upstream integer field may take (it is stored as `i32`).
pub const MAX_ID: u32 = 0x7fff_ffff;

pub open spec fn is_digit(b: u8) -> bool {
    48 <= b <= 57
}

/// The decimal digits of a non-negative integer, most significant first.
pub open spec fn spec_digits(n: int) -> Seq<u8>
    decreases n,
{
    if n < 10 {
        seq![(48 + n) as u8]
    } else {
        spec_digits(n / 10).push((48 + n % 10) as u8)
    }
}

/// Reading a digit run left to right, accumulating into `acc`.
pub open spec fn fold_digits(acc: int, r: Seq<u8>) -> int
    decreases r.len(),
{
    if r.len() == 0 {
        acc
    } else {
        fold_digits(acc * 10 + (r[0] - 48), r.drop_first())
    }
}

/// Scan a digit run starting at `i`, accumulating into `acc`; stops at the
/// first non-digit (or the end) and refuses values above `MAX_ID`.
/// Returns the value and the index just past the run.
pub open spec fn spec_parse_digits(s: Seq<u8>, i: int, acc: int) -> Option<(int, int)>
    decreases s.len() - i,
{
    if i < 0 || i > s.len() {
        None
    } else if i == s.len() || !is_digit(s[i]) {
        Some((acc, i))
    } else if acc * 10 + (s[i] - 48) > MAX_ID {
        None
    } else {
        spec_parse_digits(s, i + 1, acc * 10 + (s[i] - 48))
    }
}

/// Digits of a non-negative integer, most significant first.
pub fn u32_digits(n: u32) -> (r: Vec<u8>)
    ensures
        r@ == spec_digits(n as int),
    decreases n,
{
    if n < 10 {
        let mut v: Vec<u8> = Vec::new();
        v.push(48 + (n as u8));
        proof {
            assert(v@ =~= spec_digits(n as int));
        }
        v
    } else {
        let mut v = u32_digits(n / 10);
        v.push(48 + ((n % 10) as u8));
        v
    }
}

/// Scan a digit run; mirrors `spec_parse_digits`.
pub fn parse_digits(s: &Vec<u8>, i: usize, acc: u32) -> (r: Option<(u32, usize)>)
    requires
        i <= s.len(),
        acc <= MAX_ID,
    ensures
        match r {
            Some((v, j)) => {
                &&& spec_parse_digits(s@, i as int, acc as int) == Some((v as int, j as int))
                &&& v <= MAX_ID
                &&& i <= j <= s.len()
            },
            None => spec_parse_digits(s@, i as int, acc as int) is None,
        },
    decreases s.len() - i,
{
    if i == s.len() || !(48 <= s[i] && s[i] <= 57) {
        Some((acc, i))
    } else {
        let step: u64 = (acc as u64) * 10 + ((s[i] - 48) as u64);
        if step > MAX_ID as u64 {
            None
        } else {
            parse_digits(s, i + 1, step as u32)
        }
    }
}

pub proof fn lemma_digits_shape(n: int)
    requires
        0 <= n,
    ensures
        spec_digits(n).len() >= 1,
        forall|k: int| 0 <= k < spec_digits(n).len() ==> is_digit(#[trigger] spec_digits(n)[k]),
    decreases n,
{
    if n >= 10 {
        lemma_digits_shape(n / 10);
    }
}

/// Appending one digit to a run multiplies the folded value by ten.
pub proof fn lemma_fold_snoc(acc: int, r: Seq<u8>, d: u8)
    ensures
        fold_digits(acc, r.push(d)) == fold_digits(acc, r) * 10 + (d - 48),
    decreases r.len(),
{
    reveal_with_fuel(fold_digits, 3);
    if r.len() == 0 {
        assert(r.push(d)[0] == d);
        assert(r.push(d).drop_first() =~= Seq::<u8>::empty());
        assert(fold_digits(acc, r.push(d)) == acc * 10 + (d - 48));
    } else {
        assert(r.push(d)[0] == r[0]);
        assert(r.push(d).drop_first() =~= r.drop_first().push(d));
        lemma_fold_snoc(acc * 10 + (r[0] - 48), r.drop_first(), d);
    }
}

/// Folding the digits of `n` from zero recovers `n`.
pub proof fn lemma_fold_of_digits(n: int)
    requires
        0 <= n,
    ensures
        fold_digits(0, spec_digits(n)) == n,
    decreases n,
{
    reveal_with_fuel(fold_digits, 3);
    if n < 10 {
        assert(spec_digits(n)[0] == (48 + n) as u8);
        assert(spec_digits(n).drop_first() =~= Seq::<u8>::empty());
        assert(fold_digits(0, spec_digits(n)) == (48 + n) as u8 - 48);
    } else {
        lemma_fold_of_digits(n / 10);
        lemma_fold_snoc(0, spec_digits(n / 10), (48 + n % 10) as u8);
        assert((48 + n % 10) as u8 - 48 == n % 10);
        assert(n / 10 * 10 + n % 10 == n) by (nonlinear_arith);
    }
}

/// Folding a digit run never falls below the accumulator it started from.
pub proof fn lemma_fold_ge_acc(acc: int, r: Seq<u8>)
    requires
        0 <= acc,
        forall|k: int| 0 <= k < r.len() ==> is_digit(#[trigger] r[k]),
    ensures
        fold_digits(acc, r) >= acc,
    decreases r.len(),
{
    if r.len() > 0 {
        assert(acc * 10 >= acc) by (nonlinear_arith)
            requires 0 <= acc;
        lemma_fold_ge_acc(acc * 10 + (r[0] - 48), r.drop_first());
    }
}

/// Scanning a digit run that ends at a non-digit (or at the end of the
/// input) yields the folded value and stops exactly at the boundary.
pub proof fn lemma_parse_digit_run(s: Seq<u8>, i: int, acc: int, j: int)
    requires
        0 <= i <= j <= s.len(),
        forall|k: int| i <= k < j ==> is_digit(#[trigger] s[k]),
        j == s.len() || !is_digit(s[j]),
        0 <= acc,
        fold_digits(acc, s.subrange(i, j)) <= MAX_ID,
    ensures
        spec_parse_digits(s, i, acc) == Some((fold_digits(acc, s.subrange(i, j)), j)),
    decreases j - i,
{
    let run = s.subrange(i, j);
    if i == j {
        assert(run =~= Seq::<u8>::empty());
    } else {
        assert(run[0] == s[i]);
        let acc2 = acc * 10 + (s[i] - 48);
        assert(run.drop_first() =~= s.subrange(i + 1, j));
        assert(fold_digits(acc, run) == fold_digits(acc2, s.subrange(i + 1, j)));
        lemma_fold_ge_acc(acc2, s.subrange(i + 1, j));
        lemma_parse_digit_run(s, i + 1, acc2, j);
    }
}

/// When `e` stands in `s` at position `i`, any window of `e` stands in `s`
/// at the shifted position.
pub proof fn lemma_subrange_of_matching(s: Seq<u8>, i: int, e: Seq<u8>, a: int, b: int)
    requires
        0 <= i,
        i + e.len() <= s.len(),
        s.subrange(i, i + e.len()) == e,
        0 <= a <= b <= e.len(),
    ensures
        s.subrange(i + a, i + b) == e.subrange(a, b),
{
    assert forall|k: int| 0 <= k < b - a implies s.subrange(i + a, i + b)[k] == e.subrange(a, b)[k] by {
        assert(s.subrange(i, i + e.len())[a + k] == e[a + k]);
    }
    assert(s.subrange(i + a, i + b) =~= e.subrange(a, b));
}

/// Whether two byte vectors hold the same bytes.
pub fn eq_bytes(a: &Vec<u8>, b: &Vec<u8>) -> (r: bool)
    ensures
        r == (a@ == b@),
{
    if a.len() != b.len() {
        return false;
    }
    let mut k: usize = 0;
    while k < a.len()
        invariant
            a.len() == b.len(),
            k <= a.len(),
            forall|m: int| 0 <= m < k ==> a@[m] == b@[m],
        decreases a.len() - k,
    {
        if a[k] != b[k] {
            return false;
        }
        k = k + 1;
    }
    proof {
        assert(a@ =~= b@);
    }
    true
}

/// A fresh copy of `s[i..j]`.
pub fn copy_range(s: &Vec<u8>, i: usize, j: usize) -> (r: Vec<u8>)
    requires
        i <= j <= s.len(),
    ensures
        r@ == s@.subrange(i as int, j as int),
{
    let mut r: Vec<u8> = Vec::new();
    let mut k: usize = i;
    while k < j
        invariant
            i <= k <= j <= s.len(),
            r@ == s@.subrange(i as int, k as int),
        decreases j - k,
    {
        r.push(s[k]);
        proof {
            assert(s@.subrange(i as int, k + 1) =~= s@.subrange(i as int, k as int).push(s@[k as int]));
        }
        k = k + 1;
    }
    r
}

/// Appends `src` to `dst`.
pub fn append_bytes(dst: &mut Vec<u8>, src: &Vec<u8>)
    ensures
        final(dst)@ == old(dst)@ + src@,
{
    let mut k: usize = 0;
    while k < src.len()
        invariant
            k <= src.len(),
            dst@ == old(dst)@ + src@.subrange(0, k as int),
        decreases src.len() - k,
    {
        dst.push(src[k]);
        proof {
            assert(src@.subrange(0, k + 1) =~= src@.subrange(0, k as int).push(src@[k as int]));
            assert(dst@ =~= old(dst)@ + src@.subrange(0, k + 1));
        }
        k = k + 1;
    }
    proof {
        assert(src@.subrange(0, src@.len() as int) =~= src@);
    }
}

} // verus!
