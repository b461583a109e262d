//! Byte-level helpers shared by the wire codec and the header tables:
//! literal conversion, comparisons, ASCII case folding, decimal formatting
//! and scanning for separators.

use vstd::prelude::*;
use vstd::slice::slice_to_vec;
use vstd::string::StringSliceAdditionalSpecFns;

verus! {

/// ASCII lower-casing of one byte: `A`..`Z` map to `a`..`z`.
pub open spec fn lower_byte(b: u8) -> u8 {
    if 65 <= b <= 90 {
        (b + 32) as u8
    } else {
        b
    }
}

/// ASCII lower-casing of a byte sequence.
pub open spec fn lower_seq(s: Seq<u8>) -> Seq<u8> {
    s.map_values(|b: u8| lower_byte(b))
}

/// The bytes of a string literal, for building wire constants.
pub fn lit_bytes(s: &str) -> (r: Vec<u8>)
    ensures
        r@ == s.spec_bytes(),
{
    slice_to_vec(s.as_bytes())
}

/// Exact byte-sequence equality.
pub fn bytes_eq(a: &[u8], b: &[u8]) -> (r: bool)
    ensures
        r == (a@ == b@),
{
    if a.len() != b.len() {
        assert(a@ != b@) by {
            assert(a@.len() != b@.len());
        }
        return false;
    }
    let n: usize = a.len();
    let mut i: usize = 0;
    while i < n
        invariant
            n == a@.len() == b@.len(),
            0 <= i <= n,
            forall|j: int| 0 <= j < i ==> a@[j] == b@[j],
        decreases n - i,
    {
        if a[i] != b[i] {
            return false;
        }
        i = i + 1;
    }
    assert(a@ =~= b@);
    true
}

/// Byte-sequence equality up to ASCII case.
pub fn bytes_eq_ignore_case(a: &[u8], b: &[u8]) -> (r: bool)
    ensures
        r == (lower_seq(a@) == lower_seq(b@)),
{
    if a.len() != b.len() {
        assert(lower_seq(a@) != lower_seq(b@)) by {
            assert(lower_seq(a@).len() != lower_seq(b@).len());
        }
        return false;
    }
    let n: usize = a.len();
    let mut i: usize = 0;
    while i < n
        invariant
            n == a@.len() == b@.len(),
            0 <= i <= n,
            forall|j: int| 0 <= j < i ==> lower_seq(a@)[j] == lower_seq(b@)[j],
        decreases n - i,
    {
        let x: u8 = a[i];
        let y: u8 = b[i];
        let xl: u8 = if 65 <= x && x <= 90 { x + 32 } else { x };
        let yl: u8 = if 65 <= y && y <= 90 { y + 32 } else { y };
        if xl != yl {
            assert(lower_seq(a@)[i as int] != lower_seq(b@)[i as int]);
            return false;
        }
        i = i + 1;
    }
    assert(lower_seq(a@) =~= lower_seq(b@));
    true
}

/// The decimal digits of `n`, most significant first.
pub open spec fn dec_digits(n: nat) -> Seq<u8>
    decreases n,
{
    if n < 10 {
        seq![(48 + n) as u8]
    } else {
        dec_digits(n / 10) + seq![(48 + n % 10) as u8]
    }
}

/// The number a sequence of decimal digit bytes denotes.
pub open spec fn dec_value(s: Seq<u8>) -> int
    decreases s.len(),
{
    if s.len() == 0 {
        0
    } else {
        dec_value(s.drop_last()) * 10 + (s.last() - 48)
    }
}

/// The decimal digits of `n` denote exactly `n`.
pub proof fn lemma_dec_digits_value(n: nat)
    ensures
        dec_value(dec_digits(n)) == n,
    decreases n,
{
    if n < 10 {
        assert(dec_digits(n) == seq![(48 + n) as u8]);
        assert(dec_digits(n).drop_last() =~= Seq::<u8>::empty());
        assert(dec_value(Seq::<u8>::empty()) == 0);
        assert(dec_digits(n).last() == (48 + n) as u8);
        assert(dec_value(dec_digits(n)) == 0 * 10 + ((48 + n) as u8 - 48));
    } else {
        lemma_dec_digits_value(n / 10);
        let d = dec_digits(n / 10);
        assert(dec_digits(n) == d + seq![(48 + n % 10) as u8]);
        assert((d + seq![(48 + n % 10) as u8]).drop_last() =~= d);
        assert((d + seq![(48 + n % 10) as u8]).last() == (48 + n % 10) as u8);
        assert(dec_value(dec_digits(n)) == dec_value(d) * 10 + ((48 + n % 10) as u8 - 48));
        assert(n / 10 * 10 + n % 10 == n) by {
            vstd::arithmetic::div_mod::lemma_fundamental_div_mod(n as int, 10);
        }
    }
}

/// Format `n` in decimal, as bytes.
pub fn u64_to_dec(n: u64) -> (r: Vec<u8>)
    ensures
        r@ == dec_digits(n as nat),
    decreases n,
{
    if n < 10 {
        let mut v: Vec<u8> = Vec::new();
        v.push(48 + n as u8);
        assert(v@ =~= dec_digits(n as nat));
        v
    } else {
        let mut v = u64_to_dec(n / 10);
        v.push(48 + (n % 10) as u8);
        assert(v@ =~= dec_digits(n as nat));
        v
    }
}

/// Whether every byte is a decimal digit.
pub open spec fn all_digits(s: Seq<u8>) -> bool {
    forall|i: int| 0 <= i < s.len() ==> 48 <= #[trigger] s[i] <= 57
}

proof fn lemma_dec_value_nonneg(s: Seq<u8>)
    requires
        forall|k: int| 0 <= k < s.len() ==> #[trigger] s[k] >= 48,
    ensures
        dec_value(s) >= 0,
    decreases s.len(),
{
    if s.len() > 0 {
        assert(forall|k: int| 0 <= k < s.drop_last().len() ==> #[trigger] s.drop_last()[k] >= 48);
        lemma_dec_value_nonneg(s.drop_last());
    }
}

proof fn lemma_dec_value_mono(s: Seq<u8>, j: int)
    requires
        0 <= j <= s.len(),
        forall|k: int| 0 <= k < s.len() ==> #[trigger] s[k] >= 48,
    ensures
        dec_value(s.take(j)) <= dec_value(s),
    decreases s.len() - j,
{
    if j < s.len() {
        lemma_dec_value_mono(s, j + 1);
        assert(s.take(j + 1).drop_last() =~= s.take(j));
        assert(s.take(j + 1).last() == s[j]);
        assert(forall|k: int| 0 <= k < s.take(j).len() ==> #[trigger] s.take(j)[k] >= 48);
        lemma_dec_value_nonneg(s.take(j));
        assert(dec_value(s.take(j + 1)) == dec_value(s.take(j)) * 10 + (s[j] - 48));
    } else {
        assert(s.take(j) =~= s);
    }
}

/// Parse a decimal number: succeeds exactly on non-empty, all-digit input
/// whose value fits in a `u64`, and then returns that value.
pub fn dec_parse(s: &[u8]) -> (r: Option<u64>)
    ensures
        match r {
            Some(n) => s@.len() > 0 && all_digits(s@) && n == dec_value(s@),
            None => s@.len() == 0 || !all_digits(s@) || dec_value(s@) > u64::MAX,
        },
{
    let n: usize = s.len();
    if n == 0 {
        return None;
    }
    let mut acc: u64 = 0;
    let mut i: usize = 0;
    proof {
        assert(s@.take(0) =~= Seq::<u8>::empty());
    }
    while i < n
        invariant
            0 <= i <= n == s@.len(),
            all_digits(s@.take(i as int)),
            acc == dec_value(s@.take(i as int)),
        decreases n - i,
    {
        let b: u8 = s[i];
        if b < 48 || b > 57 {
            proof {
                assert(!(48 <= s@[i as int] <= 57));
                assert(!all_digits(s@));
            }
            return None;
        }
        let d: u64 = (b - 48) as u64;
        let ghost prev = s@.take(i as int);
        proof {
            assert(s@.take(i + 1).drop_last() =~= prev);
            assert(s@.take(i + 1).last() == s@[i as int]);
            assert(dec_value(s@.take(i + 1)) == dec_value(prev) * 10 + (s@[i as int] - 48));
            assert(forall|k: int| 0 <= k < s@.take(i + 1).len() ==> #[trigger] s@.take(
                i + 1,
            )[k] >= 48);
        }
        let step = match acc.checked_mul(10) {
            Some(x) => x.checked_add(d),
            None => None,
        };
        match step {
            Some(x) => {
                acc = x;
            },
            None => {
                proof {
                    assert(dec_value(s@.take(i + 1)) > u64::MAX);
                    if all_digits(s@) {
                        assert(forall|k: int| 0 <= k < s@.len() ==> #[trigger] s@[k] >= 48);
                        lemma_dec_value_mono(s@, i + 1);
                    }
                }
                return None;
            },
        }
        i = i + 1;
    }
    proof {
        assert(s@.take(n as int) =~= s@);
    }
    Some(acc)
}

/// Copy of the byte range `[a, b)` of `s`.
pub fn copy_range(s: &[u8], a: usize, b: usize) -> (r: Vec<u8>)
    requires
        a <= b <= s@.len(),
    ensures
        r@ == s@.subrange(a as int, b as int),
{
    let mut r: Vec<u8> = Vec::new();
    assert(r@ =~= s@.subrange(a as int, a as int));
    let mut i: usize = a;
    while i < b
        invariant
            a <= i <= b <= s@.len(),
            r@ == s@.subrange(a as int, i as int),
        decreases b - i,
    {
        r.push(s[i]);
        assert(s@.subrange(a as int, i + 1) =~= s@.subrange(a as int, i as int).push(
            s@[i as int],
        ));
        i = i + 1;
    }
    r
}

/// Append all of `src` to `dst`.
pub fn append_bytes(dst: &mut Vec<u8>, src: &[u8])
    ensures
        final(dst)@ == old(dst)@ + src@,
{
    let n: usize = src.len();
    let mut i: usize = 0;
    while i < n
        invariant
            0 <= i <= n == src@.len(),
            dst@ == old(dst)@ + src@.subrange(0, i as int),
        decreases n - i,
    {
        dst.push(src[i]);
        assert(old(dst)@ + src@.subrange(0, i + 1) =~= (old(dst)@ + src@.subrange(
            0,
            i as int,
        )).push(src@[i as int]));
        i = i + 1;
    }
    assert(src@.subrange(0, n as int) =~= src@);
}

/// Index of the first occurrence of `b` in `s` at or after `from`,
/// or `s.len()` if there is none.
pub open spec fn find_byte(s: Seq<u8>, b: u8, from: int) -> int
    decreases s.len() - from,
{
    if from < 0 || from >= s.len() {
        s.len() as int
    } else if s[from] == b {
        from
    } else {
        find_byte(s, b, from + 1)
    }
}

pub proof fn lemma_find_byte(s: Seq<u8>, b: u8, from: int)
    requires
        0 <= from <= s.len(),
    ensures
        from <= find_byte(s, b, from) <= s.len(),
        find_byte(s, b, from) < s.len() ==> s[find_byte(s, b, from)] == b,
        forall|j: int| from <= j < find_byte(s, b, from) ==> s[j] != b,
    decreases s.len() - from,
{
    if from < s.len() && s[from] != b {
        lemma_find_byte(s, b, from + 1);
    }
}

/// Scan for the first occurrence of `b` at or after `from`.
pub fn scan_byte(s: &[u8], b: u8, from: usize) -> (r: usize)
    requires
        from <= s@.len(),
    ensures
        r == find_byte(s@, b, from as int),
{
    let n: usize = s.len();
    let mut i: usize = from;
    while i < n
        invariant
            from <= i <= n == s@.len(),
            forall|j: int| from <= j < i ==> s@[j] != b,
            find_byte(s@, b, from as int) == find_byte(s@, b, i as int),
        decreases n - i,
    {
        if s[i] == b {
            return i;
        }
        i = i + 1;
    }
    n
}

} // verus!
