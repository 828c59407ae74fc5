//! Searching, comparing and decimal conversion on byte sequences.

use vstd::prelude::*;

verus! {

/// `d` stands in `s` at index `i`.
pub open spec fn matches_at(s: Seq<u8>, d: Seq<u8>, i: int) -> bool {
    0 <= i && i + d.len() <= s.len() && s.subrange(i, i + d.len()) == d
}

/// The index of the first occurrence of `d` in `s` that starts at or after
/// `from`, if there is one.
pub open spec fn find_from(s: Seq<u8>, d: Seq<u8>, from: int) -> Option<int>
    decreases s.len() + 1 - from,
{
    if from < 0 || from + d.len() > s.len() {
        None
    } else if matches_at(s, d, from) {
        Some(from)
    } else {
        find_from(s, d, from + 1)
    }
}

/// The index of the first occurrence of `d` in `s`, if there is one.
pub open spec fn find_first(s: Seq<u8>, d: Seq<u8>) -> Option<int> {
    find_from(s, d, 0)
}

/// What `find_from` returns is the least matching index from `from` on.
pub proof fn lemma_find_from(s: Seq<u8>, d: Seq<u8>, from: int)
    requires
        0 <= from,
    ensures
        match find_from(s, d, from) {
            Some(i) => from <= i && matches_at(s, d, i) && forall|j: int|
                from <= j < i ==> !matches_at(s, d, j),
            None => forall|j: int| from <= j ==> !matches_at(s, d, j),
        },
    decreases s.len() + 1 - from,
{
    if from + d.len() > s.len() {
    } else if matches_at(s, d, from) {
    } else {
        lemma_find_from(s, d, from + 1);
    }
}

/// The least matching index from `from` on is what `find_from` returns.
pub proof fn lemma_find_from_least(s: Seq<u8>, d: Seq<u8>, from: int, i: int)
    requires
        0 <= from <= i,
        matches_at(s, d, i),
        forall|j: int| from <= j < i ==> !matches_at(s, d, j),
    ensures
        find_from(s, d, from) == Some(i),
    decreases i - from,
{
    if from < i {
        lemma_find_from_least(s, d, from + 1, i);
    }
}

/// Without a matching index from `from` on, `find_from` returns nothing.
pub proof fn lemma_find_from_none(s: Seq<u8>, d: Seq<u8>, from: int)
    requires
        0 <= from,
        forall|j: int| from <= j ==> !matches_at(s, d, j),
    ensures
        find_from(s, d, from) is None,
    decreases s.len() + 1 - from,
{
    if from + d.len() <= s.len() {
        lemma_find_from_none(s, d, from + 1);
    }
}

/// Tells whether two byte slices hold the same bytes.
pub fn bytes_eq(a: &[u8], b: &[u8]) -> (r: bool)
    ensures
        r == (a@ == b@),
{
    if a.len() != b.len() {
        return false;
    }
    let mut i: usize = 0;
    while i < a.len()
        invariant
            a@.len() == b@.len(),
            0 <= i <= a@.len(),
            forall|j: int| 0 <= j < i ==> a@[j] == b@[j],
        decreases a@.len() - i,
    {
        if a[i] != b[i] {
            return false;
        }
        i += 1;
    }
    assert(a@ =~= b@);
    true
}

/// Tells whether `d` stands in `s` at index `i`.
pub fn starts_at(s: &[u8], d: &[u8], i: usize) -> (r: bool)
    ensures
        r == matches_at(s@, d@, i as int),
{
    if d.len() > s.len() || i > s.len() - d.len() {
        return false;
    }
    let mut k: usize = 0;
    while k < d.len()
        invariant
            i + d.len() <= s.len(),
            0 <= k <= d.len(),
            forall|j: int| 0 <= j < k ==> s@[i + j] == d@[j],
        decreases d@.len() - k,
    {
        if s[i + k] != d[k] {
            assert(s@.subrange(i as int, i + d@.len())[k as int] != d@[k as int]);
            return false;
        }
        k += 1;
    }
    assert(s@.subrange(i as int, i + d@.len()) =~= d@);
    true
}

/// Finds the first occurrence of `d` in `s` that starts at or after `from`.
pub fn find(s: &[u8], d: &[u8], from: usize) -> (r: Option<usize>)
    ensures
        match r {
            Some(i) => find_from(s@, d@, from as int) == Some(i as int),
            None => find_from(s@, d@, from as int) is None,
        },
{
    let mut i: usize = from;
    while i <= s.len() && d.len() <= s.len() - i
        invariant
            from <= i,
            find_from(s@, d@, from as int) == find_from(s@, d@, i as int),
        decreases s@.len() + 1 - i,
    {
        if starts_at(s, d, i) {
            return Some(i);
        }
        proof {
            if d@.len() == 0 {
                assert(s@.subrange(i as int, i as int) =~= d@);
            }
        }
        i += 1;
    }
    None
}

/// Appends the bytes of `s` to `out`.
pub fn append(out: &mut Vec<u8>, s: &[u8])
    ensures
        final(out)@ == old(out)@ + s@,
{
    out.extend_from_slice(s);
    assert(out@ =~= old(out)@ + s@);
}

/// The decimal digits of `n`, most significant first, as ASCII bytes.
pub open spec fn decimal(n: nat) -> Seq<u8>
    decreases n,
{
    if n < 10 {
        seq![(48 + n) as u8]
    } else {
        decimal(n / 10).push((48 + n % 10) as u8)
    }
}

/// Writes `n` in decimal.
pub fn to_decimal(n: usize) -> (r: Vec<u8>)
    ensures
        r@ == decimal(n as nat),
    decreases n,
{
    if n < 10 {
        let d: u8 = 48 + n as u8;
        let r = vec![d];
        assert(r@ =~= decimal(n as nat));
        r
    } else {
        let mut r = to_decimal(n / 10);
        let d: u8 = 48 + (n % 10) as u8;
        r.push(d);
        r
    }
}

/// Every byte of `s` is an ASCII digit, and there is at least one.
pub open spec fn is_digits(s: Seq<u8>) -> bool {
    s.len() > 0 && forall|i: int| 0 <= i < s.len() ==> 48 <= #[trigger] s[i] <= 57
}

/// The number that the digits of `s` spell in decimal.
pub open spec fn digits_value(s: Seq<u8>) -> nat
    decreases s.len(),
{
    if s.len() == 0 {
        0
    } else {
        (digits_value(s.drop_last()) * 10 + (s.last() - 48)) as nat
    }
}

/// The digits of `s` once an optional leading `+` is taken off.
pub open spec fn unsigned_digits(s: Seq<u8>) -> Seq<u8> {
    if s.len() > 0 && s[0] == 43 {
        s.skip(1)
    } else {
        s
    }
}

/// The count that `s` spells: an optional `+`, then decimal digits whose
/// value fits in a `usize`.
pub open spec fn count_of(s: Seq<u8>) -> Option<usize> {
    let digits = unsigned_digits(s);
    if is_digits(digits) && digits_value(digits) <= usize::MAX {
        Some(digits_value(digits) as usize)
    } else {
        None
    }
}

/// A longer run of digits spells no smaller a number than its prefix.
pub proof fn lemma_digits_value_grows(s: Seq<u8>, k: int)
    requires
        0 <= k <= s.len(),
        forall|i: int| 0 <= i < s.len() ==> 48 <= #[trigger] s[i] <= 57,
    ensures
        digits_value(s.take(k)) <= digits_value(s),
    decreases s.len() - k,
{
    if k == s.len() {
        assert(s.take(k) =~= s);
    } else {
        lemma_digits_value_grows(s, k + 1);
        assert(s.take(k + 1).drop_last() =~= s.take(k));
    }
}

/// The decimal digits of a number are digits, and spell that number.
pub proof fn lemma_decimal_digits(n: nat)
    ensures
        is_digits(decimal(n)),
        digits_value(decimal(n)) == n,
    decreases n,
{
    if n < 10 {
        assert(decimal(n).drop_last() =~= Seq::<u8>::empty());
        assert(digits_value(decimal(n).drop_last()) == 0);
    } else {
        lemma_decimal_digits(n / 10);
        assert(decimal(n).drop_last() =~= decimal(n / 10));
    }
}

/// A count that was written in decimal reads back as itself.
pub proof fn lemma_decimal_reads_back(n: usize)
    ensures
        count_of(decimal(n as nat)) == Some(n),
{
    lemma_decimal_digits(n as nat);
    assert(decimal(n as nat)[0] != 43);
}

/// Reads a count written as an optional `+` and decimal digits.
pub fn parse_count(s: &[u8]) -> (r: Option<usize>)
    ensures
        r == count_of(s@),
{
    let start: usize = if s.len() > 0 && s[0] == 43 { 1 } else { 0 };
    let ghost digits = unsigned_digits(s@);
    assert(digits =~= s@.subrange(start as int, s@.len() as int));
    if start == s.len() {
        return None;
    }
    let mut acc: usize = 0;
    let mut i: usize = start;
    while i < s.len()
        invariant
            start <= i <= s@.len(),
            digits == unsigned_digits(s@),
            digits == s@.subrange(start as int, s@.len() as int),
            forall|j: int| 0 <= j < i - start ==> 48 <= #[trigger] digits[j] <= 57,
            acc == digits_value(digits.take(i - start)),
        decreases s@.len() - i,
    {
        let b = s[i];
        if b < 48 || b > 57 {
            assert(digits[i - start] == b);
            return None;
        }
        assert(digits.take(i - start + 1).drop_last() =~= digits.take(i - start));
        assert(digits.take(i - start + 1).last() == b);
        let d: usize = (b - 48) as usize;
        let next = match acc.checked_mul(10) {
            Some(m) => m.checked_add(d),
            None => None,
        };
        match next {
            Some(n) => {
                acc = n;
            },
            None => {
                assert(digits_value(digits.take(i - start + 1)) > usize::MAX);
                assert(digits[i - start] == b);
                proof {
                    if is_digits(digits) {
                        lemma_digits_value_grows(digits, i - start + 1);
                    }
                }
                return None;
            },
        }
        i += 1;
    }
    assert(digits.take(i - start) =~= digits);
    Some(acc)
}

} // verus!
