//! User ids carried in media track publisher identifiers.
use vstd::prelude::*;

verus! {

pub open spec fn is_digit(c: char) -> bool {
    48 <= (c as u32) <= 57
}

/// Value of a string of decimal digits.
pub open spec fn digits_value(cs: Seq<char>) -> int
    decreases cs.len(),
{
    if cs.len() == 0 {
        0
    } else {
        digits_value(cs.drop_last()) * 10 + ((cs.last() as u32) - 48)
    }
}

/// The digits of a publisher identifier: all of it, after an optional `+`.
pub open spec fn id_digits(cs: Seq<char>) -> Seq<char> {
    if cs.len() > 0 && cs[0] == '+' {
        cs.subrange(1, cs.len() as int)
    } else {
        cs
    }
}

pub open spec fn all_digits(ds: Seq<char>) -> bool {
    forall|i: int| 0 <= i < ds.len() ==> is_digit(#[trigger] ds[i])
}

/// The user id that a publisher identifier names: one or more decimal
/// digits, optionally after `+`, whose value fits in a `u64`.
pub open spec fn parsed_user_id(cs: Seq<char>) -> Option<u64> {
    let ds = id_digits(cs);
    if ds.len() > 0 && all_digits(ds) && digits_value(ds) <= u64::MAX {
        Some(digits_value(ds) as u64)
    } else {
        None
    }
}

proof fn lemma_digits_grow(cs: Seq<char>, k: int)
    requires
        0 <= k <= cs.len(),
        forall|i: int| 0 <= i < cs.len() ==> is_digit(#[trigger] cs[i]),
    ensures
        digits_value(cs.subrange(0, k)) <= digits_value(cs),
        0 <= digits_value(cs.subrange(0, k)),
    decreases cs.len() - k,
{
    if k < cs.len() {
        let next = cs.subrange(0, k + 1);
        assert(next.drop_last() =~= cs.subrange(0, k));
        assert(forall|i: int| 0 <= i < next.len() ==> is_digit(#[trigger] next[i]) ==> is_digit(cs[i]));
        lemma_digits_grow(cs, k + 1);
        lemma_digits_nonneg(cs.subrange(0, k));
    } else {
        assert(cs.subrange(0, k) =~= cs);
        lemma_digits_nonneg(cs);
    }
}

proof fn lemma_digits_nonneg(cs: Seq<char>)
    requires
        forall|i: int| 0 <= i < cs.len() ==> is_digit(#[trigger] cs[i]),
    ensures
        0 <= digits_value(cs),
    decreases cs.len(),
{
    if cs.len() > 0 {
        let d = cs.drop_last();
        assert(forall|i: int| 0 <= i < d.len() ==> is_digit(#[trigger] d[i]) ==> is_digit(cs[i]));
        assert forall|i: int| 0 <= i < d.len() implies is_digit(#[trigger] d[i]) by {
            assert(d[i] == cs[i]);
        }
        lemma_digits_nonneg(d);
        assert(is_digit(cs[cs.len() - 1]));
    }
}

/// Reads the user id out of a track publisher identifier.
pub fn parse_user_id(s: &str) -> (r: Option<u64>)
    ensures
        r == parsed_user_id(s@),
{
    let n = s.unicode_len();
    let mut start: usize = 0;
    if n > 0 && s.get_char(0) == '+' {
        start = 1;
    }
    let ghost ds = id_digits(s@);
    assert(ds =~= s@.subrange(start as int, n as int));
    if start >= n {
        return None;
    }
    let mut value: u64 = 0;
    let mut i: usize = start;
    while i < n
        invariant
            start <= i <= n,
            n == s@.len(),
            ds == s@.subrange(start as int, n as int),
            ds == id_digits(s@),
            forall|k: int| 0 <= k < i - start ==> is_digit(#[trigger] ds[k]),
            value as int == digits_value(ds.subrange(0, i - start)),
        decreases n - i,
    {
        let c = s.get_char(i);
        let ghost k = i - start;
        assert(ds[k] == c);
        let cu = c as u32;
        if !(48 <= cu && cu <= 57) {
            assert(!is_digit(ds[k]));
            assert(!all_digits(ds));
            assert(parsed_user_id(s@) is None);
            return None;
        }
        let d = (cu - 48) as u64;
        let ghost next = ds.subrange(0, k + 1);
        assert(next.drop_last() =~= ds.subrange(0, k));
        assert(next.last() == c);
        let step = match value.checked_mul(10) {
            Some(t) => t.checked_add(d),
            None => None,
        };
        match step {
            Some(v) => {
                value = v;
            },
            None => {
                proof {
                    assert(digits_value(next) == value * 10 + d);
                    assert(digits_value(next) > u64::MAX);
                    if all_digits(ds) {
                        lemma_digits_grow(ds, k + 1);
                        assert(digits_value(ds) > u64::MAX);
                    }
                    assert(parsed_user_id(s@) is None);
                }
                return None;
            },
        }
        i = i + 1;
    }
    assert(ds.subrange(0, n - start) =~= ds);
    Some(value)
}

} // verus!
