//! Rules on the decimal digits of a number, and counting the numbers of a
//! range that keep them. A sign is no digit: it never equals a digit and
//! sorts before all of them, so it changes no rule.
use crate::text::{chars_of, field_bounds, fields, i32_value, parse_i32, trim, trim_bounds};
use vstd::prelude::*;

verus! {

/// A range bound line that is not two `i32`s joined by a dash.
#[derive(Clone, Copy, Debug, PartialEq, Eq, Structural)]
pub struct InputError;

/// The decimal digits of `m`, most significant first.
pub open spec fn digits(m: nat) -> Seq<u8>
    decreases m,
{
    if m < 10 {
        seq![m as u8]
    } else {
        digits(m / 10).push((m % 10) as u8)
    }
}

pub open spec fn abs(n: int) -> nat {
    if n < 0 {
        (-n) as nat
    } else {
        n as nat
    }
}

/// Two adjacent digits are equal.
pub open spec fn has_pair(ds: Seq<u8>) -> bool {
    exists|i: int| 0 <= i < ds.len() - 1 && #[trigger] ds[i] == ds[i + 1]
}

/// Two adjacent digits are equal and belong to no longer run.
pub open spec fn has_exact_pair(ds: Seq<u8>) -> bool {
    exists|i: int| 0 <= i < ds.len() - 1 && #[trigger] exact_pair_at(ds, i)
}

pub open spec fn exact_pair_at(ds: Seq<u8>, i: int) -> bool {
    &&& ds[i] == ds[i + 1]
    &&& (i == 0 || ds[i - 1] != ds[i])
    &&& (i + 2 >= ds.len() || ds[i + 2] != ds[i])
}

/// No digit is smaller than the one before it.
pub open spec fn nondecreasing(ds: Seq<u8>) -> bool {
    forall|i: int| 0 <= i < ds.len() - 1 ==> #[trigger] ds[i] <= ds[i + 1]
}

/// `number` is a candidate: digits never decrease and some two adjacent
/// are equal (with `exact`, some two adjacent equal digits form a run of
/// exactly two).
pub open spec fn candidate(number: int, exact: bool) -> bool {
    let ds = digits(abs(number));
    nondecreasing(ds) && if exact {
        has_exact_pair(ds)
    } else {
        has_pair(ds)
    }
}

/// How many numbers of `lo..hi` are candidates.
pub open spec fn candidates_in(lo: int, hi: int, exact: bool) -> nat
    decreases hi - lo,
{
    if hi <= lo {
        0
    } else {
        candidates_in(lo, hi - 1, exact) + if candidate(hi - 1, exact) {
            1nat
        } else {
            0nat
        }
    }
}

/// The decimal digits of `number` without its sign.
fn digits_of(number: i32) -> (r: Vec<u8>)
    ensures
        r@ == digits(abs(number as int)),
        r@.len() >= 1,
{
    let mut m: u32 = if number < 0 {
        (0 - (number as i64)) as u32
    } else {
        number as u32
    };
    let ghost whole = abs(number as int);
    let mut ds: Vec<u8> = Vec::new();
    assert(digits(whole) =~= digits(m as nat) + ds@);
    loop
        invariant
            whole == abs(number as int),
            digits(whole) == digits(m as nat) + ds@,
        decreases m,
    {
        if m < 10 {
            ds.insert(0, m as u8);
            assert(digits(whole) =~= ds@);
            return ds;
        }
        let ghost prev = ds@;
        ds.insert(0, (m % 10) as u8);
        assert(digits(m as nat) + prev =~= digits((m / 10) as nat) + ds@);
        m = m / 10;
    }
}

/// Some two adjacent digits of `number` are equal.
#[verifier::loop_isolation(false)]
pub fn has_double_digits_at_least_once(number: i32) -> (r: bool)
    ensures
        r == has_pair(digits(abs(number as int))),
{
    let ds = digits_of(number);
    let n = ds.len();
    let mut i: usize = 0;
    while i < n - 1
        invariant
            i <= n - 1,
            forall|j: int| 0 <= j < i ==> #[trigger] ds@[j] != ds@[j + 1],
        decreases ds@.len() - i,
    {
        if ds[i] == ds[i + 1] {
            return true;
        }
        i = i + 1;
    }
    false
}

/// The digits of `number` never decrease.
#[verifier::loop_isolation(false)]
pub fn digits_form_nondecreasing_sequence(number: i32) -> (r: bool)
    ensures
        r == nondecreasing(digits(abs(number as int))),
{
    let ds = digits_of(number);
    let n = ds.len();
    let mut i: usize = 0;
    while i < n - 1
        invariant
            i <= n - 1,
            forall|j: int| 0 <= j < i ==> #[trigger] ds@[j] <= ds@[j + 1],
        decreases ds@.len() - i,
    {
        if ds[i + 1] < ds[i] {
            return false;
        }
        i = i + 1;
    }
    true
}

/// Some two adjacent digits of `number` are equal and form a run of
/// exactly two.
#[verifier::loop_isolation(false)]
pub fn has_exact_double_digits_at_least_once(number: i32) -> (r: bool)
    ensures
        r == has_exact_pair(digits(abs(number as int))),
{
    let ds = digits_of(number);
    let n = ds.len();
    let mut i: usize = 0;
    while i < n - 1
        invariant
            i <= n - 1,
            forall|j: int| 0 <= j < i ==> !#[trigger] exact_pair_at(ds@, j),
        decreases n - i,
    {
        if ds[i] == ds[i + 1] && (i == 0 || ds[i - 1] != ds[i]) && (i + 2 >= n || ds[i + 2]
            != ds[i]) {
            assert(exact_pair_at(ds@, i as int));
            return true;
        }
        i = i + 1;
    }
    false
}

/// `number` is a candidate, as `candidate` says.
pub fn is_candidate(number: i32, exact: bool) -> (r: bool)
    ensures
        r == candidate(number as int, exact),
{
    digits_form_nondecreasing_sequence(number) && if exact {
        has_exact_double_digits_at_least_once(number)
    } else {
        has_double_digits_at_least_once(number)
    }
}

/// How many numbers of `lbound..ubound` are candidates.
pub fn count_candidates(lbound: i32, ubound: i32, exact: bool) -> (r: u64)
    ensures
        r == candidates_in(lbound as int, ubound as int, exact),
{
    if ubound <= lbound {
        return 0;
    }
    let mut count: u64 = 0;
    let mut n: i32 = lbound;
    while n < ubound
        invariant
            lbound <= n <= ubound,
            count == candidates_in(lbound as int, n as int, exact),
            count <= n - lbound,
        decreases ubound - n,
    {
        if is_candidate(n, exact) {
            count = count + 1;
        }
        n = n + 1;
    }
    count
}

/// The bounds written as `lo-hi` (with whitespace around): the first two
/// dash-separated pieces, each an `i32`.
pub open spec fn range_bounds(text: Seq<char>) -> Option<(i32, i32)> {
    let fs = fields(trim(text), '-');
    if fs.len() >= 2 && i32_value(fs[0]) is Some && i32_value(fs[1]) is Some {
        Some((i32_value(fs[0])->Some_0, i32_value(fs[1])->Some_0))
    } else {
        None
    }
}

/// Reads the bounds of a range written as `lo-hi`.
pub fn parse_range(text: &str) -> (r: Result<(i32, i32), InputError>)
    ensures
        match range_bounds(text@) {
            Some(b) => r == Ok::<(i32, i32), InputError>(b),
            None => r == Err::<(i32, i32), InputError>(InputError),
        },
{
    let chars = chars_of(text);
    let (lo, hi) = trim_bounds(chars.as_slice());
    let bounds = field_bounds(chars.as_slice(), lo, hi, '-');
    if bounds.len() < 2 {
        return Err(InputError);
    }
    let (a0, b0) = bounds[0];
    let (a1, b1) = bounds[1];
    assert(bounds@[0] == (a0, b0));
    assert(bounds@[1] == (a1, b1));
    match (parse_i32(chars.as_slice(), a0, b0), parse_i32(chars.as_slice(), a1, b1)) {
        (Some(x), Some(y)) => Ok((x, y)),
        _ => Err(InputError),
    }
}

} // verus!
