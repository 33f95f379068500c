//! Reading decimal integers and comma-separated lists of them from text.
use vstd::prelude::*;

verus! {

/// Whitespace as Unicode's White_Space property has it: tab to carriage
/// return, space, next line, no-break space, ogham space mark, the spaces
/// from en quad to hair space, line and paragraph separators, narrow
/// no-break space, medium mathematical space and ideographic space.
pub open spec fn is_space(c: char) -> bool {
    ('\t' <= c <= '\r') || c == ' ' || c == '\u{85}' || c == '\u{a0}' || c == '\u{1680}' || (
    '\u{2000}' <= c <= '\u{200a}') || c == '\u{2028}' || c == '\u{2029}' || c == '\u{202f}'
        || c == '\u{205f}' || c == '\u{3000}'
}

pub open spec fn is_digit(c: char) -> bool {
    '0' <= c <= '9'
}

pub open spec fn all_digits(s: Seq<char>) -> bool {
    forall|i: int| 0 <= i < s.len() ==> is_digit(#[trigger] s[i])
}

/// The number that a sequence of decimal digits spells.
pub open spec fn digits_value(s: Seq<char>) -> int
    decreases s.len(),
{
    if s.len() == 0 {
        0
    } else {
        digits_value(s.drop_last()) * 10 + (s.last() as int - '0' as int)
    }
}

/// The integer that `s` spells: an optional `+` or `-` followed by one or
/// more decimal digits, and nothing else.
pub open spec fn integer_value(s: Seq<char>) -> Option<int> {
    let signed = s.len() > 0 && (s[0] == '-' || s[0] == '+');
    let body = if signed {
        s.drop_first()
    } else {
        s
    };
    if body.len() > 0 && all_digits(body) {
        if signed && s[0] == '-' {
            Some(-digits_value(body))
        } else {
            Some(digits_value(body))
        }
    } else {
        None
    }
}

/// `s` read as an `i32`: an integer as `integer_value` reads it, within range.
pub open spec fn i32_value(s: Seq<char>) -> Option<i32> {
    match integer_value(s) {
        Some(v) => if i32::MIN <= v <= i32::MAX {
            Some(v as i32)
        } else {
            None
        },
        None => None,
    }
}

/// `s` without leading whitespace.
pub open spec fn trim_front(s: Seq<char>) -> Seq<char>
    decreases s.len(),
{
    if s.len() > 0 && is_space(s[0]) {
        trim_front(s.drop_first())
    } else {
        s
    }
}

/// `s` without trailing whitespace.
pub open spec fn trim_back(s: Seq<char>) -> Seq<char>
    decreases s.len(),
{
    if s.len() > 0 && is_space(s.last()) {
        trim_back(s.drop_last())
    } else {
        s
    }
}

/// `s` without leading and trailing whitespace.
pub open spec fn trim(s: Seq<char>) -> Seq<char> {
    trim_back(trim_front(s))
}

/// The pieces of `s` between occurrences of `sep`: one more than the
/// number of separators.
pub open spec fn fields(s: Seq<char>, sep: char) -> Seq<Seq<char>>
    decreases s.len(),
{
    if s.len() == 0 {
        seq![Seq::empty()]
    } else if s.last() == sep {
        fields(s.drop_last(), sep).push(Seq::empty())
    } else {
        let f = fields(s.drop_last(), sep);
        f.update(f.len() - 1, f.last().push(s.last()))
    }
}

/// Every piece of `fs` reads as an `i32`.
pub open spec fn all_i32(fs: Seq<Seq<char>>) -> bool {
    forall|i: int| 0 <= i < fs.len() ==> (#[trigger] i32_value(fs[i])) is Some
}

/// The values of a comma-separated list of `i32`s, with whitespace around
/// the list; `None` when a piece does not read as an `i32`.
pub open spec fn i32_list(s: Seq<char>) -> Option<Seq<i32>> {
    let fs = fields(trim(s), ',');
    if all_i32(fs) {
        Some(fs.map_values(|f: Seq<char>| i32_value(f)->Some_0))
    } else {
        None
    }
}

proof fn lemma_digits_value_grows(s: Seq<char>, b: int, i: int, j: int)
    requires
        0 <= b <= i <= j <= s.len(),
        all_digits(s.subrange(b, j)),
    ensures
        0 <= digits_value(s.subrange(b, i)) <= digits_value(s.subrange(b, j)),
    decreases j - b,
{
    if j > b {
        assert(s.subrange(b, j).drop_last() =~= s.subrange(b, j - 1));
        assert(all_digits(s.subrange(b, j - 1))) by {
            assert forall|k: int| 0 <= k < j - 1 - b implies is_digit(
                #[trigger] s.subrange(b, j - 1)[k],
            ) by {
                assert(s.subrange(b, j - 1)[k] == s.subrange(b, j)[k]);
            }
        }
        assert(is_digit(s.subrange(b, j)[j - 1 - b]));
        if i < j {
            lemma_digits_value_grows(s, b, i, j - 1);
        } else {
            lemma_digits_value_grows(s, b, j - 1, j - 1);
        }
    }
}

/// The chars of `s`, in order.
pub fn chars_of(s: &str) -> (r: Vec<char>)
    ensures
        r@ == s@,
{
    let mut v: Vec<char> = Vec::new();
    for c in it: s.chars()
        invariant
            v@ == it.seq().take(it.index() as int),
    {
        v.push(c);
    }
    v
}

/// Reads `s[start..end]` as an `i32`.
#[verifier::loop_isolation(false)]
pub fn parse_i32(s: &[char], start: usize, end: usize) -> (r: Option<i32>)
    requires
        start <= end <= s@.len(),
    ensures
        r == i32_value(s@.subrange(start as int, end as int)),
{
    let ghost piece = s@.subrange(start as int, end as int);
    let mut b: usize = start;
    let mut negative = false;
    if start < end && (s[start] == '-' || s[start] == '+') {
        negative = s[start] == '-';
        b = start + 1;
    }
    let ghost body = s@.subrange(b as int, end as int);
    assert(body =~= (if b > start {
        piece.drop_first()
    } else {
        piece
    }));
    if b == end {
        return None;
    }
    let mut acc: i64 = 0;
    let mut i: usize = b;
    while i < end
        invariant
            b <= i <= end <= s@.len(),
            0 <= acc <= 0x8000_0000,
            acc == digits_value(s@.subrange(b as int, i as int)),
            all_digits(s@.subrange(b as int, i as int)),
        decreases end - i,
    {
        let c = s[i];
        if c < '0' || c > '9' {
            assert(!all_digits(body)) by {
                assert(body[i - b] == c);
            }
            return None;
        }
        assert(s@.subrange(b as int, i + 1).drop_last() =~= s@.subrange(b as int, i as int));
        assert(all_digits(s@.subrange(b as int, i + 1))) by {
            assert forall|k: int| 0 <= k < i + 1 - b implies is_digit(
                #[trigger] s@.subrange(b as int, i + 1)[k],
            ) by {
                if k < i - b {
                    assert(s@.subrange(b as int, i + 1)[k] == s@.subrange(b as int, i as int)[k]);
                }
            }
        }
        let next: i64 = acc * 10 + (c as u32 - '0' as u32) as i64;
        if next > 0x8000_0000 {
            // A longer run of digits only spells a larger number.
            proof {
                if all_digits(body) {
                    lemma_digits_value_grows(s@, b as int, i + 1, end as int);
                }
            }
            return None;
        }
        acc = next;
        i = i + 1;
    }
    assert(s@.subrange(b as int, end as int) =~= body);
    if negative {
        Some((0 - acc) as i32)
    } else if acc > 0x7fff_ffff {
        None
    } else {
        Some(acc as i32)
    }
}

pub fn is_space_char(c: char) -> (r: bool)
    ensures
        r == is_space(c),
{
    ('\t' <= c && c <= '\r') || c == ' ' || c == '\u{85}' || c == '\u{a0}' || c == '\u{1680}'
        || ('\u{2000}' <= c && c <= '\u{200a}') || c == '\u{2028}' || c == '\u{2029}' || c
        == '\u{202f}' || c == '\u{205f}' || c == '\u{3000}'
}

/// The bounds of `s` without its leading and trailing whitespace.
pub fn trim_bounds(s: &[char]) -> (r: (usize, usize))
    ensures
        r.0 <= r.1 <= s@.len(),
        s@.subrange(r.0 as int, r.1 as int) == trim(s@),
{
    let n = s.len();
    let mut lo: usize = 0;
    assert(s@.subrange(0, n as int) =~= s@);
    while lo < n && is_space_char(s[lo])
        invariant
            lo <= n == s@.len(),
            trim_front(s@) == trim_front(s@.subrange(lo as int, n as int)),
        decreases n - lo,
    {
        assert(s@.subrange(lo as int, n as int).drop_first() =~= s@.subrange(lo + 1, n as int));
        lo = lo + 1;
    }
    let mut hi: usize = n;
    while hi > lo && is_space_char(s[hi - 1])
        invariant
            lo <= hi <= n == s@.len(),
            trim_back(s@.subrange(lo as int, n as int)) == trim_back(
                s@.subrange(lo as int, hi as int),
            ),
        decreases hi,
    {
        assert(s@.subrange(lo as int, hi as int).drop_last() =~= s@.subrange(lo as int, hi - 1));
        hi = hi - 1;
    }
    (lo, hi)
}

/// The bounds of the pieces of `s[lo..hi]` between occurrences of `sep`.
pub fn field_bounds(s: &[char], lo: usize, hi: usize, sep: char) -> (r: Vec<(usize, usize)>)
    requires
        lo <= hi <= s@.len(),
    ensures
        r@.len() == fields(s@.subrange(lo as int, hi as int), sep).len(),
        forall|i: int|
            0 <= i < r@.len() ==> {
                let (a, b) = #[trigger] r@[i];
                &&& lo <= a <= b <= hi
                &&& s@.subrange(a as int, b as int) == fields(
                    s@.subrange(lo as int, hi as int),
                    sep,
                )[i]
            },
{
    let mut r: Vec<(usize, usize)> = Vec::new();
    let mut start: usize = lo;
    let mut i: usize = lo;
    assert(s@.subrange(lo as int, lo as int) =~= Seq::<char>::empty());
    while i < hi
        invariant
            lo <= start <= i <= hi <= s@.len(),
            fields(s@.subrange(lo as int, i as int), sep).len() == r@.len() + 1,
            fields(s@.subrange(lo as int, i as int), sep)[r@.len() as int] == s@.subrange(
                start as int,
                i as int,
            ),
            forall|j: int|
                0 <= j < r@.len() ==> {
                    let (a, b) = #[trigger] r@[j];
                    &&& lo <= a <= b <= start
                    &&& s@.subrange(a as int, b as int) == fields(
                        s@.subrange(lo as int, i as int),
                        sep,
                    )[j]
                },
        decreases hi - i,
    {
        let ghost before = fields(s@.subrange(lo as int, i as int), sep);
        assert(s@.subrange(lo as int, i + 1).drop_last() =~= s@.subrange(lo as int, i as int));
        assert(s@.subrange(lo as int, i + 1).last() == s@[i as int]);
        if s[i] == sep {
            r.push((start, i));
            start = i + 1;
            assert(s@.subrange(start as int, i + 1) =~= Seq::<char>::empty());
        } else {
            assert(s@.subrange(start as int, i as int).push(s@[i as int]) =~= s@.subrange(
                start as int,
                i + 1,
            ));
        }
        i = i + 1;
    }
    r.push((start, hi));
    r
}

proof fn lemma_all_i32_push(fs: Seq<Seq<char>>, f: Seq<char>)
    ensures
        all_i32(fs.push(f)) == (all_i32(fs) && i32_value(f) is Some),
{
    if all_i32(fs.push(f)) {
        assert(fs.push(f)[fs.len() as int] == f);
        assert forall|i: int| 0 <= i < fs.len() implies (#[trigger] i32_value(fs[i])) is Some by {
            assert(fs.push(f)[i] == fs[i]);
        }
    }
    if all_i32(fs) && i32_value(f) is Some {
        assert forall|i: int| 0 <= i < fs.len() + 1 implies (#[trigger] i32_value(
            fs.push(f)[i],
        )) is Some by {
            if i < fs.len() {
                assert(fs.push(f)[i] == fs[i]);
            }
        }
    }
}

/// Reads `text` as a comma-separated list of `i32`s, with any whitespace
/// around the list.
pub fn parse_i32_list(text: &str) -> (r: Option<Vec<i32>>)
    ensures
        match i32_list(text@) {
            Some(v) => r matches Some(w) && w@ == v,
            None => r is None,
        },
{
    let chars = chars_of(text);
    let (lo, hi) = trim_bounds(chars.as_slice());
    let bounds = field_bounds(chars.as_slice(), lo, hi, ',');
    let ghost fs = fields(trim(text@), ',');
    let mut values: Vec<i32> = Vec::new();
    let mut k: usize = 0;
    while k < bounds.len()
        invariant
            k <= bounds@.len() == fs.len(),
            fs == fields(trim(text@), ','),
            forall|j: int|
                0 <= j < bounds@.len() ==> {
                    let (a, b) = #[trigger] bounds@[j];
                    &&& a <= b <= chars@.len()
                    &&& chars@.subrange(a as int, b as int) == fs[j]
                },
            all_i32(fs.take(k as int)),
            values@ == fs.take(k as int).map_values(|f: Seq<char>| i32_value(f)->Some_0),
        decreases bounds@.len() - k,
    {
        let (a, b) = bounds[k];
        assert(bounds@[k as int] == (a, b));
        let v = parse_i32(chars.as_slice(), a, b);
        assert(fs.take(k + 1) =~= fs.take(k as int).push(fs[k as int]));
        match v {
            Some(x) => {
                proof {
                    lemma_all_i32_push(fs.take(k as int), fs[k as int]);
                }
                assert(fs.take(k + 1).map_values(|f: Seq<char>| i32_value(f)->Some_0) =~= fs.take(
                    k as int,
                ).map_values(|f: Seq<char>| i32_value(f)->Some_0).push(x));
                values.push(x);
            },
            None => {
                assert(!all_i32(fs));
                return None;
            },
        }
        k = k + 1;
    }
    assert(fs.take(k as int) =~= fs);
    Some(values)
}

} // verus!
