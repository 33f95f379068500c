//! Images sent as a run of pixel digits, split into layers of a fixed size.
use vstd::prelude::*;

verus! {

/// How many times `c` occurs in `s`.
pub open spec fn occurrences(s: Seq<char>, c: char) -> nat
    decreases s.len(),
{
    if s.len() == 0 {
        0
    } else {
        occurrences(s.drop_last(), c) + if s.last() == c {
            1nat
        } else {
            0nat
        }
    }
}

/// `s` cut into layers of `size` pixels; the last one may be shorter.
pub open spec fn layers(s: Seq<char>, size: nat) -> Seq<Seq<char>>
    decreases s.len(),
{
    if s.len() == 0 || size == 0 {
        Seq::empty()
    } else if s.len() <= size {
        seq![s]
    } else {
        seq![s.take(size as int)] + layers(s.skip(size as int), size)
    }
}

/// Layer `k` of `ls` has fewer zeros than every layer before it and no more
/// than any layer after it.
pub open spec fn first_fewest_zeros(ls: Seq<Seq<char>>, k: int) -> bool {
    &&& 0 <= k < ls.len()
    &&& forall|j: int| 0 <= j < k ==> occurrences(#[trigger] ls[j], '0') > occurrences(ls[k], '0')
    &&& forall|j: int| k <= j < ls.len() ==> occurrences(#[trigger] ls[j], '0') >= occurrences(
        ls[k],
        '0',
    )
}

/// The number of ones times the number of twos in a layer.
pub open spec fn layer_check(layer: Seq<char>) -> int {
    (occurrences(layer, '1') * occurrences(layer, '2')) as int
}

/// How many times `c` occurs in `cs`.
pub fn count_occurences(cs: &[char], c: char) -> (r: usize)
    ensures
        r == occurrences(cs@, c),
{
    let mut n: usize = 0;
    let mut i: usize = 0;
    while i < cs.len()
        invariant
            i <= cs@.len(),
            n == occurrences(cs@.take(i as int), c),
            n <= i,
        decreases cs@.len() - i,
    {
        assert(cs@.take(i + 1).drop_last() =~= cs@.take(i as int));
        if cs[i] == c {
            n = n + 1;
        }
        i = i + 1;
    }
    assert(cs@.take(i as int) =~= cs@);
    n
}

/// The layer of `pixels` (layers of `width * height`) with the fewest
/// zeros, the first such, checked as ones times twos; `None` when there is
/// no pixel.
pub fn layer_checksum(pixels: &[char], width: usize, height: usize) -> (r: Option<u128>)
    requires
        width * height > 0,
        width * height <= usize::MAX,
    ensures
        ({
            let ls = layers(pixels@, (width * height) as nat);
            match r {
                None => pixels@.len() == 0,
                Some(v) => exists|k: int| #[trigger]
                    first_fewest_zeros(ls, k) && v == layer_check(ls[k]),
            }
        }),
{
    let size = width * height;
    let ghost all = layers(pixels@, size as nat);
    if pixels.len() == 0 {
        return None;
    }
    let mut start: usize = 0;
    let ghost mut k: int = 0;
    assert(pixels@.skip(0) =~= pixels@);
    assert(all.skip(0) =~= all);
    assert(all.len() > 0);
    let mut found = false;
    let mut best_zeros: usize = 0;
    let mut best: u128 = 0;
    let ghost mut best_k: int = -1;
    while start < pixels.len()
        invariant
            size == width * height,
            size > 0,
            start <= pixels@.len(),
            0 <= k,
            layers(pixels@.skip(start as int), size as nat) == all.skip(k),
            k <= all.len(),
            start < pixels@.len() ==> k < all.len(),
            found == (k > 0),
            k == 0 ==> best_k == -1,
            k > 0 ==> 0 <= best_k < k && best_zeros == occurrences(all[best_k], '0') && best
                == layer_check(all[best_k]),
            forall|j: int| 0 <= j < best_k ==> occurrences(#[trigger] all[j], '0') > best_zeros,
            forall|j: int| best_k <= j < k && j >= 0 ==> occurrences(#[trigger] all[j], '0')
                >= best_zeros,
        decreases pixels@.len() - start,
    {
        let rest: usize = pixels.len() - start;
        let end = if rest <= size {
            pixels.len()
        } else {
            start + size
        };
        let ghost layer = pixels@.subrange(start as int, end as int);
        let ghost tail = pixels@.skip(start as int);
        assert(layer =~= (if tail.len() <= size {
            tail
        } else {
            tail.take(size as int)
        }));
        assert(all.skip(k)[0] == all[k]);
        if rest > size {
            assert(tail.skip(size as int) =~= pixels@.skip(start + size));
        }
        let zeros = count_occurences(&pixels[start..end], '0');
        assert(all[k] == layer);
        if !found || zeros < best_zeros {
            found = true;
            let ones = count_occurences(&pixels[start..end], '1');
            let twos = count_occurences(&pixels[start..end], '2');
            best_zeros = zeros;
            assert(ones as u128 * twos as u128 <= u128::MAX) by (nonlinear_arith)
                requires
                    ones <= 0xffff_ffff_ffff_ffff,
                    twos <= 0xffff_ffff_ffff_ffff,
            ;
            best = ones as u128 * twos as u128;
            proof {
                best_k = k;
            }
        }
        proof {
            if end < pixels@.len() {
                assert(all.skip(k).drop_first() =~= all.skip(k + 1));
            } else {
                assert(all.skip(k).len() == 1);
                assert(all.skip(k + 1).len() == 0);
            }
            k = k + 1;
        }
        start = end;
    }
    assert(all.skip(k).len() == 0);
    assert(k == all.len());
    assert(first_fewest_zeros(all, best_k));
    assert(best as int == layer_check(all[best_k]));
    assert(all == layers(pixels@, (width * height) as nat));
    Some(best)
}

} // verus!
