//! Two wires on a grid, each a path of straight motions from the origin,
//! and the crossing nearest the origin: as straight segments.
use crate::text::{chars_of, field_bounds, fields, i32_value, parse_i32};
use std::collections::HashMap;
use vstd::prelude::*;

verus! {

#[derive(Clone, Copy, Debug, PartialEq, Eq, Structural)]
pub enum Direction {
    Up,
    Down,
    Left,
    Right,
}

/// One straight stretch of a wire.
#[derive(Clone, Copy, Debug, PartialEq, Eq, Structural)]
pub struct Motion {
    pub direction: Direction,
    pub dist: i32,
}

/// A motion that is not a direction letter followed by an `i32`.
#[derive(Clone, Copy, Debug, PartialEq, Eq, Structural)]
pub struct ParseMotionError;

#[derive(Clone, Copy, Debug, PartialEq, Eq, Structural)]
pub struct Point(pub i32, pub i32);

/// A segment from `origin` up (vertical) or right (horizontal) by `length`.
#[derive(Clone, Copy, Debug, PartialEq, Eq, Structural)]
pub struct Segment {
    pub origin: Point,
    pub length: i32,
}

/// What a motion such as `U12` or `L-3` reads as.
pub open spec fn motion_of(s: Seq<char>) -> Option<Motion> {
    if s.len() <= 1 || i32_value(s.drop_first()) is None {
        None
    } else {
        let dist = i32_value(s.drop_first())->Some_0;
        if s[0] == 'U' {
            Some(Motion { direction: Direction::Up, dist })
        } else if s[0] == 'D' {
            Some(Motion { direction: Direction::Down, dist })
        } else if s[0] == 'L' {
            Some(Motion { direction: Direction::Left, dist })
        } else if s[0] == 'R' {
            Some(Motion { direction: Direction::Right, dist })
        } else {
            None
        }
    }
}

/// The motions of a comma-separated list; `None` when one does not read.
pub open spec fn motions_of(s: Seq<char>) -> Option<Seq<Motion>> {
    let fs = fields(s, ',');
    if forall|i: int| 0 <= i < fs.len() ==> (#[trigger] motion_of(fs[i])) is Some {
        Some(fs.map_values(|f: Seq<char>| motion_of(f)->Some_0))
    } else {
        None
    }
}

/// Reads one motion: a direction letter `U`, `D`, `L` or `R` and a distance.
pub fn parse_motion(s: &[char]) -> (r: Result<Motion, ParseMotionError>)
    ensures
        match motion_of(s@) {
            Some(m) => r == Ok::<Motion, ParseMotionError>(m),
            None => r == Err::<Motion, ParseMotionError>(ParseMotionError),
        },
{
    if s.len() <= 1 {
        return Err(ParseMotionError);
    }
    assert(s@.subrange(1, s@.len() as int) =~= s@.drop_first());
    let dist = match parse_i32(s, 1, s.len()) {
        Some(d) => d,
        None => return Err(ParseMotionError),
    };
    let direction = match s[0] {
        'U' => Direction::Up,
        'D' => Direction::Down,
        'L' => Direction::Left,
        'R' => Direction::Right,
        _ => return Err(ParseMotionError),
    };
    Ok(Motion { direction, dist })
}

/// Reads a comma-separated list of motions.
pub fn parse_motions(s: &str) -> (r: Result<Vec<Motion>, ParseMotionError>)
    ensures
        match motions_of(s@) {
            Some(ms) => r matches Ok(v) && v@ == ms,
            None => r == Err::<Vec<Motion>, ParseMotionError>(ParseMotionError),
        },
{
    let chars = chars_of(s);
    let bounds = field_bounds(chars.as_slice(), 0, chars.len(), ',');
    let ghost fs = fields(s@, ',');
    assert(chars@.subrange(0, chars@.len() as int) =~= s@);
    let mut out: Vec<Motion> = Vec::new();
    let mut k: usize = 0;
    while k < bounds.len()
        invariant
            k <= bounds@.len() == fs.len(),
            fs == fields(s@, ','),
            forall|j: int|
                0 <= j < bounds@.len() ==> {
                    let (a, b) = #[trigger] bounds@[j];
                    &&& a <= b <= chars@.len()
                    &&& chars@.subrange(a as int, b as int) == fs[j]
                },
            forall|j: int| 0 <= j < k ==> (#[trigger] motion_of(fs[j])) is Some,
            out@ == fs.take(k as int).map_values(|f: Seq<char>| motion_of(f)->Some_0),
        decreases bounds@.len() - k,
    {
        let (a, b) = bounds[k];
        assert(bounds@[k as int] == (a, b));
        let piece = copy_range(chars.as_slice(), a, b);
        match parse_motion(piece.as_slice()) {
            Ok(m) => {
                assert(fs.take(k + 1).map_values(|f: Seq<char>| motion_of(f)->Some_0) =~= fs.take(
                    k as int,
                ).map_values(|f: Seq<char>| motion_of(f)->Some_0).push(m));
                out.push(m);
            },
            Err(e) => {
                return Err(e);
            },
        }
        k = k + 1;
    }
    assert(fs.take(k as int) =~= fs);
    Ok(out)
}

/// A copy of `s[a..b]`.
fn copy_range(s: &[char], a: usize, b: usize) -> (r: Vec<char>)
    requires
        a <= b <= s@.len(),
    ensures
        r@ == s@.subrange(a as int, b as int),
{
    let mut r: Vec<char> = Vec::new();
    let mut i: usize = a;
    while i < b
        invariant
            a <= i <= b <= s@.len(),
            r@ == s@.subrange(a as int, i as int),
        decreases b - i,
    {
        r.push(s[i]);
        assert(r@ =~= s@.subrange(a as int, i + 1));
        i = i + 1;
    }
    r
}

pub open spec fn abs(v: int) -> int {
    if v < 0 {
        -v
    } else {
        v
    }
}

impl Point {
    /// The distance from the origin along the grid: |x| + |y|.
    pub fn manhattan(&self) -> (r: i64)
        ensures
            r == abs(self.0 as int) + abs(self.1 as int),
    {
        let x = self.0 as i64;
        let y = self.1 as i64;
        (if x < 0 {
            -x
        } else {
            x
        }) + (if y < 0 {
            -y
        } else {
            y
        })
    }
}

/// The point `m` leads to from `p`.
pub open spec fn moved(p: (int, int), m: Motion) -> (int, int) {
    match m.direction {
        Direction::Up => (p.0, p.1 + m.dist),
        Direction::Down => (p.0, p.1 - m.dist),
        Direction::Right => (p.0 + m.dist, p.1),
        Direction::Left => (p.0 - m.dist, p.1),
    }
}

/// Where the wire stands after its first `k` motions.
pub open spec fn corner(o: (int, int), ms: Seq<Motion>, k: nat) -> (int, int)
    decreases k,
{
    if k == 0 {
        o
    } else {
        moved(corner(o, ms, (k - 1) as nat), ms[k - 1])
    }
}

pub open spec fn in_i32(p: (int, int)) -> bool {
    i32::MIN <= p.0 <= i32::MAX && i32::MIN <= p.1 <= i32::MAX
}

pub open spec fn point_at(p: (int, int)) -> Point {
    Point(p.0 as i32, p.1 as i32)
}

pub open spec fn is_vertical(m: Motion) -> bool {
    m.direction == Direction::Up || m.direction == Direction::Down
}

/// The segment motion `k` draws: from its start going up or right, from its
/// end going down or left.
pub open spec fn segment_of(o: (int, int), ms: Seq<Motion>, k: nat) -> Segment {
    let m = ms[k as int];
    if m.direction == Direction::Up || m.direction == Direction::Right {
        Segment { origin: point_at(corner(o, ms, k)), length: m.dist }
    } else {
        Segment { origin: point_at(corner(o, ms, k + 1)), length: m.dist }
    }
}

/// The segments of the first `k` motions that are vertical (`vertical`) or
/// horizontal, in order.
pub open spec fn segments(o: (int, int), ms: Seq<Motion>, k: nat, vertical: bool) -> Seq<Segment>
    decreases k,
{
    if k == 0 {
        Seq::empty()
    } else {
        let s = segments(o, ms, (k - 1) as nat, vertical);
        if is_vertical(ms[k - 1]) == vertical {
            s.push(segment_of(o, ms, (k - 1) as nat))
        } else {
            s
        }
    }
}

/// Every corner of the wire lies in `i32` range.
pub open spec fn corners_in_i32(o: (int, int), ms: Seq<Motion>) -> bool {
    forall|k: nat| k <= ms.len() ==> in_i32(#[trigger] corner(o, ms, k))
}

/// The vertical and the horizontal segments of the wire that starts at
/// `origin`; `None` when a corner leaves `i32` range.
pub fn motion_to_segments(origin: Point, motions: &[Motion]) -> (r: Option<
    (Vec<Segment>, Vec<Segment>),
>)
    ensures
        ({
            let o = (origin.0 as int, origin.1 as int);
            match r {
                None => !corners_in_i32(o, motions@),
                Some((v, h)) => {
                    &&& corners_in_i32(o, motions@)
                    &&& v@ == segments(o, motions@, motions@.len(), true)
                    &&& h@ == segments(o, motions@, motions@.len(), false)
                },
            }
        }),
{
    let ghost o = (origin.0 as int, origin.1 as int);
    let mut vertical: Vec<Segment> = Vec::new();
    let mut horizontal: Vec<Segment> = Vec::new();
    let mut x: i32 = origin.0;
    let mut y: i32 = origin.1;
    let mut k: usize = 0;
    while k < motions.len()
        invariant
            o == (origin.0 as int, origin.1 as int),
            k <= motions@.len(),
            corner(o, motions@, k as nat) == (x as int, y as int),
            forall|j: nat| j <= k ==> in_i32(#[trigger] corner(o, motions@, j)),
            vertical@ == segments(o, motions@, k as nat, true),
            horizontal@ == segments(o, motions@, k as nat, false),
        decreases motions@.len() - k,
    {
        let m = motions[k];
        let d = m.dist as i64;
        let (nx, ny): (i64, i64) = match m.direction {
            Direction::Up => (x as i64, y as i64 + d),
            Direction::Down => (x as i64, y as i64 - d),
            Direction::Right => (x as i64 + d, y as i64),
            Direction::Left => (x as i64 - d, y as i64),
        };
        assert(corner(o, motions@, (k + 1) as nat) == (nx as int, ny as int));
        if nx < i32::MIN as i64 || nx > i32::MAX as i64 || ny < i32::MIN as i64 || ny
            > i32::MAX as i64 {
            return None;
        }
        let seg = match m.direction {
            Direction::Up | Direction::Right => Segment { origin: Point(x, y), length: m.dist },
            _ => Segment { origin: Point(nx as i32, ny as i32), length: m.dist },
        };
        match m.direction {
            Direction::Up | Direction::Down => vertical.push(seg),
            _ => horizontal.push(seg),
        }
        x = nx as i32;
        y = ny as i32;
        proof {
            assert forall|j: nat| j <= k + 1 implies in_i32(#[trigger] corner(o, motions@, j)) by {
                if j <= k {
                } else {
                    assert(j == k + 1);
                }
            }
        }
        k = k + 1;
    }
    Some((vertical, horizontal))
}

/// Where `horizontal` and `vertical` meet: the horizontal's height within
/// the vertical's span and the vertical's column within the horizontal's
/// span.
pub open spec fn meeting(horizontal: Segment, vertical: Segment) -> Option<Point> {
    if horizontal.origin.1 > vertical.origin.1 + vertical.length || horizontal.origin.1
        < vertical.origin.1 || vertical.origin.0 < horizontal.origin.0 || vertical.origin.0
        > horizontal.origin.0 + horizontal.length {
        None
    } else {
        Some(Point(vertical.origin.0, horizontal.origin.1))
    }
}

/// The point where `horizontal` and `vertical` meet, if they do.
pub fn intersection(horizontal: Segment, vertical: Segment) -> (r: Option<Point>)
    ensures
        r == meeting(horizontal, vertical),
{
    if horizontal.origin.1 as i64 > vertical.origin.1 as i64 + vertical.length as i64 {
        return None;
    }
    if horizontal.origin.1 < vertical.origin.1 {
        return None;
    }
    if vertical.origin.0 < horizontal.origin.0 {
        return None;
    }
    if vertical.origin.0 as i64 > horizontal.origin.0 as i64 + horizontal.length as i64 {
        return None;
    }
    Some(Point(vertical.origin.0, horizontal.origin.1))
}

/// `best`, or the distance of the meeting point when that is nonzero and
/// smaller.
pub open spec fn closer(best: int, meet: Option<Point>) -> int {
    match meet {
        None => best,
        Some(p) => {
            let d = abs(p.0 as int) + abs(p.1 as int);
            if d != 0 && d < best {
                d
            } else {
                best
            }
        },
    }
}

/// The nearest nonzero crossing distance of `h` with the segments of `vs`,
/// against `best`.
pub open spec fn nearest_row(h: Segment, vs: Seq<Segment>, best: int) -> int
    decreases vs.len(),
{
    if vs.len() == 0 {
        best
    } else {
        closer(nearest_row(h, vs.drop_last(), best), meeting(h, vs.last()))
    }
}

/// The nearest nonzero crossing distance over every pair of `hs` and `vs`,
/// against `best`.
pub open spec fn nearest_grid(hs: Seq<Segment>, vs: Seq<Segment>, best: int) -> int
    decreases hs.len(),
{
    if hs.len() == 0 {
        best
    } else {
        nearest_row(hs.last(), vs, nearest_grid(hs.drop_last(), vs, best))
    }
}

/// The smallest nonzero distance from the origin of a point where a
/// segment of `horizontal` meets one of `vertical`, or `best` if none is
/// smaller.
pub fn nearest_crossing(horizontal: &[Segment], vertical: &[Segment], best: i32) -> (r: i32)
    ensures
        r == nearest_grid(horizontal@, vertical@, best as int),
{
    let mut best = best;
    let ghost start = best as int;
    let mut i: usize = 0;
    while i < horizontal.len()
        invariant
            i <= horizontal@.len(),
            best == nearest_grid(horizontal@.take(i as int), vertical@, start),
        decreases horizontal@.len() - i,
    {
        assert(horizontal@.take(i + 1).drop_last() =~= horizontal@.take(i as int));
        let h = horizontal[i];
        let ghost row_start = best as int;
        let mut j: usize = 0;
        while j < vertical.len()
            invariant
                j <= vertical@.len(),
                best == nearest_row(h, vertical@.take(j as int), row_start),
            decreases vertical@.len() - j,
        {
            assert(vertical@.take(j + 1).drop_last() =~= vertical@.take(j as int));
            match intersection(h, vertical[j]) {
                None => {},
                Some(p) => {
                    let d = p.manhattan();
                    if d != 0 && d < best as i64 {
                        best = d as i32;
                    }
                },
            }
            j = j + 1;
        }
        assert(vertical@.take(j as int) =~= vertical@);
        i = i + 1;
    }
    assert(horizontal@.take(i as int) =~= horizontal@);
    best
}

/// The smallest nonzero distance from the origin of a point where the two
/// wires, both starting at the origin, cross (`i32::MAX` when they do not);
/// `None` when a wire leaves `i32` range.
pub fn closest_crossing(fst: &[Motion], snd: &[Motion]) -> (r: Option<i32>)
    ensures
        ({
            let o = (0int, 0int);
            match r {
                None => !corners_in_i32(o, fst@) || !corners_in_i32(o, snd@),
                Some(d) => {
                    &&& corners_in_i32(o, fst@)
                    &&& corners_in_i32(o, snd@)
                    &&& d == nearest_grid(
                        segments(o, snd@, snd@.len(), false),
                        segments(o, fst@, fst@.len(), true),
                        nearest_grid(
                            segments(o, fst@, fst@.len(), false),
                            segments(o, snd@, snd@.len(), true),
                            i32::MAX as int,
                        ),
                    )
                },
            }
        }),
{
    let (fst_vertical, fst_horizontal) = match motion_to_segments(Point(0, 0), fst) {
        Some(t) => t,
        None => return None,
    };
    let (snd_vertical, snd_horizontal) = match motion_to_segments(Point(0, 0), snd) {
        Some(t) => t,
        None => return None,
    };
    let best = nearest_crossing(fst_horizontal.as_slice(), snd_vertical.as_slice(), i32::MAX);
    Some(nearest_crossing(snd_horizontal.as_slice(), fst_vertical.as_slice(), best))
}

/// A wire whose corners leave `i32` range or whose length exceeds `i32`.
#[derive(Clone, Copy, Debug, PartialEq, Eq, Structural)]
pub struct BuildMapError;

/// A grid point as a single map key: `x * 2^32 + (y + 2^31)`, one key per
/// point of the `i32` grid.
pub open spec fn key_of(x: int, y: int) -> int {
    x * 0x1_0000_0000 + (y + 0x8000_0000)
}

/// The point `i` unit steps from `p` in direction `d`.
pub open spec fn offset(p: (int, int), d: Direction, i: int) -> (int, int) {
    match d {
        Direction::Up => (p.0, p.1 + i),
        Direction::Down => (p.0, p.1 - i),
        Direction::Right => (p.0 + i, p.1),
        Direction::Left => (p.0 - i, p.1),
    }
}

/// The unit steps of a motion: its distance, none when below one.
pub open spec fn steps_in(m: Motion) -> nat {
    if m.dist > 0 {
        m.dist as nat
    } else {
        0
    }
}

/// Where the stepping wire from the origin stands after its first `k`
/// motions.
pub open spec fn walk_end(ms: Seq<Motion>, k: nat) -> (int, int)
    decreases k,
{
    if k == 0 {
        (0, 0)
    } else {
        offset(walk_end(ms, (k - 1) as nat), ms[k - 1].direction, steps_in(ms[k - 1]) as int)
    }
}

/// The points the stepping wire from the origin stands on before each unit
/// step of its first `k` motions, in order.
pub open spec fn walk(ms: Seq<Motion>, k: nat) -> Seq<(int, int)>
    decreases k,
{
    if k == 0 {
        Seq::empty()
    } else {
        let p = walk_end(ms, (k - 1) as nat);
        let m = ms[k - 1];
        walk(ms, (k - 1) as nat) + Seq::new(steps_in(m), |i: int| offset(p, m.direction, i))
    }
}

/// Each key of `ks` with the last position at which it occurs.
pub open spec fn last_steps(ks: Seq<int>) -> Map<int, int>
    decreases ks.len(),
{
    if ks.len() == 0 {
        Map::empty()
    } else {
        last_steps(ks.drop_last()).insert(ks.last(), ks.len() - 1)
    }
}

pub open spec fn keys_of(w: Seq<(int, int)>) -> Seq<int> {
    w.map_values(|p: (int, int)| key_of(p.0, p.1))
}

/// Every point the stepping wire reaches lies in `i32` range, and so does
/// its length.
pub open spec fn walk_fits(ms: Seq<Motion>) -> bool {
    &&& forall|k: nat| k <= ms.len() ==> in_i32(#[trigger] walk_end(ms, k))
    &&& walk(ms, ms.len()).len() <= i32::MAX
}

pub open spec fn map_view(m: Map<i64, i32>) -> Map<int, int> {
    Map::new(
        |k: int| i64::MIN <= k <= i64::MAX && m.contains_key(k as i64),
        |k: int| m[k as i64] as int,
    )
}

proof fn lemma_walk_grows(ms: Seq<Motion>, j: nat, k: nat)
    requires
        j <= k <= ms.len(),
    ensures
        walk(ms, j).len() <= walk(ms, k).len(),
    decreases k - j,
{
    if j < k {
        lemma_walk_grows(ms, j, (k - 1) as nat);
    }
}

pub open spec fn key_ints(ks: Seq<i64>) -> Seq<int> {
    ks.map_values(|k: i64| k as int)
}

/// The map of `build_map`, with the keys of the walk in order.
fn walk_map(motions: &[Motion]) -> (r: Result<(HashMap<i64, i32>, Vec<i64>), BuildMapError>)
    ensures
        match r {
            Ok((m, ks)) => {
                &&& walk_fits(motions@)
                &&& map_view(m@) == last_steps(keys_of(walk(motions@, motions@.len())))
                &&& key_ints(ks@) == keys_of(walk(motions@, motions@.len()))
            },
            Err(_) => !walk_fits(motions@),
        },
{
    broadcast use vstd::std_specs::hash::group_hash_axioms;

    let mut map: HashMap<i64, i32> = HashMap::new();
    let mut keys: Vec<i64> = Vec::new();
    let mut x: i32 = 0;
    let mut y: i32 = 0;
    let mut steps: i32 = 0;
    let mut k: usize = 0;
    assert(map_view(map@) =~= last_steps(keys_of(walk(motions@, 0))));
    assert(key_ints(keys@) =~= keys_of(walk(motions@, 0)));
    while k < motions.len()
        invariant
            k <= motions@.len(),
            walk_end(motions@, k as nat) == (x as int, y as int),
            forall|j: nat| j <= k ==> in_i32(#[trigger] walk_end(motions@, j)),
            walk(motions@, k as nat).len() == steps,
            map_view(map@) == last_steps(keys_of(walk(motions@, k as nat))),
            key_ints(keys@) == keys_of(walk(motions@, k as nat)),
        decreases motions@.len() - k,
    {
        let m = motions[k];
        let n: i32 = if m.dist > 0 {
            m.dist
        } else {
            0
        };
        let (nx, ny): (i64, i64) = match m.direction {
            Direction::Up => (x as i64, y as i64 + n as i64),
            Direction::Down => (x as i64, y as i64 - n as i64),
            Direction::Right => (x as i64 + n as i64, y as i64),
            Direction::Left => (x as i64 - n as i64, y as i64),
        };
        assert(walk_end(motions@, (k + 1) as nat) == (nx as int, ny as int));
        assert(walk(motions@, (k + 1) as nat).len() == steps + n);
        if nx < i32::MIN as i64 || nx > i32::MAX as i64 || ny < i32::MIN as i64 || ny
            > i32::MAX as i64 || steps as i64 + n as i64 > i32::MAX as i64 {
            proof {
                lemma_walk_grows(motions@, (k + 1) as nat, motions@.len());
            }
            return Err(BuildMapError);
        }
        let ghost before = walk(motions@, k as nat);
        let ghost start_point = (x as int, y as int);
        let ghost piece = Seq::new(n as nat, |i: int| offset(start_point, m.direction, i));
        assert(walk(motions@, (k + 1) as nat) == before + piece);
        let mut i: i32 = 0;
        assert(before + piece.take(0) =~= before);
        while i < n
            invariant
                0 <= i <= n,
                n == steps_in(m),
                piece == Seq::new(n as nat, |i: int| offset(start_point, m.direction, i)),
                in_i32(start_point),
                in_i32(offset(start_point, m.direction, n as int)),
                steps == before.len() + i,
                steps + n - i <= i32::MAX,
                (x as int, y as int) == offset(start_point, m.direction, i as int),
                map_view(map@) == last_steps(keys_of(before + piece.take(i as int))),
                key_ints(keys@) == keys_of(before + piece.take(i as int)),
            decreases n - i,
        {
            let key: i64 = x as i64 * 0x1_0000_0000 + (y as i64 + 0x8000_0000);
            let ghost ks = keys_of(before + piece.take(i as int));
            map.insert(key, steps);
            keys.push(key);
            proof {
                assert(before + piece.take(i + 1) =~= (before + piece.take(i as int)).push(
                    piece[i as int],
                ));
                assert(keys_of(before + piece.take(i + 1)) =~= ks.push(key as int));
                assert(key_ints(keys@) =~= ks.push(key as int));
                assert(map_view(map@) =~= last_steps(ks).insert(key as int, steps as int));
                assert(ks.push(key as int).drop_last() =~= ks);
                assert(last_steps(ks.push(key as int)) == last_steps(ks).insert(
                    key as int,
                    steps as int,
                ));
            }
            match m.direction {
                Direction::Up => {
                    y = y + 1;
                },
                Direction::Down => {
                    y = y - 1;
                },
                Direction::Right => {
                    x = x + 1;
                },
                Direction::Left => {
                    x = x - 1;
                },
            }
            steps = steps + 1;
            i = i + 1;
        }
        assert(piece.take(n as int) =~= piece);
        proof {
            assert forall|j: nat| j <= k + 1 implies in_i32(#[trigger] walk_end(motions@, j)) by {
                if j == k + 1 {
                }
            }
        }
        k = k + 1;
    }
    Ok((map, keys))
}

/// For each point the stepping wire from the origin stands on before a unit
/// step, keyed by `key_of`, the number of steps taken when it last stood
/// there.
pub fn build_map(motions: &[Motion]) -> (r: Result<HashMap<i64, i32>, BuildMapError>)
    ensures
        match r {
            Ok(m) => walk_fits(motions@) && map_view(m@) == last_steps(
                keys_of(walk(motions@, motions@.len())),
            ),
            Err(_) => !walk_fits(motions@),
        },
{
    match walk_map(motions) {
        Ok((m, _)) => Ok(m),
        Err(e) => Err(e),
    }
}

/// The smallest positive combined step count `ma[k] + mb[k]` over the keys
/// `ks` that both maps hold, against `best`.
pub open spec fn fewest_over(ma: Map<int, int>, mb: Map<int, int>, ks: Seq<int>, best: int) -> int
    decreases ks.len(),
{
    if ks.len() == 0 {
        best
    } else {
        let b = fewest_over(ma, mb, ks.drop_last(), best);
        let k = ks.last();
        if ma.contains_key(k) && mb.contains_key(k) && 0 < ma[k] + mb[k] < b {
            ma[k] + mb[k]
        } else {
            b
        }
    }
}

/// Among the points both wires reach, the smallest positive sum of the
/// steps each wire had taken when it last stood there (`i32::MAX` when
/// there is none).
pub fn fewest_combined_steps(fst: &[Motion], snd: &[Motion]) -> (r: Result<i32, BuildMapError>)
    ensures
        match r {
            Ok(v) => {
                let ka = keys_of(walk(fst@, fst@.len()));
                let kb = keys_of(walk(snd@, snd@.len()));
                &&& walk_fits(fst@)
                &&& walk_fits(snd@)
                &&& v == fewest_over(last_steps(ka), last_steps(kb), ka, i32::MAX as int)
            },
            Err(_) => !walk_fits(fst@) || !walk_fits(snd@),
        },
{
    broadcast use vstd::std_specs::hash::group_hash_axioms;

    let (ma, keys) = walk_map(fst)?;
    let mb = build_map(snd)?;
    let ghost ka = key_ints(keys@);
    let mut best: i32 = i32::MAX;
    let mut i: usize = 0;
    while i < keys.len()
        invariant
            i <= keys@.len(),
            ka == key_ints(keys@),
            best == fewest_over(map_view(ma@), map_view(mb@), ka.take(i as int), i32::MAX as int),
        decreases keys@.len() - i,
    {
        let k = keys[i];
        assert(ka.take(i + 1).drop_last() =~= ka.take(i as int));
        assert(ka.take(i + 1).last() == k as int);
        match (ma.get(&k), mb.get(&k)) {
            (Some(a), Some(b)) => {
                let sum = *a as i64 + *b as i64;
                if 0 < sum && sum < best as i64 {
                    best = sum as i32;
                }
            },
            _ => {},
        }
        i = i + 1;
    }
    assert(ka.take(i as int) =~= ka);
    Ok(best)
}

} // verus!
