//! A map of orbits, each object to the center it circles, read from lines
//! `CENTER)OBJECT`; the number of direct and indirect orbits of an object is
//! the length of its chain of centers down to `COM`.
use crate::text::{chars_of, field_bounds, fields, trim, trim_bounds};
use vstd::prelude::*;

verus! {

/// A line that is not `CENTER)OBJECT`, or that names an object a second time.
#[derive(Clone, Copy, Debug, PartialEq, Eq, Structural)]
pub struct ParseInputError;

/// A chain of centers that does not reach `COM`.
#[derive(Clone, Copy, Debug, PartialEq, Eq, Structural)]
pub struct CountOrbitsError;

/// A chain of centers that does not reach `COM`.
#[derive(Clone, Copy, Debug, PartialEq, Eq, Structural)]
pub struct AssemblePathError;

/// The name of the universal center of mass.
pub open spec fn com() -> Seq<char> {
    seq!['C', 'O', 'M']
}

/// Orbits, in the order they were read; no object appears twice.
pub struct OrbitMap {
    entries: Vec<(Vec<char>, Vec<char>)>,
}

pub open spec fn keys_unique(es: Seq<(Seq<char>, Seq<char>)>) -> bool {
    forall|i: int, j: int| 0 <= i < j < es.len() ==> (#[trigger] es[i]).0 != (#[trigger] es[j]).0
}

/// The orbits as a map from object to center.
pub open spec fn as_map(es: Seq<(Seq<char>, Seq<char>)>) -> Map<Seq<char>, Seq<char>>
    decreases es.len(),
{
    if es.len() == 0 {
        Map::empty()
    } else {
        as_map(es.drop_last()).insert(es.last().0, es.last().1)
    }
}

/// Orbits of `s` found within `fuel` links: `None` when the chain meets an
/// object with no center, or runs out of links (a chain that reaches `COM`
/// uses each object once, so as many links as there are orbits suffice).
pub open spec fn depth(m: Map<Seq<char>, Seq<char>>, s: Seq<char>, fuel: nat) -> Option<nat>
    decreases fuel,
{
    if s == com() {
        Some(0)
    } else if fuel == 0 || !m.contains_key(s) {
        None
    } else {
        match depth(m, m[s], (fuel - 1) as nat) {
            Some(d) => Some(d + 1),
            None => None,
        }
    }
}

/// The objects from just above `COM` up to `s`, as `depth` follows them.
pub open spec fn path(m: Map<Seq<char>, Seq<char>>, s: Seq<char>, fuel: nat) -> Option<Seq<Seq<char>>>
    decreases fuel,
{
    if s == com() {
        Some(Seq::empty())
    } else if fuel == 0 || !m.contains_key(s) {
        None
    } else {
        match path(m, m[s], (fuel - 1) as nat) {
            Some(p) => Some(p.push(s)),
            None => None,
        }
    }
}

pub open spec fn names(es: Seq<(Vec<char>, Vec<char>)>) -> Seq<(Seq<char>, Seq<char>)> {
    es.map_values(|e: (Vec<char>, Vec<char>)| (e.0@, e.1@))
}

impl View for OrbitMap {
    type V = Seq<(Seq<char>, Seq<char>)>;

    closed spec fn view(&self) -> Seq<(Seq<char>, Seq<char>)> {
        names(self.entries@)
    }
}

/// Whether two names are equal.
fn same_name(a: &[char], b: &[char]) -> (r: bool)
    ensures
        r == (a@ == b@),
{
    if a.len() != b.len() {
        return false;
    }
    let mut i: usize = 0;
    while i < a.len()
        invariant
            a@.len() == b@.len(),
            i <= a@.len(),
            a@.take(i as int) == b@.take(i as int),
        decreases a@.len() - i,
    {
        if a[i] != b[i] {
            assert(a@[i as int] != b@[i as int]);
            return false;
        }
        assert(a@.take(i + 1) =~= a@.take(i as int).push(a@[i as int]));
        assert(b@.take(i + 1) =~= b@.take(i as int).push(b@[i as int]));
        i = i + 1;
    }
    assert(a@.take(i as int) =~= a@);
    assert(b@.take(i as int) =~= b@);
    true
}

proof fn lemma_as_map_keys(es: Seq<(Seq<char>, Seq<char>)>, k: Seq<char>)
    requires
        keys_unique(es),
    ensures
        as_map(es).contains_key(k) <==> exists|i: int| 0 <= i < es.len() && (#[trigger] es[i]).0 == k,
        forall|i: int| 0 <= i < es.len() && (#[trigger] es[i]).0 == k ==> as_map(es)[k] == es[i].1,
    decreases es.len(),
{
    if es.len() > 0 {
        let init = es.drop_last();
        assert(keys_unique(init)) by {
            assert forall|i: int, j: int| 0 <= i < j < init.len() implies (#[trigger] init[i]).0
                != (#[trigger] init[j]).0 by {
                assert(init[i] == es[i] && init[j] == es[j]);
            }
        }
        lemma_as_map_keys(init, k);
        if as_map(es).contains_key(k) && k != es.last().0 {
            let i = choose|i: int| 0 <= i < init.len() && (#[trigger] init[i]).0 == k;
            assert(es[i] == init[i]);
        }
        assert forall|i: int| 0 <= i < es.len() && (#[trigger] es[i]).0 == k implies as_map(es)[k]
            == es[i].1 by {
            if i < es.len() - 1 {
                assert(es[i] == init[i]);
                assert(es.last().0 != k);
            }
        }
        if exists|i: int| 0 <= i < es.len() && (#[trigger] es[i]).0 == k {
            let i = choose|i: int| 0 <= i < es.len() && (#[trigger] es[i]).0 == k;
            if i < es.len() - 1 {
                assert(init[i] == es[i]);
            }
        }
    }
}

impl OrbitMap {
    pub open spec fn wf(&self) -> bool {
        keys_unique(self@)
    }

    /// A map with no orbits.
    pub fn new() -> (r: OrbitMap)
        ensures
            r@ == Seq::<(Seq<char>, Seq<char>)>::empty(),
            r.wf(),
    {
        let r = OrbitMap { entries: Vec::new() };
        assert(r@ =~= Seq::<(Seq<char>, Seq<char>)>::empty());
        r
    }

    /// The position of the orbit of `object`.
    fn find(&self, object: &[char]) -> (r: Option<usize>)
        ensures
            match r {
                Some(i) => i < self@.len() && self@[i as int].0 == object@,
                None => forall|i: int| 0 <= i < self@.len() ==> (#[trigger] self@[i]).0 != object@,
            },
    {
        let mut i: usize = 0;
        while i < self.entries.len()
            invariant
                i <= self.entries@.len(),
                self@ == names(self.entries@),
                forall|j: int| 0 <= j < i ==> (#[trigger] self@[j]).0 != object@,
            decreases self.entries@.len() - i,
        {
            if same_name(self.entries[i].0.as_slice(), object) {
                return Some(i);
            }
            i = i + 1;
        }
        None
    }

    /// The center of `object`.
    fn center(&self, object: &[char]) -> (r: Option<&Vec<char>>)
        requires
            self.wf(),
        ensures
            match r {
                Some(c) => as_map(self@).contains_key(object@) && c@ == as_map(self@)[object@],
                None => !as_map(self@).contains_key(object@),
            },
    {
        proof {
            lemma_as_map_keys(self@, object@);
        }
        match self.find(object) {
            Some(i) => Some(&self.entries[i].1),
            None => None,
        }
    }

    /// The number of orbits recorded.
    pub fn len(&self) -> (r: usize)
        ensures
            r == self@.len(),
    {
        self.entries.len()
    }
}

/// What a line `CENTER)OBJECT` (with whitespace around) names: the first
/// two `)`-separated pieces.
pub open spec fn orbit_line(line: Seq<char>) -> Option<(Seq<char>, Seq<char>)> {
    let fs = fields(trim(line), ')');
    if fs.len() >= 2 {
        Some((fs[0], fs[1]))
    } else {
        None
    }
}

/// Records the orbit that `line` states. Fails when the line has no `)`,
/// or names an object already recorded; in that case the object's center
/// is replaced all the same.
pub fn read_orbit(m: &mut OrbitMap, line: &str) -> (r: Result<(), ParseInputError>)
    requires
        old(m).wf(),
    ensures
        final(m).wf(),
        match orbit_line(line@) {
            None => r is Err && final(m)@ == old(m)@,
            Some((center, object)) => {
                &&& as_map(final(m)@) == as_map(old(m)@).insert(object, center)
                &&& (r is Err <==> as_map(old(m)@).contains_key(object))
            },
        },
{
    let chars = chars_of(line);
    let (lo, hi) = trim_bounds(chars.as_slice());
    let bounds = field_bounds(chars.as_slice(), lo, hi, ')');
    if bounds.len() < 2 {
        return Err(ParseInputError);
    }
    let (a0, b0) = bounds[0];
    let (a1, b1) = bounds[1];
    assert(bounds@[0] == (a0, b0));
    assert(bounds@[1] == (a1, b1));
    let center = chars_slice(chars.as_slice(), a0, b0);
    let object = chars_slice(chars.as_slice(), a1, b1);
    proof {
        lemma_as_map_keys(m@, object@);
    }
    match m.find(object.as_slice()) {
        Some(i) => {
            let ghost before = m@;
            m.entries.set(i, (object, center));
            proof {
                assert(m@ =~= before.update(i as int, (object@, center@)));
                lemma_as_map_replace(before, i as int, center@);
            }
            Err(ParseInputError)
        },
        None => {
            let ghost before = m@;
            m.entries.push((object, center));
            assert(m@ =~= before.push((object@, center@)));
            assert(m@.drop_last() =~= before);
            Ok(())
        },
    }
}

proof fn lemma_as_map_replace(es: Seq<(Seq<char>, Seq<char>)>, i: int, c: Seq<char>)
    requires
        keys_unique(es),
        0 <= i < es.len(),
    ensures
        keys_unique(es.update(i, (es[i].0, c))),
        as_map(es.update(i, (es[i].0, c))) == as_map(es).insert(es[i].0, c),
    decreases es.len(),
{
    let es2 = es.update(i, (es[i].0, c));
    assert(keys_unique(es2)) by {
        assert forall|a: int, b: int| 0 <= a < b < es2.len() implies (#[trigger] es2[a]).0
            != (#[trigger] es2[b]).0 by {
            assert(es2[a].0 == es[a].0 && es2[b].0 == es[b].0);
        }
    }
    let k = es[i].0;
    assert forall|key: Seq<char>| #[trigger] as_map(es2).contains_key(key) <==> as_map(
        es,
    ).insert(k, c).contains_key(key) by {
        lemma_as_map_keys(es, key);
        lemma_as_map_keys(es2, key);
        if as_map(es).contains_key(key) {
            let j = choose|j: int| 0 <= j < es.len() && (#[trigger] es[j]).0 == key;
            assert(es2[j].0 == key);
        }
        if as_map(es2).contains_key(key) {
            let j = choose|j: int| 0 <= j < es2.len() && (#[trigger] es2[j]).0 == key;
            assert(es[j].0 == key);
        }
    }
    assert forall|key: Seq<char>| #[trigger] as_map(es2).contains_key(key) implies as_map(es2)[key]
        == as_map(es).insert(k, c)[key] by {
        lemma_as_map_keys(es, key);
        lemma_as_map_keys(es2, key);
        let j = choose|j: int| 0 <= j < es2.len() && (#[trigger] es2[j]).0 == key;
        if j != i {
            assert(es[j].0 == key && es2[j] == es[j]);
            assert(key != k);
        }
    }
    assert(as_map(es2) =~= as_map(es).insert(k, c));
}

/// The number of direct and indirect orbits of `s`: the links from `s` down
/// to `COM`.
pub fn count_orbits(s: &str, m: &OrbitMap) -> (r: Result<usize, CountOrbitsError>)
    requires
        m.wf(),
    ensures
        match depth(as_map(m@), s@, m@.len()) {
            Some(d) => r == Ok::<usize, CountOrbitsError>(d as usize),
            None => r is Err,
        },
{
    let start = chars_of(s);
    depth_of(start.as_slice(), m)
}

fn depth_of(s: &[char], m: &OrbitMap) -> (r: Result<usize, CountOrbitsError>)
    requires
        m.wf(),
    ensures
        match depth(as_map(m@), s@, m@.len()) {
            Some(d) => r == Ok::<usize, CountOrbitsError>(d as usize),
            None => r is Err,
        },
{
    let ghost mm = as_map(m@);
    let ghost n = m@.len();
    let com_name: Vec<char> = vec!['C', 'O', 'M'];
    assert(com_name@ =~= com());
    let mut cur: &[char] = s;
    let mut d: usize = 0;
    let mut fuel: usize = m.len();
    loop
        invariant
            m.wf(),
            mm == as_map(m@),
            n == m@.len(),
            com_name@ == com(),
            n <= usize::MAX,
            d + fuel == n,
            match depth(mm, cur@, fuel as nat) {
                Some(x) => depth(mm, s@, n) == Some((x + d) as nat),
                None => depth(mm, s@, n) is None,
            },
        decreases fuel,
    {
        if same_name(cur, com_name.as_slice()) {
            return Ok(d);
        }
        if fuel == 0 {
            return Err(CountOrbitsError);
        }
        match m.center(cur) {
            None => return Err(CountOrbitsError),
            Some(c) => {
                cur = c.as_slice();
                d = d + 1;
                fuel = fuel - 1;
            },
        }
    }
}

pub open spec fn name_views(vs: Seq<Vec<char>>) -> Seq<Seq<char>> {
    vs.map_values(|v: Vec<char>| v@)
}

/// The objects from just above `COM` up to `s`.
pub fn assemble_path(s: &str, m: &OrbitMap) -> (r: Result<Vec<Vec<char>>, AssemblePathError>)
    requires
        m.wf(),
    ensures
        match path(as_map(m@), s@, m@.len()) {
            Some(p) => r matches Ok(v) && name_views(v@) == p,
            None => r is Err,
        },
{
    let start = chars_of(s);
    path_of(start.as_slice(), m)
}

fn path_of(s: &[char], m: &OrbitMap) -> (r: Result<Vec<Vec<char>>, AssemblePathError>)
    requires
        m.wf(),
    ensures
        match path(as_map(m@), s@, m@.len()) {
            Some(p) => r matches Ok(v) && name_views(v@) == p,
            None => r is Err,
        },
{
    let ghost mm = as_map(m@);
    let ghost n = m@.len();
    let com_name: Vec<char> = vec!['C', 'O', 'M'];
    assert(com_name@ =~= com());
    let mut cur: &[char] = s;
    let mut down: Vec<Vec<char>> = Vec::new();
    let mut fuel: usize = m.len();
    loop
        invariant
            m.wf(),
            mm == as_map(m@),
            n == m@.len(),
            com_name@ == com(),
            match path(mm, cur@, fuel as nat) {
                Some(p) => path(mm, s@, n) == Some(p + name_views(down@).reverse()),
                None => path(mm, s@, n) is None,
            },
        ensures
            cur@ == com(),
        decreases fuel,
    {
        if same_name(cur, com_name.as_slice()) {
            break;
        }
        if fuel == 0 {
            return Err(AssemblePathError);
        }
        match m.center(cur) {
            None => return Err(AssemblePathError),
            Some(c) => {
                let ghost old_down = name_views(down@);
                let ghost here = cur@;
                down.push(chars_slice(cur, 0, cur.len()));
                assert(cur@.subrange(0, cur@.len() as int) =~= cur@);
                assert(name_views(down@) =~= old_down.push(here));
                assert(old_down.push(here).reverse() =~= seq![here] + old_down.reverse());
                proof {
                    match path(mm, c@, (fuel - 1) as nat) {
                        Some(p) => {
                            assert(p.push(here) + old_down.reverse() =~= p + old_down.push(
                                here,
                            ).reverse());
                        },
                        None => {},
                    }
                }
                cur = c.as_slice();
                fuel = fuel - 1;
            },
        }
    }
    assert(path(mm, cur@, fuel as nat) == Some(Seq::<Seq<char>>::empty()));
    let mut up: Vec<Vec<char>> = Vec::new();
    let mut k: usize = down.len();
    while k > 0
        invariant
            k <= down@.len(),
            name_views(up@) == name_views(down@).reverse().take(down@.len() - k),
        decreases k,
    {
        k = k - 1;
        let ghost before = name_views(up@);
        up.push(chars_slice(down[k].as_slice(), 0, down[k].len()));
        assert(down@[k as int]@.subrange(0, down@[k as int]@.len() as int) =~= down@[k as int]@);
        assert(name_views(down@).reverse()[down@.len() - k - 1] == down@[k as int]@);
        assert(name_views(up@) =~= before.push(down@[k as int]@));
        assert(name_views(up@) =~= name_views(down@).reverse().take(down@.len() - k));
    }
    assert(name_views(down@).reverse().take(down@.len() as int) =~= name_views(down@).reverse());
    assert(Seq::<Seq<char>>::empty() + name_views(down@).reverse() =~= name_views(down@).reverse());
    Ok(up)
}

proof fn lemma_depth_bound(mm: Map<Seq<char>, Seq<char>>, s: Seq<char>, fuel: nat)
    ensures
        depth(mm, s, fuel) matches Some(d) ==> d <= fuel,
    decreases fuel,
{
    if s != com() && fuel > 0 && mm.contains_key(s) {
        lemma_depth_bound(mm, mm[s], (fuel - 1) as nat);
    }
}

/// The sum of the orbit counts of the objects of `es`; `None` when one has
/// no chain to `COM`.
pub open spec fn orbit_total(mm: Map<Seq<char>, Seq<char>>, es: Seq<(Seq<char>, Seq<char>)>, n: nat) -> Option<nat>
    decreases es.len(),
{
    if es.len() == 0 {
        Some(0)
    } else {
        match (orbit_total(mm, es.drop_last(), n), depth(mm, es.last().0, n)) {
            (Some(a), Some(b)) => Some(a + b),
            _ => None,
        }
    }
}

/// The number of direct and indirect orbits of all objects together.
pub fn total_orbits(m: &OrbitMap) -> (r: Result<u128, CountOrbitsError>)
    requires
        m.wf(),
    ensures
        match orbit_total(as_map(m@), m@, m@.len()) {
            Some(t) => r == Ok::<u128, CountOrbitsError>(t as u128),
            None => r is Err,
        },
{
    let ghost mm = as_map(m@);
    let n = m.len();
    let mut total: u128 = 0;
    let mut i: usize = 0;
    while i < n
        invariant
            m.wf(),
            mm == as_map(m@),
            n == m@.len(),
            i <= n,
            orbit_total(mm, m@.take(i as int), n as nat) == Some(total as nat),
            total <= i * n,
        decreases n - i,
    {
        let d = match depth_of(m.entries[i].0.as_slice(), m) {
            Ok(d) => d,
            Err(e) => {
                assert(m@.take(i + 1).drop_last() =~= m@.take(i as int));
                assert(orbit_total(mm, m@.take(i + 1), n as nat) is None);
                assert(orbit_total(mm, m@, n as nat) is None) by {
                    lemma_total_none(mm, m@, n as nat, i + 1);
                }
                return Err(e);
            },
        };
        proof {
            lemma_depth_bound(mm, m@[i as int].0, n as nat);
            assert(m@.take(i + 1).drop_last() =~= m@.take(i as int));
            assert(total + d <= (i + 1) * n) by (nonlinear_arith)
                requires
                    total <= i * n,
                    d <= n,
            ;
            assert((i + 1) * n <= n * n) by (nonlinear_arith)
                requires
                    i < n,
            ;
            assert(n * n <= 0xffff_ffff_ffff_ffff * 0xffff_ffff_ffff_ffffnat) by (nonlinear_arith)
                requires
                    n <= 0xffff_ffff_ffff_ffff,
            ;
        }
        total = total + d as u128;
        i = i + 1;
    }
    assert(m@.take(n as int) =~= m@);
    Ok(total)
}

proof fn lemma_total_none(mm: Map<Seq<char>, Seq<char>>, es: Seq<(Seq<char>, Seq<char>)>, n: nat, k: int)
    requires
        0 <= k <= es.len(),
        orbit_total(mm, es.take(k), n) is None,
    ensures
        orbit_total(mm, es, n) is None,
    decreases es.len() - k,
{
    if k < es.len() {
        assert(es.take(k + 1).drop_last() =~= es.take(k));
        lemma_total_none(mm, es, n, k + 1);
    } else {
        assert(es.take(k) =~= es);
    }
}

/// How many leading elements `a` and `b` share.
pub open spec fn common_prefix(a: Seq<Seq<char>>, b: Seq<Seq<char>>) -> nat
    decreases a.len(),
{
    if a.len() > 0 && b.len() > 0 && a[0] == b[0] {
        1 + common_prefix(a.drop_first(), b.drop_first())
    } else {
        0
    }
}

/// Orbital transfers from the object `YOU` orbits to the one `SAN` orbits:
/// both paths, less twice what they share, less the two objects themselves.
pub open spec fn transfer_count(mm: Map<Seq<char>, Seq<char>>, n: nat) -> Option<int> {
    match (path(mm, seq!['Y', 'O', 'U'], n), path(mm, seq!['S', 'A', 'N'], n)) {
        (Some(p), Some(q)) => Some(p.len() + q.len() - 2 * common_prefix(p, q) - 2),
        _ => None,
    }
}

/// The number of orbital transfers between the centers of `YOU` and `SAN`.
pub fn transfers(m: &OrbitMap) -> (r: Result<i128, AssemblePathError>)
    requires
        m.wf(),
    ensures
        match transfer_count(as_map(m@), m@.len()) {
            Some(t) => r == Ok::<i128, AssemblePathError>(t as i128),
            None => r is Err,
        },
{
    let you: Vec<char> = vec!['Y', 'O', 'U'];
    let san: Vec<char> = vec!['S', 'A', 'N'];
    assert(you@ =~= seq!['Y', 'O', 'U']);
    assert(san@ =~= seq!['S', 'A', 'N']);
    let p = path_of(you.as_slice(), m)?;
    let q = path_of(san.as_slice(), m)?;
    let ghost pv = name_views(p@);
    let ghost qv = name_views(q@);
    let mut same: usize = 0;
    assert(pv.skip(0) =~= pv);
    assert(qv.skip(0) =~= qv);
    while same < p.len() && same < q.len() && same_name(p[same].as_slice(), q[same].as_slice())
        invariant
            pv == name_views(p@),
            qv == name_views(q@),
            same <= p@.len(),
            same <= q@.len(),
            common_prefix(pv, qv) == same + common_prefix(pv.skip(same as int), qv.skip(same as int)),
        decreases p@.len() - same,
    {
        assert(pv.skip(same as int).drop_first() =~= pv.skip(same + 1));
        assert(qv.skip(same as int).drop_first() =~= qv.skip(same + 1));
        same = same + 1;
    }
    Ok(p.len() as i128 + q.len() as i128 - 2 * same as i128 - 2)
}

/// A copy of `s[a..b]`.
fn chars_slice(s: &[char], a: usize, b: usize) -> (r: Vec<char>)
    requires
        a <= b <= s@.len(),
    ensures
        r@ == s@.subrange(a as int, b as int),
{
    let mut r: Vec<char> = Vec::new();
    let mut i: usize = a;
    while i < b
        invariant
            a <= i <= b <= s@.len(),
            r@ == s@.subrange(a as int, i as int),
        decreases b - i,
    {
        r.push(s[i]);
        assert(r@ =~= s@.subrange(a as int, i + 1));
        i = i + 1;
    }
    r
}

} // verus!
