use std::collections::HashMap;
use std::collections::HashSet;
use vstd::prelude::*;
use vstd::arithmetic::div_mod::lemma_fundamental_div_mod_converse;
use crate::material::Material;
use crate::material::MaterialKind;

verus! {

broadcast use vstd::std_specs::hash::group_hash_axioms;

/// Integer coordinates of a unit cube centred on `(x, y, z)`.
pub type Coord = (i32, i32, i32);

const SHIFT: u128 = 0x8000_0000;
const RADIX: u128 = 0x1_0000_0000;

/// Every coordinate packed into one integer key: each component is offset
/// into `[0, 2^32)` and the three are laid out as digits in base `2^32`.
spec fn key_of(c: Coord) -> int {
    (c.0 as int + SHIFT) * (RADIX * RADIX) + (c.1 as int + SHIFT) * RADIX + (c.2 as int + SHIFT)
}

spec fn key_bound() -> int {
    RADIX * RADIX * RADIX
}

proof fn lemma_key_digits(c: Coord)
    ensures
        0 <= key_of(c) < key_bound(),
        key_of(c) % (RADIX as int) == c.2 as int + SHIFT,
        (key_of(c) / (RADIX as int)) % (RADIX as int) == c.1 as int + SHIFT,
        key_of(c) / (RADIX as int) / (RADIX as int) == c.0 as int + SHIFT,
{
    let r = RADIX as int;
    let a = c.0 as int + SHIFT;
    let b = c.1 as int + SHIFT;
    let d = c.2 as int + SHIFT;
    let k = key_of(c);
    assert(r == 0x1_0000_0000);
    assert(k == (a * r + b) * r + d) by (nonlinear_arith)
        requires
            k == a * (r * r) + b * r + d,
    ;
    assert(0 <= a < r && 0 <= b < r && 0 <= d < r);
    assert(0 <= k < r * r * r) by (nonlinear_arith)
        requires
            k == a * (r * r) + b * r + d,
            0 <= a < r,
            0 <= b < r,
            0 <= d < r,
    ;
    lemma_fundamental_div_mod_converse(k, r, a * r + b, d);
    lemma_fundamental_div_mod_converse(a * r + b, r, a, b);
}

/// The key of a coordinate as stored in the hash tables.
spec fn slot(c: Coord) -> u128 {
    key_of(c) as u128
}

/// Distinct coordinates have distinct slots.
proof fn lemma_slot_injective(c: Coord, e: Coord)
    ensures
        slot(c) == slot(e) ==> c == e,
{
    lemma_key_digits(c);
    lemma_key_digits(e);
}

broadcast proof fn lemma_slot_injective_auto(c: Coord, e: Coord)
    ensures
        #[trigger] slot(c) == #[trigger] slot(e) ==> c == e,
{
    lemma_slot_injective(c, e);
}

fn pack(x: i32, y: i32, z: i32) -> (k: u128)
    ensures
        k == slot((x, y, z)),
{
    proof {
        lemma_key_digits((x, y, z));
    }
    let a = (x as i64 + 0x8000_0000) as u128;
    let b = (y as i64 + 0x8000_0000) as u128;
    let d = (z as i64 + 0x8000_0000) as u128;
    a * (RADIX * RADIX) + b * RADIX + d
}

/// The coordinate whose slot is `k`, where there is one.
spec fn coord_of(k: u128) -> Coord {
    choose|c: Coord| slot(c) == k
}

fn unpack(k: u128) -> (c: Coord)
    requires
        exists|e: Coord| slot(e) == k,
    ensures
        slot(c) == k,
        c == coord_of(k),
{
    let ghost e = coord_of(k);
    proof {
        lemma_key_digits(e);
    }
    let d = (k % RADIX) as i64 - 0x8000_0000;
    let b = ((k / RADIX) % RADIX) as i64 - 0x8000_0000;
    let a = (k / RADIX / RADIX) as i64 - 0x8000_0000;
    (a as i32, b as i32, d as i32)
}

/// Whether `c` is occupied in `g` while the cell directly above it is
/// empty (there is no cell above the topmost row).
pub open spec fn exposed_in(g: Map<Coord, Material>, c: Coord) -> bool {
    &&& g.contains_key(c)
    &&& (c.1 == i32::MAX || !g.contains_key((c.0, (c.1 + 1) as i32, c.2)))
}

pub open spec fn min_coord(a: Coord, b: Coord) -> Coord {
    (
        if a.0 <= b.0 { a.0 } else { b.0 },
        if a.1 <= b.1 { a.1 } else { b.1 },
        if a.2 <= b.2 { a.2 } else { b.2 },
    )
}

pub open spec fn max_coord(a: Coord, b: Coord) -> Coord {
    (
        if a.0 >= b.0 { a.0 } else { b.0 },
        if a.1 >= b.1 { a.1 } else { b.1 },
        if a.2 >= b.2 { a.2 } else { b.2 },
    )
}

/// `c` lies in the box spanned by `lo` and `hi`, grown by `pad` cells on every side.
pub open spec fn in_box(c: Coord, lo: Coord, hi: Coord, pad: int) -> bool {
    &&& lo.0 - pad <= c.0 <= hi.0 + pad
    &&& lo.1 - pad <= c.1 <= hi.1 + pad
    &&& lo.2 - pad <= c.2 <= hi.2 + pad
}

/// Component `a` (0, 1 or 2) of a coordinate.
pub open spec fn axis(c: Coord, a: int) -> int {
    if a == 0 {
        c.0 as int
    } else if a == 1 {
        c.1 as int
    } else {
        c.2 as int
    }
}

/// `m` is the least of `m0` and of component `a` over the cells of `s`.
pub open spec fn least_over(m: int, m0: int, s: Set<Coord>, a: int) -> bool {
    &&& m <= m0
    &&& forall|c: Coord| #[trigger] s.contains(c) ==> m <= axis(c, a)
    &&& (m == m0 || exists|c: Coord| #[trigger] s.contains(c) && axis(c, a) == m)
}

/// `m` is the greatest of `m0` and of component `a` over the cells of `s`.
pub open spec fn greatest_over(m: int, m0: int, s: Set<Coord>, a: int) -> bool {
    &&& m >= m0
    &&& forall|c: Coord| #[trigger] s.contains(c) ==> m >= axis(c, a)
    &&& (m == m0 || exists|c: Coord| #[trigger] s.contains(c) && axis(c, a) == m)
}

/// The box `lo..hi` is the box `lo0..hi0` grown just enough to cover the cells of `s`.
pub open spec fn box_grown(lo0: Coord, hi0: Coord, s: Set<Coord>, lo: Coord, hi: Coord) -> bool {
    &&& least_over(lo.0 as int, lo0.0 as int, s, 0)
    &&& least_over(lo.1 as int, lo0.1 as int, s, 1)
    &&& least_over(lo.2 as int, lo0.2 as int, s, 2)
    &&& greatest_over(hi.0 as int, hi0.0 as int, s, 0)
    &&& greatest_over(hi.1 as int, hi0.1 as int, s, 1)
    &&& greatest_over(hi.2 as int, hi0.2 as int, s, 2)
}

proof fn lemma_least_compose(m0: int, m1: int, m2: int, s: Set<Coord>, t: Set<Coord>, a: int)
    requires
        least_over(m1, m0, s, a),
        least_over(m2, m1, t, a),
    ensures
        least_over(m2, m0, s.union(t), a),
{
    if m2 != m0 {
        if m2 == m1 {
            let c = choose|c: Coord| #[trigger] s.contains(c) && axis(c, a) == m1;
            assert(s.union(t).contains(c));
        } else {
            let c = choose|c: Coord| #[trigger] t.contains(c) && axis(c, a) == m2;
            assert(s.union(t).contains(c));
        }
    }
}

proof fn lemma_greatest_compose(m0: int, m1: int, m2: int, s: Set<Coord>, t: Set<Coord>, a: int)
    requires
        greatest_over(m1, m0, s, a),
        greatest_over(m2, m1, t, a),
    ensures
        greatest_over(m2, m0, s.union(t), a),
{
    if m2 != m0 {
        if m2 == m1 {
            let c = choose|c: Coord| #[trigger] s.contains(c) && axis(c, a) == m1;
            assert(s.union(t).contains(c));
        } else {
            let c = choose|c: Coord| #[trigger] t.contains(c) && axis(c, a) == m2;
            assert(s.union(t).contains(c));
        }
    }
}

pub(crate) proof fn lemma_box_compose(
    lo0: Coord,
    hi0: Coord,
    lo1: Coord,
    hi1: Coord,
    lo2: Coord,
    hi2: Coord,
    s: Set<Coord>,
    t: Set<Coord>,
)
    requires
        box_grown(lo0, hi0, s, lo1, hi1),
        box_grown(lo1, hi1, t, lo2, hi2),
    ensures
        box_grown(lo0, hi0, s.union(t), lo2, hi2),
{
    lemma_least_compose(lo0.0 as int, lo1.0 as int, lo2.0 as int, s, t, 0);
    lemma_least_compose(lo0.1 as int, lo1.1 as int, lo2.1 as int, s, t, 1);
    lemma_least_compose(lo0.2 as int, lo1.2 as int, lo2.2 as int, s, t, 2);
    lemma_greatest_compose(hi0.0 as int, hi1.0 as int, hi2.0 as int, s, t, 0);
    lemma_greatest_compose(hi0.1 as int, hi1.1 as int, hi2.1 as int, s, t, 1);
    lemma_greatest_compose(hi0.2 as int, hi1.2 as int, hi2.2 as int, s, t, 2);
}

/// Growing a box to cover one cell takes the componentwise extremes.
pub(crate) proof fn lemma_box_insert(lo: Coord, hi: Coord, c: Coord)
    ensures
        box_grown(lo, hi, set![c], min_coord(lo, c), max_coord(hi, c)),
{
    assert(set![c].contains(c));
    assert(axis(c, 0) == c.0 && axis(c, 1) == c.1 && axis(c, 2) == c.2);
}

/// `g` with every cell of `s` that `g` leaves empty filled with `mat`.
pub open spec fn filled(g: Map<Coord, Material>, s: Set<Coord>, mat: Material) -> Map<Coord, Material> {
    Map::new(
        |c: Coord| g.contains_key(c) || s.contains(c),
        |c: Coord| if g.contains_key(c) { g[c] } else { mat },
    )
}

pub(crate) proof fn lemma_filled_compose(g: Map<Coord, Material>, s: Set<Coord>, t: Set<Coord>, mat: Material)
    ensures
        filled(filled(g, s, mat), t, mat) == filled(g, s.union(t), mat),
        s.difference(g.dom()).union(t.difference(filled(g, s, mat).dom()))
            == s.union(t).difference(g.dom()),
{
    assert(filled(filled(g, s, mat), t, mat) =~= filled(g, s.union(t), mat));
    assert(s.difference(g.dom()).union(t.difference(filled(g, s, mat).dom()))
        =~= s.union(t).difference(g.dom()));
}

/// The cells that bound a water cell `w` from below and on its four sides.
pub open spec fn border_of(w: Coord, c: Coord) -> bool {
    ||| (c.0 == w.0 && c.1 == w.1 - 1 && c.2 == w.2)
    ||| (c.0 == w.0 + 1 && c.1 == w.1 && c.2 == w.2)
    ||| (c.0 == w.0 - 1 && c.1 == w.1 && c.2 == w.2)
    ||| (c.0 == w.0 && c.1 == w.1 && c.2 == w.2 + 1)
    ||| (c.0 == w.0 && c.1 == w.1 && c.2 == w.2 - 1)
}

pub open spec fn is_water_at(g: Map<Coord, Material>, w: Coord) -> bool {
    g.contains_key(w) && g[w].kind == MaterialKind::Water
}

/// `c` is below or beside some water cell of `g`.
pub open spec fn borders_water(g: Map<Coord, Material>, c: Coord) -> bool {
    exists|w: Coord| #[trigger] is_water_at(g, w) && border_of(w, c)
}

/// The cell `c` of `g` is occupied by a material that stops a shadow ray.
pub open spec fn blocks_at(g: Map<Coord, Material>, c: Coord, ignore_water: bool) -> bool {
    g.contains_key(c) && g[c].kind.spec_blocks_light(ignore_water)
}

/// Along `path`, a blocking cell comes before the path leaves the box
/// `lo..hi` grown by one cell.
pub open spec fn blocked_along(
    g: Map<Coord, Material>,
    lo: Coord,
    hi: Coord,
    path: Seq<Coord>,
    ignore_water: bool,
) -> bool {
    exists|i: int|
        0 <= i < path.len() && #[trigger] blocks_at(g, path[i], ignore_water)
            && forall|j: int| 0 <= j <= i ==> #[trigger] in_box(path[j], lo, hi, 1)
}

/// A sparse grid of unit cubes, each holding one material, with a loose
/// bounding box that grows on insertion and a set of top-exposed cells that
/// is rebuilt on request.
pub struct VoxelWorld {
    voxels: HashMap<u128, Material>,
    exposed: HashSet<u128>,
    min: Coord,
    max: Coord,
}

impl VoxelWorld {
    /// The occupied cells and their materials.
    pub closed spec fn grid(self) -> Map<Coord, Material> {
        Map::new(
            |c: Coord| self.voxels@.contains_key(slot(c)),
            |c: Coord| self.voxels@[slot(c)],
        )
    }

    /// The cells recorded as top-exposed by the last rebuild.
    pub closed spec fn exposed_cells(self) -> Set<Coord> {
        Set::new(|c: Coord| self.exposed@.contains(slot(c)))
    }

    /// Lower corner of the loose bounding box.
    pub closed spec fn lower(self) -> Coord {
        self.min
    }

    /// Upper corner of the loose bounding box.
    pub closed spec fn upper(self) -> Coord {
        self.max
    }

    pub closed spec fn wf(self) -> bool {
        &&& forall|k: u128| #[trigger] self.voxels@.contains_key(k) ==> exists|c: Coord| slot(c) == k
        &&& forall|k: u128| #[trigger] self.exposed@.contains(k) ==> exists|c: Coord| slot(c) == k
        &&& forall|c: Coord| #[trigger] self.grid().contains_key(c) ==> in_box(c, self.min, self.max, 0)
    }

    /// An empty world whose bounding box is inverted, so that the first
    /// insertion sets it.
    pub fn new() -> (w: VoxelWorld)
        ensures
            w.wf(),
            w.grid() == Map::<Coord, Material>::empty(),
            w.exposed_cells() == Set::<Coord>::empty(),
            w.lower() == (i32::MAX, i32::MAX, i32::MAX),
            w.upper() == (i32::MIN, i32::MIN, i32::MIN),
    {
        let w = VoxelWorld {
            voxels: HashMap::new(),
            exposed: HashSet::new(),
            min: (i32::MAX, i32::MAX, i32::MAX),
            max: (i32::MIN, i32::MIN, i32::MIN),
        };
        assert(w.grid() =~= Map::<Coord, Material>::empty());
        assert(w.exposed_cells() =~= Set::<Coord>::empty());
        w
    }

    /// Places `mat` at `(x, y, z)`, replacing what was there, and grows the
    /// bounding box to cover it. The exposed set is left as it was.
    pub fn add_voxel(&mut self, x: i32, y: i32, z: i32, mat: Material)
        requires
            old(self).wf(),
        ensures
            final(self).wf(),
            final(self).grid() == old(self).grid().insert((x, y, z), mat),
            final(self).exposed_cells() == old(self).exposed_cells(),
            final(self).lower() == min_coord(old(self).lower(), (x, y, z)),
            final(self).upper() == max_coord(old(self).upper(), (x, y, z)),
    {
        broadcast use lemma_slot_injective_auto;
        let k = pack(x, y, z);
        self.voxels.insert(k, mat);
        if x < self.min.0 { self.min.0 = x; }
        if y < self.min.1 { self.min.1 = y; }
        if z < self.min.2 { self.min.2 = z; }
        if x > self.max.0 { self.max.0 = x; }
        if y > self.max.1 { self.max.1 = y; }
        if z > self.max.2 { self.max.2 = z; }
        assert(self.grid() =~= old(self).grid().insert((x, y, z), mat));
        assert(self.exposed_cells() =~= old(self).exposed_cells());
    }

    /// Empties `(x, y, z)`. The bounding box is not shrunk and the exposed
    /// set is left as it was.
    pub fn remove_voxel(&mut self, x: i32, y: i32, z: i32)
        requires
            old(self).wf(),
        ensures
            final(self).wf(),
            final(self).grid() == old(self).grid().remove((x, y, z)),
            final(self).exposed_cells() == old(self).exposed_cells(),
            final(self).lower() == old(self).lower(),
            final(self).upper() == old(self).upper(),
    {
        broadcast use lemma_slot_injective_auto;
        let k = pack(x, y, z);
        self.voxels.remove(&k);
        assert(self.grid() =~= old(self).grid().remove((x, y, z)));
        assert(self.exposed_cells() =~= old(self).exposed_cells());
    }

    /// Fills `(x, y, z)` with `mat` if it is empty.
    pub(crate) fn fill_cell(&mut self, x: i32, y: i32, z: i32, mat: Material)
        requires
            old(self).wf(),
        ensures
            final(self).wf(),
            final(self).grid() == filled(old(self).grid(), set![(x, y, z)], mat),
            box_grown(
                old(self).lower(),
                old(self).upper(),
                set![(x, y, z)].difference(old(self).grid().dom()),
                final(self).lower(),
                final(self).upper(),
            ),
            final(self).exposed_cells() == old(self).exposed_cells(),
    {
        let ghost s = set![(x, y, z)];
        if !self.has_voxel(x, y, z) {
            self.add_voxel(x, y, z, mat);
            assert(s.difference(old(self).grid().dom()) =~= s);
            assert(self.grid() =~= filled(old(self).grid(), s, mat));
            assert(s.contains((x, y, z)));
            assert(axis((x, y, z), 0) == x && axis((x, y, z), 1) == y && axis((x, y, z), 2) == z);
        } else {
            assert(s.difference(old(self).grid().dom()) =~= Set::empty());
            assert(self.grid() =~= filled(old(self).grid(), s, mat));
        }
    }

    /// Fills the empty cells below and beside `w` with `mat`.
    fn fill_border(&mut self, w: Coord, mat: Material)
        requires
            old(self).wf(),
        ensures
            final(self).wf(),
            final(self).grid() == filled(old(self).grid(), Set::new(|c: Coord| border_of(w, c)), mat),
            box_grown(
                old(self).lower(),
                old(self).upper(),
                Set::new(|c: Coord| border_of(w, c)).difference(old(self).grid().dom()),
                final(self).lower(),
                final(self).upper(),
            ),
            final(self).exposed_cells() == old(self).exposed_cells(),
    {
        let ghost g0 = self.grid();
        let ghost lo0 = self.lower();
        let ghost hi0 = self.upper();
        let ghost mut done: Set<Coord> = Set::empty();
        proof {
            assert(filled(g0, done, mat) =~= g0);
            assert(done.difference(g0.dom()) =~= Set::empty());
        }
        if w.1 > i32::MIN {
            let ghost g1 = self.grid();
            let ghost lo1 = self.lower();
            let ghost hi1 = self.upper();
            self.fill_cell(w.0, w.1 - 1, w.2, mat);
            proof {
                let t = set![(w.0, (w.1 - 1) as i32, w.2)];
                lemma_filled_compose(g0, done, t, mat);
                lemma_box_compose(lo0, hi0, lo1, hi1, self.lower(), self.upper(),
                    done.difference(g0.dom()), t.difference(g1.dom()));
                done = done.union(t);
            }
        }
        if w.0 < i32::MAX {
            let ghost g1 = self.grid();
            let ghost lo1 = self.lower();
            let ghost hi1 = self.upper();
            self.fill_cell(w.0 + 1, w.1, w.2, mat);
            proof {
                let t = set![((w.0 + 1) as i32, w.1, w.2)];
                lemma_filled_compose(g0, done, t, mat);
                lemma_box_compose(lo0, hi0, lo1, hi1, self.lower(), self.upper(),
                    done.difference(g0.dom()), t.difference(g1.dom()));
                done = done.union(t);
            }
        }
        if w.0 > i32::MIN {
            let ghost g1 = self.grid();
            let ghost lo1 = self.lower();
            let ghost hi1 = self.upper();
            self.fill_cell(w.0 - 1, w.1, w.2, mat);
            proof {
                let t = set![((w.0 - 1) as i32, w.1, w.2)];
                lemma_filled_compose(g0, done, t, mat);
                lemma_box_compose(lo0, hi0, lo1, hi1, self.lower(), self.upper(),
                    done.difference(g0.dom()), t.difference(g1.dom()));
                done = done.union(t);
            }
        }
        if w.2 < i32::MAX {
            let ghost g1 = self.grid();
            let ghost lo1 = self.lower();
            let ghost hi1 = self.upper();
            self.fill_cell(w.0, w.1, w.2 + 1, mat);
            proof {
                let t = set![(w.0, w.1, (w.2 + 1) as i32)];
                lemma_filled_compose(g0, done, t, mat);
                lemma_box_compose(lo0, hi0, lo1, hi1, self.lower(), self.upper(),
                    done.difference(g0.dom()), t.difference(g1.dom()));
                done = done.union(t);
            }
        }
        if w.2 > i32::MIN {
            let ghost g1 = self.grid();
            let ghost lo1 = self.lower();
            let ghost hi1 = self.upper();
            self.fill_cell(w.0, w.1, w.2 - 1, mat);
            proof {
                let t = set![(w.0, w.1, (w.2 - 1) as i32)];
                lemma_filled_compose(g0, done, t, mat);
                lemma_box_compose(lo0, hi0, lo1, hi1, self.lower(), self.upper(),
                    done.difference(g0.dom()), t.difference(g1.dom()));
                done = done.union(t);
            }
        }
        assert(done =~= Set::new(|c: Coord| border_of(w, c)));
    }

    /// The water cells of the grid, in no particular order.
    #[verifier::rlimit(60)]
    fn water_cells(&self) -> (ws: Vec<Coord>)
        requires
            self.wf(),
        ensures
            forall|i: int| 0 <= i < ws.len() ==> is_water_at(self.grid(), #[trigger] ws@[i]),
            forall|w: Coord| #[trigger] is_water_at(self.grid(), w) ==> ws@.contains(w),
    {
        let mut ws: Vec<Coord> = Vec::new();
        for k in it: self.voxels.keys()
            invariant
                self.wf(),
                it.seq().unref().to_set() == self.voxels@.dom(),
                forall|i: int| 0 <= i < ws.len() ==> is_water_at(self.grid(), #[trigger] ws@[i]),
                forall|i: int| #![trigger it.seq()[i]] 0 <= i < it.index()
                    && is_water_at(self.grid(), coord_of(*it.seq()[i]))
                    ==> ws@.contains(coord_of(*it.seq()[i])),
        {
            assert(it.seq().unref()[it.index() as int] == *k);
            assert(it.seq().unref().contains(*k));
            assert(self.voxels@.contains_key(*k));
            let c = unpack(*k);
            match self.voxels.get(k) {
                Some(m) => {
                    if m.kind == MaterialKind::Water {
                        let ghost before = ws@;
                        ws.push(c);
                        proof {
                            assert(ws@[ws.len() - 1] == c);
                            assert forall|x: Coord| before.contains(x) implies ws@.contains(x) by {
                                let j = choose|j: int| 0 <= j < before.len() && before[j] == x;
                                assert(ws@[j] == x);
                            }
                        }
                    }
                },
                None => {},
            }
        }
        ws
    }

    /// Closes every water cell in from below and on its four sides: each of
    /// those cells that is empty is filled with `terrain_mat`. The exposed set
    /// is then rebuilt.
    pub fn enforce_water_border(&mut self, terrain_mat: Material)
        requires
            old(self).wf(),
        ensures
            final(self).wf(),
            final(self).grid() == filled(
                old(self).grid(),
                Set::new(|c: Coord| borders_water(old(self).grid(), c)),
                terrain_mat,
            ),
            box_grown(
                old(self).lower(),
                old(self).upper(),
                Set::new(|c: Coord| borders_water(old(self).grid(), c)).difference(
                    old(self).grid().dom(),
                ),
                final(self).lower(),
                final(self).upper(),
            ),
            final(self).exposed_cells() == rebuilt_exposure(final(self).grid()),
    {
        let ghost g0 = self.grid();
        let ghost lo0 = self.lower();
        let ghost hi0 = self.upper();
        let ws = self.water_cells();
        let ghost mut done: Set<Coord> = Set::empty();
        proof {
            assert(filled(g0, done, terrain_mat) =~= g0);
            assert(done.difference(g0.dom()) =~= Set::empty());
        }
        for i in 0..ws.len()
            invariant
                self.wf(),
                forall|j: int| 0 <= j < ws.len() ==> is_water_at(g0, #[trigger] ws@[j]),
                done == Set::new(|c: Coord| exists|j: int| 0 <= j < i && border_of(#[trigger] ws@[j], c)),
                self.grid() == filled(g0, done, terrain_mat),
                box_grown(lo0, hi0, done.difference(g0.dom()), self.lower(), self.upper()),
        {
            let ghost g1 = self.grid();
            let ghost lo1 = self.lower();
            let ghost hi1 = self.upper();
            let w = ws[i];
            self.fill_border(w, terrain_mat);
            proof {
                let t = Set::new(|c: Coord| border_of(w, c));
                lemma_filled_compose(g0, done, t, terrain_mat);
                lemma_box_compose(lo0, hi0, lo1, hi1, self.lower(), self.upper(),
                    done.difference(g0.dom()), t.difference(g1.dom()));
                let next = Set::new(|c: Coord| exists|j: int| 0 <= j < i + 1 && border_of(#[trigger] ws@[j], c));
                assert forall|c: Coord| next.contains(c) <==> done.union(t).contains(c) by {
                    if next.contains(c) {
                        let j = choose|j: int| 0 <= j < i + 1 && border_of(#[trigger] ws@[j], c);
                        if j < i {
                            assert(done.contains(c));
                        }
                    }
                    if t.contains(c) {
                        assert(border_of(ws@[i as int], c));
                    }
                }
                assert(next =~= done.union(t));
                done = next;
            }
        }
        proof {
            let target = Set::new(|c: Coord| borders_water(g0, c));
            assert forall|c: Coord| done.contains(c) <==> target.contains(c) by {
                if done.contains(c) {
                    let j = choose|j: int| 0 <= j < ws.len() && border_of(#[trigger] ws@[j], c);
                    assert(is_water_at(g0, ws@[j]));
                }
                if target.contains(c) {
                    let w = choose|w: Coord| #[trigger] is_water_at(g0, w) && border_of(w, c);
                    assert(ws@.contains(w));
                    let j = choose|j: int| 0 <= j < ws.len() && ws@[j] == w;
                    assert(border_of(ws@[j], c));
                }
            }
            assert(done =~= target);
        }
        self.recompute_exposed();
    }

    pub fn has_voxel(&self, x: i32, y: i32, z: i32) -> (r: bool)
        requires
            self.wf(),
        ensures
            r == self.grid().contains_key((x, y, z)),
    {
        let k = pack(x, y, z);
        self.voxels.contains_key(&k)
    }

    pub fn voxel_material(&self, x: i32, y: i32, z: i32) -> (r: Option<Material>)
        requires
            self.wf(),
        ensures
            r == (if self.grid().contains_key((x, y, z)) {
                Some(self.grid()[(x, y, z)])
            } else {
                None
            }),
    {
        let k = pack(x, y, z);
        match self.voxels.get(&k) {
            Some(m) => Some(*m),
            None => None,
        }
    }

    /// Rebuilds the exposed set from the grid in one pass over the cells.
    pub fn recompute_exposed(&mut self)
        requires
            old(self).wf(),
        ensures
            final(self).wf(),
            final(self).grid() == old(self).grid(),
            final(self).lower() == old(self).lower(),
            final(self).upper() == old(self).upper(),
            final(self).exposed_cells() == rebuilt_exposure(old(self).grid()),
    {
        broadcast use lemma_slot_injective_auto;
        let mut fresh: HashSet<u128> = HashSet::new();
        for k in it: self.voxels.keys()
            invariant
                self.wf(),
                it.seq().unref().to_set() == self.voxels@.dom(),
                forall|j: u128| #[trigger] fresh@.contains(j) ==>
                    exists|c: Coord| slot(c) == j && exposed_in(self.grid(), c),
                forall|i: int| #![trigger it.seq()[i]] 0 <= i < it.index()
                    && exposed_in(self.grid(), coord_of(*it.seq()[i]))
                    ==> fresh@.contains(*it.seq()[i]),
        {
            assert(it.seq().unref()[it.index() as int] == *k);
            assert(it.seq().unref().contains(*k));
            assert(self.voxels@.contains_key(*k));
            let c = unpack(*k);
            let above = if c.1 == i32::MAX { false } else { self.has_voxel(c.0, c.1 + 1, c.2) };
            if !above {
                fresh.insert(*k);
            }
        }
        self.exposed = fresh;
        assert(self.exposed_cells() =~= rebuilt_exposure(old(self).grid()));
    }

    pub fn is_empty(&self) -> (r: bool)
        requires
            self.wf(),
        ensures
            r == self.grid().dom().is_empty(),
    {
        let r = self.voxels.is_empty();
        proof {
            if !r {
                let k = choose|k: u128| self.voxels@.contains_key(k);
                let c = choose|c: Coord| slot(c) == k;
                assert(self.grid().dom().contains(c));
            }
        }
        r
    }

    /// The loose bounding box as its lowest and highest cells, or `None`
    /// when no cell is occupied.
    pub fn aabb_bounds(&self) -> (r: Option<(Coord, Coord)>)
        requires
            self.wf(),
        ensures
            r == (if self.grid().dom().is_empty() {
                None
            } else {
                Some((self.lower(), self.upper()))
            }),
    {
        if self.is_empty() {
            None
        } else {
            Some((self.min, self.max))
        }
    }

    /// Whether a traversal may still visit `(x, y, z)`: the cell lies in the
    /// bounding box grown by one cell on every side.
    pub fn in_traversal_range(&self, x: i32, y: i32, z: i32) -> (r: bool)
        ensures
            r == in_box((x, y, z), self.lower(), self.upper(), 1),
    {
        let (x, y, z) = (x as i64, y as i64, z as i64);
        self.min.0 as i64 - 1 <= x && x <= self.max.0 as i64 + 1
            && self.min.1 as i64 - 1 <= y && y <= self.max.1 as i64 + 1
            && self.min.2 as i64 - 1 <= z && z <= self.max.2 as i64 + 1
    }

    /// Whether the cell `(x, y, z)` stops a shadow ray: it is occupied by a
    /// material that blocks light (water counts as clear with `ignore_water`).
    pub fn blocks_shadow(&self, x: i32, y: i32, z: i32, ignore_water: bool) -> (r: bool)
        requires
            self.wf(),
        ensures
            r == (self.grid().contains_key((x, y, z))
                && self.grid()[(x, y, z)].kind.spec_blocks_light(ignore_water)),
    {
        match self.voxel_material(x, y, z) {
            Some(m) => m.kind.blocks_light(ignore_water),
            None => false,
        }
    }

    /// Whether a shadow ray crossing `path` (the cells it visits, in order)
    /// is stopped: some cell of it blocks light, and neither it nor any
    /// cell before it has left the traversal range.
    pub fn path_blocked(&self, path: &Vec<Coord>, ignore_water: bool) -> (r: bool)
        requires
            self.wf(),
        ensures
            r == blocked_along(self.grid(), self.lower(), self.upper(), path@, ignore_water),
    {
        let mut i: usize = 0;
        while i < path.len()
            invariant
                self.wf(),
                i <= path.len(),
                forall|j: int| #![trigger path@[j]] 0 <= j < i ==>
                    in_box(path@[j], self.lower(), self.upper(), 1)
                    && !blocks_at(self.grid(), path@[j], ignore_water),
            decreases path.len() - i,
        {
            let c = path[i];
            if !self.in_traversal_range(c.0, c.1, c.2) {
                proof {
                    assert forall|k: int|
                        0 <= k < path.len() && #[trigger] blocks_at(self.grid(), path@[k], ignore_water)
                        implies !(forall|j: int| 0 <= j <= k ==> #[trigger] in_box(path@[j], self.lower(), self.upper(), 1)) by {
                        if k >= i {
                            assert(!in_box(path@[i as int], self.lower(), self.upper(), 1));
                        } else {
                            assert(!blocks_at(self.grid(), path@[k], ignore_water));
                        }
                    }
                }
                return false;
            }
            if self.blocks_shadow(c.0, c.1, c.2, ignore_water) {
                proof {
                    assert(blocks_at(self.grid(), path@[i as int], ignore_water));
                    assert forall|j: int| 0 <= j <= i implies #[trigger] in_box(path@[j], self.lower(), self.upper(), 1) by {
                    }
                }
                return true;
            }
            i += 1;
        }
        proof {
            assert forall|k: int| 0 <= k < path.len() implies !#[trigger] blocks_at(self.grid(), path@[k], ignore_water) by {
                assert(in_box(path@[k], self.lower(), self.upper(), 1));
            }
        }
        false
    }

    pub fn is_top_exposed(&self, x: i32, y: i32, z: i32) -> (r: bool)
        requires
            self.wf(),
        ensures
            r == self.exposed_cells().contains((x, y, z)),
    {
        let k = pack(x, y, z);
        self.exposed.contains(&k)
    }
}

/// The exposed set that a rebuild leaves: the top-exposed cells of the grid.
pub open spec fn rebuilt_exposure(g: Map<Coord, Material>) -> Set<Coord> {
    Set::new(|c: Coord| exposed_in(g, c))
}

/// Rebuilding the exposed set twice with no mutation in between yields the
/// same set as the first rebuild.
pub proof fn law_recompute_exposed_idempotent(w0: VoxelWorld, w1: VoxelWorld, w2: VoxelWorld)
    requires
        w1.grid() == w0.grid(),
        w1.exposed_cells() == rebuilt_exposure(w0.grid()),
        w2.grid() == w1.grid(),
        w2.exposed_cells() == rebuilt_exposure(w1.grid()),
    ensures
        w2.exposed_cells() == w1.exposed_cells(),
        w2.grid() == w0.grid(),
{
}

/// Adding a voxel at `p` and then removing it leaves `p` empty, restores
/// every other cell, and a rebuild then leaves `p` out of the exposed set.
pub proof fn law_add_remove_round_trip(
    w0: VoxelWorld,
    w1: VoxelWorld,
    w2: VoxelWorld,
    w3: VoxelWorld,
    p: Coord,
    m: Material,
)
    requires
        w1.grid() == w0.grid().insert(p, m),
        w2.grid() == w1.grid().remove(p),
        w3.grid() == w2.grid(),
        w3.exposed_cells() == rebuilt_exposure(w2.grid()),
    ensures
        !w2.grid().contains_key(p),
        w2.grid() == w0.grid().remove(p),
        !w3.exposed_cells().contains(p),
{
    assert(w2.grid() =~= w0.grid().remove(p));
}

} // verus!
