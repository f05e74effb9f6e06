use vstd::prelude::*;
use crate::material::Material;
use crate::voxel_world::box_grown;
use crate::voxel_world::filled;
use crate::voxel_world::lemma_filled_compose;
use crate::voxel_world::lemma_box_compose;
use crate::voxel_world::lemma_box_insert;
use crate::voxel_world::Coord;
use crate::voxel_world::VoxelWorld;

verus! {

/// Height of a tree trunk in cells; the top one is hidden in the leaves.
pub const TRUNK_HEIGHT: i32 = 5;

/// `g` with every cell of `s` set to `mat`, whatever was there.
pub open spec fn painted(g: Map<Coord, Material>, s: Set<Coord>, mat: Material) -> Map<Coord, Material> {
    Map::new(
        |c: Coord| g.contains_key(c) || s.contains(c),
        |c: Coord| if s.contains(c) { mat } else { g[c] },
    )
}

/// A square of side `2r + 1` at height `y` centred on `(cx, cz)`, without
/// its four corners when `cut` holds.
pub open spec fn layer_cell(cx: int, y: int, cz: int, r: int, cut: bool, c: Coord) -> bool {
    &&& c.1 == y
    &&& cx - r <= c.0 <= cx + r
    &&& cz - r <= c.2 <= cz + r
    &&& !(cut && (c.0 == cx - r || c.0 == cx + r) && (c.2 == cz - r || c.2 == cz + r))
}

pub open spec fn layer(cx: int, y: int, cz: int, r: int, cut: bool) -> Set<Coord> {
    Set::new(|c: Coord| layer_cell(cx, y, cz, r, cut, c))
}

/// The cells of a layer that come before `(cx + dx, cz + dz)` in row order.
spec fn layer_prefix(cx: int, y: int, cz: int, r: int, cut: bool, dx: int, dz: int) -> Set<Coord> {
    Set::new(
        |c: Coord|
            layer_cell(cx, y, cz, r, cut, c) && (c.0 < cx + dx || (c.0 == cx + dx && c.2 < cz + dz)),
    )
}

/// Sets every cell of `layer(cx, y, cz, r, cut)` to `mat`.
fn add_layer(world: &mut VoxelWorld, cx: i32, y: i32, cz: i32, r: i32, cut: bool, mat: Material)
    requires
        old(world).wf(),
        0 <= r <= 2,
        i32::MIN + 2 <= cx <= i32::MAX - 2,
        i32::MIN + 2 <= cz <= i32::MAX - 2,
    ensures
        final(world).wf(),
        final(world).grid() == painted(old(world).grid(), layer(cx as int, y as int, cz as int, r as int, cut), mat),
        box_grown(
            old(world).lower(),
            old(world).upper(),
            layer(cx as int, y as int, cz as int, r as int, cut),
            final(world).lower(),
            final(world).upper(),
        ),
        final(world).exposed_cells() == old(world).exposed_cells(),
{
    let ghost g0 = world.grid();
    let ghost lo0 = world.lower();
    let ghost hi0 = world.upper();
    let ghost e0 = world.exposed_cells();
    let ghost (gx, gy, gz, gr) = (cx as int, y as int, cz as int, r as int);
    proof {
        assert(layer_prefix(gx, gy, gz, gr, cut, -gr, -gr) =~= Set::empty());
        assert(painted(g0, Set::empty(), mat) =~= g0);
    }
    let mut dx: i32 = -r;
    while dx <= r
        invariant
            0 <= r <= 2,
            i32::MIN + 2 <= cx <= i32::MAX - 2,
            i32::MIN + 2 <= cz <= i32::MAX - 2,
            -r <= dx <= r + 1,
            world.wf(),
            world.grid() == painted(g0, layer_prefix(gx, gy, gz, gr, cut, dx as int, -gr), mat),
            box_grown(lo0, hi0, layer_prefix(gx, gy, gz, gr, cut, dx as int, -gr), world.lower(), world.upper()),
            world.exposed_cells() == e0,
            gx == cx && gy == y && gz == cz && gr == r,
        decreases r + 1 - dx,
    {
        let mut dz: i32 = -r;
        while dz <= r
            invariant
                0 <= r <= 2,
                i32::MIN + 2 <= cx <= i32::MAX - 2,
                i32::MIN + 2 <= cz <= i32::MAX - 2,
                -r <= dx <= r,
                -r <= dz <= r + 1,
                world.wf(),
                world.grid() == painted(g0, layer_prefix(gx, gy, gz, gr, cut, dx as int, dz as int), mat),
                box_grown(lo0, hi0, layer_prefix(gx, gy, gz, gr, cut, dx as int, dz as int), world.lower(), world.upper()),
                world.exposed_cells() == e0,
                gx == cx && gy == y && gz == cz && gr == r,
            decreases r + 1 - dz,
        {
            let ghost before = layer_prefix(gx, gy, gz, gr, cut, dx as int, dz as int);
            let ghost after = layer_prefix(gx, gy, gz, gr, cut, dx as int, dz + 1);
            let corner = cut && (dx == r || dx == -r) && (dz == r || dz == -r);
            if !corner {
                let ghost lo1 = world.lower();
                let ghost hi1 = world.upper();
                let ghost c: Coord = ((cx + dx) as i32, y, (cz + dz) as i32);
                world.add_voxel(cx + dx, y, cz + dz, mat);
                proof {
                    lemma_box_insert(lo1, hi1, c);
                    lemma_box_compose(lo0, hi0, lo1, hi1, world.lower(), world.upper(), before, set![c]);
                    assert(before.union(set![c]) =~= after);
                    assert(world.grid() =~= painted(g0, after, mat));
                }
            } else {
                proof {
                    assert(before =~= after);
                }
            }
            dz += 1;
        }
        proof {
            assert(layer_prefix(gx, gy, gz, gr, cut, dx as int, gr + 1)
                =~= layer_prefix(gx, gy, gz, gr, cut, dx + 1, -gr));
        }
        dx += 1;
    }
    proof {
        assert(layer_prefix(gx, gy, gz, gr, cut, gr + 1, -gr) =~= layer(gx, gy, gz, gr, cut));
    }
}

pub open spec fn trunk_cell(tx: int, base_y: int, tz: int, c: Coord) -> bool {
    c.0 == tx && c.2 == tz && base_y <= c.1 < base_y + TRUNK_HEIGHT
}

/// The crown: two rounded 5 x 5 layers from the top of the trunk up, a
/// 3 x 3 layer above them and a single cell on top.
pub open spec fn leaf_cell(tx: int, base_y: int, tz: int, c: Coord) -> bool {
    let top = base_y + TRUNK_HEIGHT - 1;
    ||| layer_cell(tx, top, tz, 2, true, c)
    ||| layer_cell(tx, top + 1, tz, 2, true, c)
    ||| layer_cell(tx, top + 2, tz, 1, false, c)
    ||| (c.0 == tx && c.1 == top + 3 && c.2 == tz)
}

pub open spec fn tree_cells(tx: int, base_y: int, tz: int) -> Set<Coord> {
    Set::new(|c: Coord| trunk_cell(tx, base_y, tz, c) || leaf_cell(tx, base_y, tz, c))
}

/// `g` with a tree planted at `(tx, base_y, tz)`: leaves where the crown
/// is, trunk where only the trunk is, `g` elsewhere.
pub open spec fn with_tree(
    g: Map<Coord, Material>,
    tx: int,
    base_y: int,
    tz: int,
    trunk: Material,
    leaves: Material,
) -> Map<Coord, Material> {
    Map::new(
        |c: Coord| g.contains_key(c) || tree_cells(tx, base_y, tz).contains(c),
        |c: Coord|
            if leaf_cell(tx, base_y, tz, c) {
                leaves
            } else if trunk_cell(tx, base_y, tz, c) {
                trunk
            } else {
                g[c]
            },
    )
}

/// Plants a tree whose trunk rises from `(tx, base_y, tz)`: a column of
/// `trunk` under a crown of `leaves`, which covers the top trunk cell.
#[verifier::rlimit(60)]
pub fn plant_tree(world: &mut VoxelWorld, tx: i32, base_y: i32, tz: i32, trunk: Material, leaves: Material)
    requires
        old(world).wf(),
        i32::MIN + 2 <= tx <= i32::MAX - 2,
        i32::MIN + 2 <= tz <= i32::MAX - 2,
        base_y <= i32::MAX - TRUNK_HEIGHT - 3,
    ensures
        final(world).wf(),
        final(world).grid() == with_tree(old(world).grid(), tx as int, base_y as int, tz as int, trunk, leaves),
        box_grown(
            old(world).lower(),
            old(world).upper(),
            tree_cells(tx as int, base_y as int, tz as int),
            final(world).lower(),
            final(world).upper(),
        ),
        final(world).exposed_cells() == old(world).exposed_cells(),
{
    let ghost g0 = world.grid();
    let ghost lo0 = world.lower();
    let ghost hi0 = world.upper();
    let ghost (gx, gy, gz) = (tx as int, base_y as int, tz as int);
    let ghost column = Set::new(|c: Coord| trunk_cell(gx, gy, gz, c));
    proof {
        assert(Set::new(|c: Coord| trunk_cell(gx, gy, gz, c) && c.1 < gy) =~= Set::empty());
        assert(painted(g0, Set::empty(), trunk) =~= g0);
    }
    let mut ty: i32 = 0;
    while ty < TRUNK_HEIGHT
        invariant
            0 <= ty <= TRUNK_HEIGHT,
            base_y <= i32::MAX - TRUNK_HEIGHT - 3,
            gx == tx && gy == base_y && gz == tz,
            world.wf(),
            world.grid() == painted(g0, Set::new(|c: Coord| trunk_cell(gx, gy, gz, c) && c.1 < gy + ty), trunk),
            box_grown(lo0, hi0, Set::new(|c: Coord| trunk_cell(gx, gy, gz, c) && c.1 < gy + ty), world.lower(), world.upper()),
            world.exposed_cells() == old(world).exposed_cells(),
        decreases TRUNK_HEIGHT - ty,
    {
        let ghost before = Set::new(|c: Coord| trunk_cell(gx, gy, gz, c) && c.1 < gy + ty);
        let ghost after = Set::new(|c: Coord| trunk_cell(gx, gy, gz, c) && c.1 < gy + ty + 1);
        let ghost lo1 = world.lower();
        let ghost hi1 = world.upper();
        let ghost c: Coord = (tx, (base_y + ty) as i32, tz);
        world.add_voxel(tx, base_y + ty, tz, trunk);
        proof {
            lemma_box_insert(lo1, hi1, c);
            lemma_box_compose(lo0, hi0, lo1, hi1, world.lower(), world.upper(), before, set![c]);
            assert(before.union(set![c]) =~= after);
            assert(world.grid() =~= painted(g0, after, trunk));
        }
        ty += 1;
    }
    proof {
        assert(Set::new(|c: Coord| trunk_cell(gx, gy, gz, c) && c.1 < gy + TRUNK_HEIGHT) =~= column);
    }
    let ghost g1 = world.grid();
    let ghost (lo1, hi1) = (world.lower(), world.upper());
    let top = base_y + TRUNK_HEIGHT - 1;
    add_layer(world, tx, top, tz, 2, true, leaves);
    let ghost g2 = world.grid();
    let ghost (lo2, hi2) = (world.lower(), world.upper());
    add_layer(world, tx, top + 1, tz, 2, true, leaves);
    let ghost g3 = world.grid();
    let ghost (lo3, hi3) = (world.lower(), world.upper());
    add_layer(world, tx, top + 2, tz, 1, false, leaves);
    let ghost g4 = world.grid();
    let ghost (lo4, hi4) = (world.lower(), world.upper());
    world.add_voxel(tx, top + 3, tz, leaves);
    proof {
        let gt = gy + TRUNK_HEIGHT - 1;
        let l1 = layer(gx, gt, gz, 2, true);
        let l2 = layer(gx, gt + 1, gz, 2, true);
        let l3 = layer(gx, gt + 2, gz, 1, false);
        let cap: Coord = (tx, (top + 3) as i32, tz);
        lemma_box_insert(lo4, hi4, cap);
        lemma_box_compose(lo0, hi0, lo1, hi1, lo2, hi2, column, l1);
        lemma_box_compose(lo0, hi0, lo2, hi2, lo3, hi3, column.union(l1), l2);
        lemma_box_compose(lo0, hi0, lo3, hi3, lo4, hi4, column.union(l1).union(l2), l3);
        lemma_box_compose(lo0, hi0, lo4, hi4, world.lower(), world.upper(),
            column.union(l1).union(l2).union(l3), set![cap]);
        assert(column.union(l1).union(l2).union(l3).union(set![cap]) =~= tree_cells(gx, gy, gz));
        assert(world.grid() =~= with_tree(g0, gx, gy, gz, trunk, leaves));
    }
}

/// The column `(x, z)` holds water-level cells: its surface or its deep cell is occupied.
pub open spec fn wet_column(g: Map<Coord, Material>, x: i32, z: i32, surface_y: i32, deep_y: i32) -> bool {
    g.contains_key((x, surface_y, z)) || g.contains_key((x, deep_y, z))
}

/// Height of the bed under the column `(x, z)`: below the deep cell when
/// there is one, else below the surface cell.
pub open spec fn bed_y(g: Map<Coord, Material>, x: i32, z: i32, surface_y: i32, deep_y: i32) -> int {
    if g.contains_key((x, deep_y, z)) {
        deep_y - 1
    } else {
        surface_y - 1
    }
}

/// The bed cells under the wet columns of the rectangle `x0..=x1` by `z0..=z1`.
pub open spec fn bed_cells(
    g: Map<Coord, Material>,
    x0: i32,
    x1: i32,
    z0: i32,
    z1: i32,
    surface_y: i32,
    deep_y: i32,
) -> Set<Coord> {
    Set::new(
        |c: Coord|
            x0 <= c.0 <= x1 && z0 <= c.2 <= z1 && wet_column(g, c.0, c.2, surface_y, deep_y)
                && c.1 == bed_y(g, c.0, c.2, surface_y, deep_y),
    )
}

spec fn bed_prefix(
    g: Map<Coord, Material>,
    x0: i32,
    x1: i32,
    z0: i32,
    z1: i32,
    surface_y: i32,
    deep_y: i32,
    x: int,
    z: int,
) -> Set<Coord> {
    Set::new(
        |c: Coord|
            bed_cells(g, x0, x1, z0, z1, surface_y, deep_y).contains(c) && (c.0 < x || (c.0 == x
                && c.2 < z)),
    )
}

/// Lays a bed of `bed` under every wet column of the rectangle
/// `x0..=x1` by `z0..=z1`, wherever the bed cell is still empty.
#[verifier::rlimit(60)]
pub fn lay_pond_bed(
    world: &mut VoxelWorld,
    x0: i32,
    x1: i32,
    z0: i32,
    z1: i32,
    surface_y: i32,
    deep_y: i32,
    bed: Material,
)
    requires
        old(world).wf(),
        x1 < i32::MAX,
        z1 < i32::MAX,
        surface_y > i32::MIN,
        deep_y > i32::MIN,
    ensures
        final(world).wf(),
        final(world).grid() == filled(
            old(world).grid(),
            bed_cells(old(world).grid(), x0, x1, z0, z1, surface_y, deep_y),
            bed,
        ),
        box_grown(
            old(world).lower(),
            old(world).upper(),
            bed_cells(old(world).grid(), x0, x1, z0, z1, surface_y, deep_y).difference(
                old(world).grid().dom(),
            ),
            final(world).lower(),
            final(world).upper(),
        ),
        final(world).exposed_cells() == old(world).exposed_cells(),
{
    let ghost g0 = world.grid();
    let ghost lo0 = world.lower();
    let ghost hi0 = world.upper();
    let ghost e0 = world.exposed_cells();
    proof {
        assert(bed_prefix(g0, x0, x1, z0, z1, surface_y, deep_y, x0 as int, z0 as int) =~= Set::empty());
        assert(filled(g0, Set::empty(), bed) =~= g0);
        assert(Set::<Coord>::empty().difference(g0.dom()) =~= Set::empty());
    }
    let mut x: i32 = x0;
    while x <= x1
        invariant
            x1 < i32::MAX,
            z1 < i32::MAX,
            surface_y > i32::MIN,
            deep_y > i32::MIN,
            x0 <= x,
            x <= x1 + 1 || x == x0,
            world.wf(),
            world.grid() == filled(g0, bed_prefix(g0, x0, x1, z0, z1, surface_y, deep_y, x as int, z0 as int), bed),
            box_grown(lo0, hi0,
                bed_prefix(g0, x0, x1, z0, z1, surface_y, deep_y, x as int, z0 as int).difference(g0.dom()),
                world.lower(), world.upper()),
            world.exposed_cells() == e0,
        decreases x1 + 1 - x,
    {
        let mut z: i32 = z0;
        while z <= z1
            invariant
                x1 < i32::MAX,
                z1 < i32::MAX,
                surface_y > i32::MIN,
                deep_y > i32::MIN,
                x0 <= x <= x1,
                z0 <= z,
                z <= z1 + 1 || z == z0,
                world.wf(),
                world.grid() == filled(g0, bed_prefix(g0, x0, x1, z0, z1, surface_y, deep_y, x as int, z as int), bed),
                box_grown(lo0, hi0,
                    bed_prefix(g0, x0, x1, z0, z1, surface_y, deep_y, x as int, z as int).difference(g0.dom()),
                    world.lower(), world.upper()),
                world.exposed_cells() == e0,
            decreases z1 + 1 - z,
        {
            let ghost done = bed_prefix(g0, x0, x1, z0, z1, surface_y, deep_y, x as int, z as int);
            let ghost next = bed_prefix(g0, x0, x1, z0, z1, surface_y, deep_y, x as int, z + 1);
            assert(world.grid().contains_key((x, surface_y, z)) == g0.contains_key((x, surface_y, z)));
            assert(world.grid().contains_key((x, deep_y, z)) == g0.contains_key((x, deep_y, z)));
            let deep = world.has_voxel(x, deep_y, z);
            if deep || world.has_voxel(x, surface_y, z) {
                let y = if deep { deep_y - 1 } else { surface_y - 1 };
                let ghost c: Coord = (x, y, z);
                let ghost g1 = world.grid();
                let ghost lo1 = world.lower();
                let ghost hi1 = world.upper();
                world.fill_cell(x, y, z, bed);
                proof {
                    lemma_filled_compose(g0, done, set![c], bed);
                    lemma_box_compose(lo0, hi0, lo1, hi1, world.lower(), world.upper(),
                        done.difference(g0.dom()), set![c].difference(g1.dom()));
                    assert(done.union(set![c]) =~= next);
                }
            } else {
                proof {
                    assert(done =~= next);
                }
            }
            z += 1;
        }
        proof {
            assert(bed_prefix(g0, x0, x1, z0, z1, surface_y, deep_y, x as int, z as int)
                =~= bed_prefix(g0, x0, x1, z0, z1, surface_y, deep_y, x + 1, z0 as int));
        }
        x += 1;
    }
    proof {
        assert(bed_prefix(g0, x0, x1, z0, z1, surface_y, deep_y, x as int, z0 as int)
            =~= bed_cells(g0, x0, x1, z0, z1, surface_y, deep_y));
    }
}

} // verus!
