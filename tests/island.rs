use voxel_raytracer::island::lay_pond_bed;
use voxel_raytracer::island::plant_tree;
use voxel_raytracer::material::Color;
use voxel_raytracer::material::Material;
use voxel_raytracer::material::MaterialKind;
use voxel_raytracer::voxel_world::VoxelWorld;

fn trunk() -> Material {
    Material::new_basic(Color::new(450, 280, 120), 200, 12_000, MaterialKind::Trunk)
}

fn leaves() -> Material {
    Material::new_basic(Color::new(180, 550, 220), 80, 8_000, MaterialKind::Leaves)
}

#[test]
fn tree_trunk_and_crown() {
    let mut w = VoxelWorld::new();
    plant_tree(&mut w, 0, 0, 0, trunk(), leaves());
    for y in 0..4 {
        assert_eq!(w.voxel_material(0, y, 0), Some(trunk()));
    }
    assert_eq!(w.voxel_material(0, 4, 0), Some(leaves()));
    assert_eq!(w.voxel_material(2, 4, 1), Some(leaves()));
    assert_eq!(w.voxel_material(-2, 5, -1), Some(leaves()));
    assert!(!w.has_voxel(2, 4, 2));
    assert!(!w.has_voxel(-2, 5, 2));
    assert_eq!(w.voxel_material(1, 6, 1), Some(leaves()));
    assert!(!w.has_voxel(2, 6, 0));
    assert_eq!(w.voxel_material(0, 7, 0), Some(leaves()));
    assert!(!w.has_voxel(1, 7, 0));
    assert!(!w.has_voxel(0, 8, 0));
    assert!(!w.has_voxel(1, 3, 0));
    assert_eq!(w.aabb_bounds(), Some(((-2, 0, -2), (2, 7, 2))));
}

#[test]
fn tree_cell_count() {
    let mut w = VoxelWorld::new();
    plant_tree(&mut w, -2, 6, 1, trunk(), leaves());
    let mut trunks = 0;
    let mut crown = 0;
    for x in -6..3 {
        for y in 4..16 {
            for z in -3..6 {
                match w.voxel_material(x, y, z) {
                    Some(m) if m == trunk() => trunks += 1,
                    Some(m) if m == leaves() => crown += 1,
                    Some(_) => panic!("unexpected material"),
                    None => {}
                }
            }
        }
    }
    assert_eq!(trunks, 4);
    assert_eq!(crown, 21 + 21 + 9 + 1);
}

#[test]
fn tree_overwrites_what_it_grows_into() {
    let mut w = VoxelWorld::new();
    let stone = Material::new_stone(Color::new(500, 500, 520));
    w.add_voxel(0, 2, 0, stone);
    w.add_voxel(1, 5, 1, stone);
    w.add_voxel(5, 5, 5, stone);
    plant_tree(&mut w, 0, 0, 0, trunk(), leaves());
    assert_eq!(w.voxel_material(0, 2, 0), Some(trunk()));
    assert_eq!(w.voxel_material(1, 5, 1), Some(leaves()));
    assert_eq!(w.voxel_material(5, 5, 5), Some(stone));
    assert_eq!(w.aabb_bounds(), Some(((-2, 0, -2), (5, 7, 5))));
}

fn water() -> Material {
    Material::new_water(Color::new(250, 400, 550))
}

fn dirt() -> Material {
    Material::new_basic(Color::new(400, 300, 200), 350, 24_000, MaterialKind::Terrain)
}

#[test]
fn pond_bed_goes_under_the_deepest_water() {
    let mut w = VoxelWorld::new();
    // Column (0, 0): surface only. Column (1, 0): surface and deep.
    // Column (2, 0): deep only, bed already present. Column (3, 0): dry.
    w.add_voxel(0, 5, 0, water());
    w.add_voxel(1, 5, 0, water());
    w.add_voxel(1, 4, 0, water());
    w.add_voxel(2, 4, 0, water());
    w.add_voxel(2, 3, 0, Material::new_stone(Color::new(500, 500, 520)));
    lay_pond_bed(&mut w, 0, 3, 0, 0, 5, 4, dirt());
    assert_eq!(w.voxel_material(0, 4, 0), Some(dirt()));
    assert_eq!(w.voxel_material(1, 3, 0), Some(dirt()));
    assert!(!w.has_voxel(1, 2, 0));
    assert_eq!(w.voxel_material(2, 3, 0), Some(Material::new_stone(Color::new(500, 500, 520))));
    assert!(!w.has_voxel(3, 4, 0));
    assert!(!w.has_voxel(3, 3, 0));
    assert_eq!(w.voxel_material(1, 4, 0), Some(water()));
}

#[test]
fn pond_bed_stays_inside_its_rectangle() {
    let mut w = VoxelWorld::new();
    w.add_voxel(5, 5, 5, water());
    lay_pond_bed(&mut w, 0, 3, 0, 3, 5, 4, dirt());
    assert!(!w.has_voxel(5, 4, 5));
    assert_eq!(w.aabb_bounds(), Some(((5, 5, 5), (5, 5, 5))));
}

#[test]
fn pond_bed_on_empty_rectangle_does_nothing() {
    let mut w = VoxelWorld::new();
    w.add_voxel(0, 5, 0, water());
    lay_pond_bed(&mut w, 3, 1, 0, 0, 5, 4, dirt());
    assert!(!w.has_voxel(0, 4, 0));
}
