use voxel_raytracer::material::Color;
use voxel_raytracer::material::Material;
use voxel_raytracer::material::MaterialKind;
use voxel_raytracer::material::ONE;

#[test]
fn water_preset_values() {
    let m = Material::new_water(Color::new(250, 400, 550));
    assert_eq!(m.kind, MaterialKind::Water);
    assert_eq!(m.transparency, 800);
    assert_eq!(m.ior, 1330);
    assert_eq!(m.reflectivity, 0);
    assert_eq!(m.specular, 500);
    assert_eq!(m.shininess, 64_000);
    assert_eq!(m.color, Color::new(250, 400, 550));
}

#[test]
fn stone_preset_is_opaque() {
    let m = Material::new_stone(Color::new(500, 500, 520));
    assert_eq!(m.kind, MaterialKind::Stone);
    assert_eq!(m.transparency, 0);
    assert_eq!(m.reflectivity, 0);
    assert_eq!(m.ior, ONE);
    assert_eq!(m.specular, 150);
    assert_eq!(m.shininess, 18_000);
}

#[test]
fn glass_preset_keeps_its_arguments() {
    let m = Material::new_glass(Color::new(900, 950, 1000), 1520, 150, 900);
    assert_eq!(m.kind, MaterialKind::Glass);
    assert_eq!(m.ior, 1520);
    assert_eq!(m.reflectivity, 150);
    assert_eq!(m.transparency, 900);
    assert_eq!(m.specular, 900);
    assert_eq!(m.shininess, 180_000);
}

#[test]
fn basic_material_neither_reflects_nor_transmits() {
    let m = Material::new_basic(Color::new(450, 280, 120), 200, 12_000, MaterialKind::Trunk);
    assert_eq!(m.kind, MaterialKind::Trunk);
    assert_eq!(m.specular, 200);
    assert_eq!(m.shininess, 12_000);
    assert_eq!(m.reflectivity, 0);
    assert_eq!(m.transparency, 0);
    assert_eq!(m.ior, ONE);
}

#[test]
fn clamped_limits_each_channel() {
    let c = Color::new(-250, 400, 1700).clamped();
    assert_eq!(c, Color::new(0, 400, ONE));
}

#[test]
fn black_and_white() {
    assert_eq!(Color::black(), Color::new(0, 0, 0));
    assert_eq!(Color::white(), Color::new(ONE, ONE, ONE));
}

#[test]
fn to_rgb8_scales_truncates_and_saturates() {
    assert_eq!(Color::new(486, 1000, 0).to_rgb8(), [123, 255, 0]);
    assert_eq!(Color::new(-500, 2000, 200).to_rgb8(), [0, 255, 51]);
}

#[test]
fn cloud_never_blocks_light() {
    assert!(!MaterialKind::Cloud.blocks_light(false));
    assert!(!MaterialKind::Cloud.blocks_light(true));
}

#[test]
fn water_blocks_unless_ignored() {
    assert!(MaterialKind::Water.blocks_light(false));
    assert!(!MaterialKind::Water.blocks_light(true));
    assert!(MaterialKind::Stone.blocks_light(true));
    assert!(MaterialKind::Glass.blocks_light(false));
}

#[test]
fn textured_kinds() {
    assert!(MaterialKind::Terrain.is_textured());
    assert!(MaterialKind::Trunk.is_textured());
    assert!(MaterialKind::Leaves.is_textured());
    assert!(MaterialKind::Stone.is_textured());
    assert!(!MaterialKind::Glass.is_textured());
    assert!(!MaterialKind::Water.is_textured());
    assert!(!MaterialKind::Cloud.is_textured());
}
