use voxel_raytracer::material::Color;
use voxel_raytracer::material::Material;
use voxel_raytracer::material::MaterialKind;
use voxel_raytracer::scene::IslandParams;
use voxel_raytracer::scene::ObjectId;
use voxel_raytracer::scene::Skybox;
use voxel_raytracer::shading::shading_plan;
use voxel_raytracer::shading::water_march_action;
use voxel_raytracer::shading::MarchAction;
use voxel_raytracer::shading::WATER_MARCH_STEPS;

#[test]
fn matte_material_spawns_no_rays() {
    let m = Material::new_basic(Color::new(500, 500, 500), 100, 8_000, MaterialKind::Leaves);
    let p = shading_plan(&m, ObjectId::Cube);
    assert!(!p.reflect);
    assert!(!p.refract);
    assert!(!p.fresnel);
    assert!(!p.blend_reflection);
    assert!(!p.blend_refraction);
    assert!(p.textured);
    assert!(!p.water);
    assert!(!p.shadow_ignores_water);
}

#[test]
fn water_plan_refracts_with_fresnel() {
    let m = Material::new_water(Color::new(250, 400, 550));
    let p = shading_plan(&m, ObjectId::Cube);
    assert!(p.water);
    assert!(p.shadow_ignores_water);
    assert!(p.refract);
    assert!(p.fresnel);
    assert!(!p.reflect);
    assert!(p.blend_refraction);
    assert!(!p.blend_reflection);
    assert!(!p.textured);
}

#[test]
fn glass_plan_reflects_and_refracts() {
    let m = Material::new_glass(Color::new(900, 950, 1000), 1520, 150, 900);
    let p = shading_plan(&m, ObjectId::Cube);
    assert!(p.reflect);
    assert!(p.refract);
    assert!(!p.fresnel);
    assert!(!p.textured);
    assert!(!p.shadow_ignores_water);
}

#[test]
fn glass_without_reflectivity_uses_fresnel() {
    let m = Material::new_glass(Color::new(900, 950, 1000), 1520, 0, 900);
    let p = shading_plan(&m, ObjectId::Cube);
    assert!(!p.reflect);
    assert!(p.refract);
    assert!(p.fresnel);
}

#[test]
fn negligible_scalars_spawn_no_rays() {
    let m = Material::new_glass(Color::new(900, 950, 1000), 1000, 10, 10);
    let p = shading_plan(&m, ObjectId::Cube);
    assert!(!p.reflect);
    assert!(!p.refract);
    assert!(p.blend_reflection);
    assert!(p.blend_refraction);
}

#[test]
fn plane_hits_are_not_textured() {
    let m = Material::new_stone(Color::new(500, 500, 520));
    assert!(shading_plan(&m, ObjectId::Cube).textured);
    assert!(!shading_plan(&m, ObjectId::Plane).textured);
}

#[test]
fn water_march_decisions() {
    assert_eq!(water_march_action(0, Some(MaterialKind::Water)), MarchAction::Advance);
    assert_eq!(water_march_action(3, Some(MaterialKind::Stone)), MarchAction::ShadeSolid);
    assert_eq!(water_march_action(15, None), MarchAction::Sky);
    assert_eq!(water_march_action(WATER_MARCH_STEPS, Some(MaterialKind::Water)), MarchAction::ProbeFloor);
    assert_eq!(water_march_action(WATER_MARCH_STEPS + 4, None), MarchAction::ProbeFloor);
}

#[test]
fn water_march_ends_within_budget() {
    let mut steps: u32 = 0;
    while water_march_action(steps, Some(MaterialKind::Water)) == MarchAction::Advance {
        steps += 1;
    }
    assert_eq!(steps, 16);
}

#[test]
fn island_defaults() {
    let p = IslandParams::default();
    assert_eq!(p, IslandParams { top_radius: 6, top_height: 6, plateau_variation: 2, depth: 7 });
}

#[test]
fn skybox_new() {
    assert_eq!(Skybox::new(), Skybox);
}
