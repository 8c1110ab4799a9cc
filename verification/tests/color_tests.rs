use voxel_compare::color::{side_material, top_material, voxel_color_packed, Material};

#[test]
fn top_material_thresholds() {
    assert_eq!(top_material(0), Material::Stone);
    assert_eq!(top_material(25), Material::Stone);
    assert_eq!(top_material(26), Material::Dirt);
    assert_eq!(top_material(44), Material::Dirt);
    assert_eq!(top_material(45), Material::Grass);
    assert_eq!(top_material(63), Material::Grass);
}

#[test]
fn side_material_thresholds() {
    assert_eq!(side_material(25), Material::Stone);
    assert_eq!(side_material(26), Material::Dirt);
    assert_eq!(side_material(41), Material::Dirt);
    assert_eq!(side_material(42), Material::Dirt);
    assert_eq!(side_material(63), Material::Dirt);
}

#[test]
fn rgb8_values() {
    assert_eq!(Material::Grass.rgb8(), (0x4D, 0x9E, 0x2E));
    assert_eq!(Material::Dirt.rgb8(), (0x85, 0x61, 0x38));
    assert_eq!(Material::Stone.rgb8(), (0x85, 0x85, 0x85));
}

#[test]
fn packed_colors_by_height() {
    assert_eq!(voxel_color_packed(0), 0x858585);
    assert_eq!(voxel_color_packed(25), 0x858585);
    assert_eq!(voxel_color_packed(26), 0x856138);
    assert_eq!(voxel_color_packed(44), 0x856138);
    assert_eq!(voxel_color_packed(45), 0x4D9E2E);
    assert_eq!(voxel_color_packed(511), 0x4D9E2E);
    assert_eq!(voxel_color_packed(u32::MAX), 0x4D9E2E);
}

#[test]
fn packed_colors_leave_top_byte_clear() {
    for y in 0..600u32 {
        assert!(voxel_color_packed(y) < 0x100_0000);
    }
}
