use meridian::shaders::{
    blur_shader_wgsl, composite_shader_wgsl, dispatch_entry_points_wgsl, lit_shader_wgsl, lit_textured_shader_wgsl,
    FIXED_ARITHMETIC_LIB_WGSL, FULLSCREEN_VERTEX_WGSL, LIT_UNIFORMS_AND_SHADING_WGSL,
};

#[test]
fn lit_shaders_start_with_the_shared_uniforms_and_shading() {
    let lit = lit_shader_wgsl();
    let textured = lit_textured_shader_wgsl();
    let prefix = format!("\n{LIT_UNIFORMS_AND_SHADING_WGSL}");
    assert!(lit.starts_with(&prefix));
    assert!(textured.starts_with(&prefix));
    assert!(lit.contains("fn compute_shadow_factor(world_pos: vec3<f32>, world_normal: vec3<f32>) -> f32 {"));
    assert!(lit.contains("fn vs_main"));
    assert!(textured.contains("fn fs_main"));
}

#[test]
fn bloom_passes_share_the_fullscreen_vertex_stage() {
    let prefix = format!("\n{FULLSCREEN_VERTEX_WGSL}");
    assert!(blur_shader_wgsl().starts_with(&prefix));
    assert!(composite_shader_wgsl().starts_with(&prefix));
}

#[test]
fn fixed_point_module_has_one_entry_point_per_kernel() {
    let module = dispatch_entry_points_wgsl();
    assert!(module.starts_with(&format!("\n{FIXED_ARITHMETIC_LIB_WGSL}")));
    for name in ["dispatch_add", "dispatch_sub", "dispatch_mul", "dispatch_div"] {
        assert!(module.contains(&format!("fn {name}(@builtin(global_invocation_id) id: vec3<u32>) {{")));
    }
}
