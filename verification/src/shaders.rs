//! WGSL shader text handed to the GPU: the lit shaders of the scene
//! renderer, the bloom passes and the fixed-point compute kernels. Each
//! shader is a shared prelude followed by its own text.
use vstd::prelude::*;

verus! {

/// The uniform layout and Blinn-Phong shading shared by every lit shader.
pub const LIT_UNIFORMS_AND_SHADING_WGSL: &'static str = r##"
struct LightData {
    // xyz: direction (kind 0) or world position (kind 1); w: kind (0 = directional, 1 = point).
    dir_or_pos: vec4<f32>,
    // rgb: color; a: intensity.
    color_intensity: vec4<f32>,
    // x: range (point lights only).
    range_pad: vec4<f32>,
};

struct Uniforms {
    view_proj: mat4x4<f32>,
    light_view_proj: mat4x4<f32>,
    camera_pos: vec4<f32>,
    ambient_ground: vec4<f32>,
    ambient_sky: vec4<f32>,
    // xyz: the shadow-casting light's own travel direction (surface ->
    // light is `-light_direction.xyz`) — kept as a plain vector rather
    // than indexing `lights[shadow_caster]` again, so the shadow lookup
    // never needs a dynamic array index.
    light_direction: vec4<f32>,
    light_count: vec4<u32>,
    // x: which `lights` index casts the shadow map (see `light_view_proj`);
    // `0xffffffff` means "no shadow-casting light in this scene".
    shadow_caster: vec4<u32>,
    lights: array<LightData, 4>,
};

@group(0) @binding(0)
var<uniform> u: Uniforms;

/// A gradient between `ambient_ground` (facing straight down) and
/// `ambient_sky` (facing straight up) — see [`crate::scene::Scene3D`]'s
/// own doc comment for why this is a disclosed simplification of real
/// image-based lighting, not a convolved environment map.
fn hemisphere_ambient(world_normal: vec3<f32>) -> vec3<f32> {
    let t = world_normal.y * 0.5 + 0.5;
    return mix(u.ambient_ground.rgb, u.ambient_sky.rgb, t);
}

/// `world_pos` remapped into the shadow map's `[0,1]` UV space plus its
/// light-space depth in `z` — shared by every shader flavor's own
/// `compute_shadow_factor` (declared per-flavor below, since each names
/// its own `shadow_map`/`shadow_sampler` bindings). Orthographic
/// projection: `clip.w` is always `1.0`, so the divide is a no-op in
/// practice — kept for clarity, and so this still works unmodified if a
/// perspective shadow projection (e.g. for a point-light shadow) is ever
/// spliced in against the same `light_view_proj` slot.
fn light_space_uv_and_depth(world_pos: vec3<f32>) -> vec3<f32> {
    let clip = u.light_view_proj * vec4<f32>(world_pos, 1.0);
    let ndc = clip.xyz / clip.w;
    return vec3<f32>(ndc.x * 0.5 + 0.5, 1.0 - (ndc.y * 0.5 + 0.5), ndc.z);
}

fn shade(world_pos: vec3<f32>, world_normal: vec3<f32>, base_color: vec3<f32>, shadow_factor: f32) -> vec3<f32> {
    let n = normalize(world_normal);
    let view_dir = normalize(u.camera_pos.xyz - world_pos);
    var result = hemisphere_ambient(n) * base_color;

    let count = min(u.light_count.x, 4u);
    for (var i: u32 = 0u; i < count; i = i + 1u) {
        let light = u.lights[i];
        var light_dir: vec3<f32>;
        var attenuation: f32 = 1.0;
        if (light.dir_or_pos.w < 0.5) {
            light_dir = normalize(-light.dir_or_pos.xyz);
        } else {
            let to_light = light.dir_or_pos.xyz - world_pos;
            let dist = length(to_light);
            let range = max(light.range_pad.x, 0.0001);
            light_dir = to_light / max(dist, 0.0001);
            attenuation = clamp(1.0 - dist / range, 0.0, 1.0);
            attenuation = attenuation * attenuation;
        }
        if (i == u.shadow_caster.x) {
            attenuation = attenuation * shadow_factor;
        }
        let diffuse = max(dot(n, light_dir), 0.0);
        let half_dir = normalize(light_dir + view_dir);
        let specular = pow(max(dot(n, half_dir), 0.0), 32.0) * 0.3;
        let radiance = light.color_intensity.rgb * light.color_intensity.a * attenuation;
        result = result + (base_color * diffuse + vec3<f32>(specular, specular, specular)) * radiance;
    }
    return result;
}
"##;

/// The fullscreen-triangle vertex stage shared by the bloom passes.
pub const FULLSCREEN_VERTEX_WGSL: &'static str = r##"
struct VsOut {
    @builtin(position) clip_position: vec4<f32>,
    @location(0) uv: vec2<f32>,
};

@vertex
fn vs_main(@builtin(vertex_index) index: u32) -> VsOut {
    var positions = array<vec2<f32>, 3>(
        vec2<f32>(-1.0, -1.0),
        vec2<f32>(3.0, -1.0),
        vec2<f32>(-1.0, 3.0),
    );
    let p = positions[index];
    var out: VsOut;
    out.clip_position = vec4<f32>(p, 0.0, 1.0);
    out.uv = vec2<f32>((p.x + 1.0) * 0.5, 1.0 - (p.y + 1.0) * 0.5);
    return out;
}
"##;

/// Q16.16 fixed-point arithmetic on `i32` bit patterns, in WGSL.
pub const FIXED_ARITHMETIC_LIB_WGSL: &'static str = r##"
// A 64-bit unsigned integer as two 32-bit words (WGSL has no native
// 64-bit integer type).
struct U64 {
    hi: u32,
    lo: u32,
}

// Unsigned 32x32->64 multiply via 16-bit limb splitting: split each
// operand into high/low 16-bit halves (each fits exactly in a u32 with
// no overflow when multiplied), then combine the four partial products
// with explicit carry propagation. Standard technique for emulating a
// wide multiply with only native-width arithmetic.
fn u32_mul_wide(a: u32, b: u32) -> U64 {
    let a_lo = a & 0xFFFFu;
    let a_hi = a >> 16u;
    let b_lo = b & 0xFFFFu;
    let b_hi = b >> 16u;

    let lo_lo = a_lo * b_lo;
    let lo_hi = a_lo * b_hi;
    let hi_lo = a_hi * b_lo;
    let hi_hi = a_hi * b_hi;

    // result = hi_hi * 2^32 + (lo_hi + hi_lo) * 2^16 + lo_lo, with carries.
    let mid = lo_hi + hi_lo;
    let mid_carry = select(0u, 1u, mid < lo_hi); // mid overflowed u32

    let lo = lo_lo + (mid << 16u);
    let lo_carry = select(0u, 1u, lo < lo_lo);

    let hi = hi_hi + (mid >> 16u) + (mid_carry << 16u) + lo_carry;

    return U64(hi, lo);
}

// Two's complement negation of a 64-bit value held as two 32-bit words.
fn u64_negate(v: U64) -> U64 {
    let inv_lo = ~v.lo;
    let inv_hi = ~v.hi;
    let new_lo = inv_lo + 1u;
    let carry = select(0u, 1u, new_lo < inv_lo);
    let new_hi = inv_hi + carry;
    return U64(new_hi, new_lo);
}

// Unsigned 64-bit (as two u32 words) divided by an unsigned 32-bit
// divisor, truncating toward zero, keeping only the low 32 bits of the
// quotient (matching `as i32` truncation on the Rust side — every real
// `Fixed` division result fits in i32 range). Restoring binary long
// division, one bit at a time, 64 iterations (32 for the high word, 32
// for the low word) — correct for any numerator/divisor magnitude that
// keeps the running remainder under 2^32, which holds for every `Fixed`
// value this workspace produces (divisor magnitude well under 2^31 in
// practice for physics-scale quantities).
fn u64_div_u32(numerator: U64, divisor: u32) -> u32 {
    var remainder: u32 = 0u;
    var quotient: u32 = 0u;
    for (var i: i32 = 31; i >= 0; i = i - 1) {
        let bit = (numerator.hi >> u32(i)) & 1u;
        remainder = (remainder << 1u) | bit;
        if (remainder >= divisor) {
            remainder = remainder - divisor;
            quotient = (quotient << 1u) | 1u;
        } else {
            quotient = quotient << 1u;
        }
    }
    for (var i: i32 = 31; i >= 0; i = i - 1) {
        let bit = (numerator.lo >> u32(i)) & 1u;
        remainder = (remainder << 1u) | bit;
        if (remainder >= divisor) {
            remainder = remainder - divisor;
            quotient = (quotient << 1u) | 1u;
        } else {
            quotient = quotient << 1u;
        }
    }
    return quotient;
}

// Matches `impl Add for Fixed`: `Fixed(self.0 + rhs.0)`, plain i32
// addition (two's complement wraparound on overflow, same as Rust in a
// release build — real `Fixed` values stay well inside i32 range so this
// never matters in practice).
fn fixed_add(a: i32, b: i32) -> i32 {
    return a + b;
}

// Matches `impl Sub for Fixed`: `Fixed(self.0 - rhs.0)`.
fn fixed_sub(a: i32, b: i32) -> i32 {
    return a - b;
}

// Matches `impl Mul for Fixed`: `(self.0 as i64 * rhs.0 as i64) >> 16`,
// truncated to i32. Computed via sign/magnitude: multiply the absolute
// values as unsigned 64-bit (exact, no truncation — 32x32 always fits in
// 64 bits), negate if the signs differed, then extract bits [16:48) of
// the 64-bit product. That bit range is exactly what ">> 16, keep low
// 32 bits" selects, and — because it's pure bit extraction from an
// already-correctly-signed two's complement value — this is valid
// whether the product is positive or negative, no separate arithmetic-
// shift-vs-logical-shift case needed.
fn fixed_mul(a: i32, b: i32) -> i32 {
    let negative = (a < 0) != (b < 0);
    let ua = u32(abs(a));
    let ub = u32(abs(b));
    var product = u32_mul_wide(ua, ub);
    if (negative) {
        product = u64_negate(product);
    }
    let result_bits = (product.hi << 16u) | (product.lo >> 16u);
    return bitcast<i32>(result_bits);
}

// Matches `impl Div for Fixed`: `((self.0 as i64) << 16) / rhs.0 as i64`,
// truncated toward zero, cast to i32. `(self.0 as i64) << 16` is built
// directly as a 64-bit value (`hi = |self.0| >> 16, lo = |self.0| << 16`
// — exactly what left-shifting a zero-extended value by 16 produces,
// split into words), then divided by `|rhs.0|` via `u64_div_u32`, with
// the sign reapplied at the end (integer division truncates toward
// zero, which sign/magnitude division does by construction).
fn fixed_div(a: i32, b: i32) -> i32 {
    let negative = (a < 0) != (b < 0);
    let ua = u32(abs(a));
    let ub = u32(abs(b));
    let numerator = U64(ua >> 16u, ua << 16u);
    let quotient = u64_div_u32(numerator, ub);
    let result = i32(quotient);
    return select(result, -result, negative);
}

// 64-bit (as two u32 words) addition, with carry out of the low word
// propagated into the high word.
fn u64_add(a: U64, b: U64) -> U64 {
    let lo = a.lo + b.lo;
    let carry = select(0u, 1u, lo < a.lo);
    let hi = a.hi + b.hi + carry;
    return U64(hi, lo);
}

// 64-bit subtraction, with borrow out of the low word propagated into
// the high word. Only ever called here with `a >= b` (restoring
// division's own invariant), so underflow of the high word never
// happens in practice.
fn u64_sub(a: U64, b: U64) -> U64 {
    let borrow = select(0u, 1u, a.lo < b.lo);
    let lo = a.lo - b.lo;
    let hi = a.hi - b.hi - borrow;
    return U64(hi, lo);
}

// Logical right shift by one bit, carrying the low bit of the high word
// into the top bit of the low word.
fn u64_shr1(v: U64) -> U64 {
    let lo = (v.lo >> 1u) | (v.hi << 31u);
    let hi = v.hi >> 1u;
    return U64(hi, lo);
}

// Logical left shift by one bit.
fn u64_shl1(v: U64) -> U64 {
    let hi = (v.hi << 1u) | (v.lo >> 31u);
    let lo = v.lo << 1u;
    return U64(hi, lo);
}

// Sets bit 0 of `v` to `bit` (0 or 1) — used by `u64_div_u64` to build up
// a shifted-in quotient/remainder bit at a time.
fn u64_or_lsb(v: U64, bit: u32) -> U64 {
    return U64(v.hi, v.lo | bit);
}

// Bit `i` (0 = least significant, up to 63) of a 64-bit value.
fn u64_get_bit(v: U64, i: u32) -> u32 {
    if (i >= 32u) {
        return (v.hi >> (i - 32u)) & 1u;
    }
    return (v.lo >> i) & 1u;
}

fn u64_ge(a: U64, b: U64) -> bool {
    if (a.hi != b.hi) {
        return a.hi > b.hi;
    }
    return a.lo >= b.lo;
}

fn u64_lt(a: U64, b: U64) -> bool {
    return !u64_ge(a, b);
}

fn u64_is_zero(v: U64) -> bool {
    return v.hi == 0u && v.lo == 0u;
}

// Unsigned 64-bit divided by unsigned 64-bit, truncating toward zero,
// keeping only the quotient (the remainder is discarded — nothing here
// needs it). Restoring binary long division, 64 iterations, generalizing
// `u64_div_u32` to a 64-bit divisor: `isqrt_u64`'s Newton iteration
// divides by its own running estimate `x`, which starts at `n` itself
// and can exceed 32 bits, so the narrower `u64_div_u32` doesn't cover it.
fn u64_div_u64(numerator: U64, divisor: U64) -> U64 {
    var remainder = U64(0u, 0u);
    var quotient = U64(0u, 0u);
    for (var i: i32 = 63; i >= 0; i = i - 1) {
        let bit = u64_get_bit(numerator, u32(i));
        remainder = u64_or_lsb(u64_shl1(remainder), bit);
        if (u64_ge(remainder, divisor)) {
            remainder = u64_sub(remainder, divisor);
            quotient = u64_or_lsb(u64_shl1(quotient), 1u);
        } else {
            quotient = u64_shl1(quotient);
        }
    }
    return quotient;
}

// Floor integer square root via Newton's method (Heron's method),
// ported bit-for-bit from `meridian_numeric_core::fixed::isqrt_u64`:
// starts from `n` itself and iterates `x -> (x + n/x) / 2` until it
// stops decreasing. `y = x.div_ceil(2)` on the Rust side is
// `(x + 1) >> 1` here (equivalent for all `x >= 0`, and `U64(0u, 1u)`
// never overflows `u64_add` since `n >= 1` in this branch).
fn isqrt_u64(n: U64) -> U64 {
    if (u64_is_zero(n)) {
        return U64(0u, 0u);
    }
    var x = n;
    var y = u64_shr1(u64_add(x, U64(0u, 1u)));
    loop {
        if (!u64_lt(y, x)) {
            break;
        }
        x = y;
        let q = u64_div_u64(n, x);
        y = u64_shr1(u64_add(x, q));
    }
    return x;
}

// Matches `Fixed::sqrt`: `Fixed(isqrt_u64((self.0 as u64) << 16) as i32)`.
// Callers must only pass non-negative `a` (the CPU-side `Fixed::sqrt`
// asserts this and panics otherwise; WGSL has no panic, so this is the
// caller's responsibility — see `FixedArithmeticKernels::dispatch_sqrt`).
// `(self.0 as u64) << 16` is built directly as a 64-bit value the same
// way `fixed_div`'s numerator is: `hi = a >> 16, lo = a << 16`.
fn fixed_sqrt(a: i32) -> i32 {
    let magnitude = u32(a);
    let scaled = U64(magnitude >> 16u, magnitude << 16u);
    let result = isqrt_u64(scaled);
    return bitcast<i32>(result.lo);
}
"##;

/// The text `lit_shader_wgsl` appends to its prelude.
pub const LIT_SHADER_TAIL: &'static str = r##"

@group(0) @binding(1)
var shadow_map: texture_depth_2d;
@group(0) @binding(2)
var shadow_sampler: sampler_comparison;

// Slope-scaled bias: a surface nearly edge-on to the light (small
// `n_dot_l`) needs a much bigger depth push than one facing the light
// head-on, or it reads as "acne" — regularly-spaced false self-shadow
// stripes from the shadow map's own texel quantization (a pyramid's
// steep triangular faces were the concrete case that went essentially
// solid-black from this before the slope term existed: at a grazing
// angle, a constant bias big enough to fix the steepest face was still
// far too small there, and the acne covered the whole face). The base
// term alone still matters for a face that's *exactly* perpendicular to
// the light (n_dot_l = 1), where the slope term contributes nothing.
fn compute_shadow_factor(world_pos: vec3<f32>, world_normal: vec3<f32>) -> f32 {
    let lsuv = light_space_uv_and_depth(world_pos);
    if (lsuv.x < 0.0 || lsuv.x > 1.0 || lsuv.y < 0.0 || lsuv.y > 1.0) {
        return 1.0;
    }
    let n_dot_l = max(dot(normalize(world_normal), normalize(-u.light_direction.xyz)), 0.0);
    let bias = max(0.0008, 0.006 * (1.0 - n_dot_l));
    return textureSampleCompare(shadow_map, shadow_sampler, lsuv.xy, lsuv.z - bias);
}

struct VertexInput {
    @location(0) position: vec3<f32>,
    @location(1) normal: vec3<f32>,
    @location(2) color: vec4<f32>,
    @location(3) emissive: vec3<f32>,
};

struct VertexOutput {
    @builtin(position) clip_position: vec4<f32>,
    @location(0) world_position: vec3<f32>,
    @location(1) world_normal: vec3<f32>,
    @location(2) color: vec4<f32>,
    @location(3) emissive: vec3<f32>,
};

@vertex
fn vs_main(in: VertexInput) -> VertexOutput {
    var out: VertexOutput;
    out.clip_position = u.view_proj * vec4<f32>(in.position, 1.0);
    out.world_position = in.position;
    out.world_normal = in.normal;
    out.color = in.color;
    out.emissive = in.emissive;
    return out;
}

@fragment
fn fs_main(in: VertexOutput) -> @location(0) vec4<f32> {
    let shadow_factor = compute_shadow_factor(in.world_position, in.world_normal);
    let shaded = shade(in.world_position, in.world_normal, in.color.rgb, shadow_factor) + in.emissive;
    return vec4<f32>(shaded, in.color.a);
}
"##;

/// The Blinn-Phong lit shader for flat-colored materials: the shared
/// uniforms and shading text, then its shadow bindings and entry points.
pub fn lit_shader_wgsl() -> (r: String)
    ensures
        r@ == "\n"@ + LIT_UNIFORMS_AND_SHADING_WGSL@ + LIT_SHADER_TAIL@,
{
    let mut text = "\n".to_owned();
    text.append(LIT_UNIFORMS_AND_SHADING_WGSL);
    text.append(LIT_SHADER_TAIL);
    text
}

/// The text `lit_textured_shader_wgsl` appends to its prelude.
pub const LIT_TEXTURED_SHADER_TAIL: &'static str = r##"
@group(0) @binding(1)
var albedo_tex: texture_2d<f32>;
@group(0) @binding(2)
var albedo_sampler: sampler;
@group(0) @binding(3)
var shadow_map: texture_depth_2d;
@group(0) @binding(4)
var shadow_sampler: sampler_comparison;

// See the colored-lit shader's identical `compute_shadow_factor` for
// why the bias is slope-scaled, not a flat constant.
fn compute_shadow_factor(world_pos: vec3<f32>, world_normal: vec3<f32>) -> f32 {
    let lsuv = light_space_uv_and_depth(world_pos);
    if (lsuv.x < 0.0 || lsuv.x > 1.0 || lsuv.y < 0.0 || lsuv.y > 1.0) {
        return 1.0;
    }
    let n_dot_l = max(dot(normalize(world_normal), normalize(-u.light_direction.xyz)), 0.0);
    let bias = max(0.0008, 0.006 * (1.0 - n_dot_l));
    return textureSampleCompare(shadow_map, shadow_sampler, lsuv.xy, lsuv.z - bias);
}

struct VertexInput {
    @location(0) position: vec3<f32>,
    @location(1) normal: vec3<f32>,
    @location(2) uv: vec2<f32>,
    @location(3) tint: vec4<f32>,
    @location(4) emissive: vec3<f32>,
};

struct VertexOutput {
    @builtin(position) clip_position: vec4<f32>,
    @location(0) world_position: vec3<f32>,
    @location(1) world_normal: vec3<f32>,
    @location(2) uv: vec2<f32>,
    @location(3) tint: vec4<f32>,
    @location(4) emissive: vec3<f32>,
};

@vertex
fn vs_main(in: VertexInput) -> VertexOutput {
    var out: VertexOutput;
    out.clip_position = u.view_proj * vec4<f32>(in.position, 1.0);
    out.world_position = in.position;
    out.world_normal = in.normal;
    out.uv = in.uv;
    out.tint = in.tint;
    out.emissive = in.emissive;
    return out;
}

@fragment
fn fs_main(in: VertexOutput) -> @location(0) vec4<f32> {
    let sampled = textureSample(albedo_tex, albedo_sampler, in.uv);
    let base_color = sampled.rgb * in.tint.rgb;
    let shadow_factor = compute_shadow_factor(in.world_position, in.world_normal);
    let shaded = shade(in.world_position, in.world_normal, base_color, shadow_factor) + in.emissive;
    return vec4<f32>(shaded, sampled.a * in.tint.a);
}
"##;

/// The Blinn-Phong lit shader for textured materials: the shared
/// uniforms and shading text, then its albedo and shadow bindings and
/// entry points.
pub fn lit_textured_shader_wgsl() -> (r: String)
    ensures
        r@ == "\n"@ + LIT_UNIFORMS_AND_SHADING_WGSL@ + LIT_TEXTURED_SHADER_TAIL@,
{
    let mut text = "\n".to_owned();
    text.append(LIT_UNIFORMS_AND_SHADING_WGSL);
    text.append(LIT_TEXTURED_SHADER_TAIL);
    text
}

/// The text `blur_shader_wgsl` appends to its prelude.
pub const BLUR_SHADER_TAIL: &'static str = r##"

struct BlurUniforms {
    texel_size: vec2<f32>,
    direction: vec2<f32>,
};

@group(0) @binding(0)
var<uniform> u: BlurUniforms;
@group(0) @binding(1)
var src_tex: texture_2d<f32>;
@group(0) @binding(2)
var src_sampler: sampler;

@fragment
fn fs_main(in: VsOut) -> @location(0) vec4<f32> {
    let weights = array<f32, 5>(0.227027, 0.1945946, 0.1216216, 0.054054, 0.016216);
    // A 5-tap kernel at a 1-texel stride only spreads a few pixels wide
    // at full render resolution — imperceptible next to a whole shape.
    // `SPREAD` stretches the same 5 taps across a much wider footprint
    // (each pass is still only 2 ping-pong textures; two directions of
    // one wide separable pass, same cost as before, just farther apart).
    let spread = 6.0;
    var result = textureSample(src_tex, src_sampler, in.uv).rgb * weights[0];
    for (var i = 1; i < 5; i = i + 1) {
        let offset = u.direction * u.texel_size * f32(i) * spread;
        result += textureSample(src_tex, src_sampler, in.uv + offset).rgb * weights[i];
        result += textureSample(src_tex, src_sampler, in.uv - offset).rgb * weights[i];
    }
    return vec4<f32>(result, 1.0);
}
"##;

/// The separable Gaussian blur pass of bloom: the fullscreen-triangle
/// vertex stage, then the blur fragment stage.
pub fn blur_shader_wgsl() -> (r: String)
    ensures
        r@ == "\n"@ + FULLSCREEN_VERTEX_WGSL@ + BLUR_SHADER_TAIL@,
{
    let mut text = "\n".to_owned();
    text.append(FULLSCREEN_VERTEX_WGSL);
    text.append(BLUR_SHADER_TAIL);
    text
}

/// The text `composite_shader_wgsl` appends to its prelude.
pub const COMPOSITE_SHADER_TAIL: &'static str = r##"

struct CompositeUniforms {
    intensity: vec4<f32>,
};

@group(0) @binding(0)
var<uniform> u: CompositeUniforms;
@group(0) @binding(1)
var bloom_tex: texture_2d<f32>;
@group(0) @binding(2)
var bloom_sampler: sampler;

@fragment
fn fs_main(in: VsOut) -> @location(0) vec4<f32> {
    let sampled = textureSample(bloom_tex, bloom_sampler, in.uv);
    return vec4<f32>(sampled.rgb * u.intensity.x, 1.0);
}
"##;

/// The bloom composite pass: the fullscreen-triangle vertex stage, then
/// the fragment stage adding the blurred glow onto the scene.
pub fn composite_shader_wgsl() -> (r: String)
    ensures
        r@ == "\n"@ + FULLSCREEN_VERTEX_WGSL@ + COMPOSITE_SHADER_TAIL@,
{
    let mut text = "\n".to_owned();
    text.append(FULLSCREEN_VERTEX_WGSL);
    text.append(COMPOSITE_SHADER_TAIL);
    text
}

/// The text `dispatch_entry_points_wgsl` appends to its prelude.
pub const DISPATCH_ENTRY_POINTS_TAIL: &'static str = r##"

@group(0) @binding(0)
var<storage, read> operands: array<i32>;

@group(0) @binding(1)
var<storage, read_write> results: array<i32>;

@compute @workgroup_size(64)
fn dispatch_add(@builtin(global_invocation_id) id: vec3<u32>) {
    results[id.x] = fixed_add(operands[2u * id.x], operands[2u * id.x + 1u]);
}

@compute @workgroup_size(64)
fn dispatch_sub(@builtin(global_invocation_id) id: vec3<u32>) {
    results[id.x] = fixed_sub(operands[2u * id.x], operands[2u * id.x + 1u]);
}

@compute @workgroup_size(64)
fn dispatch_mul(@builtin(global_invocation_id) id: vec3<u32>) {
    results[id.x] = fixed_mul(operands[2u * id.x], operands[2u * id.x + 1u]);
}

@compute @workgroup_size(64)
fn dispatch_div(@builtin(global_invocation_id) id: vec3<u32>) {
    results[id.x] = fixed_div(operands[2u * id.x], operands[2u * id.x + 1u]);
}

// Unary, unlike the four above: one operand per invocation
// (`operands[id.x]`, not a `2*id.x`/`2*id.x+1` pair) — see
// `FixedArithmeticKernels::dispatch_sqrt`, which populates `operands`
// accordingly.
@compute @workgroup_size(64)
fn dispatch_sqrt(@builtin(global_invocation_id) id: vec3<u32>) {
    results[id.x] = fixed_sqrt(operands[id.x]);
}
"##;

/// The fixed-point compute module: the Q16.16 arithmetic library, then
/// the buffer bindings and one entry point per kernel.
pub fn dispatch_entry_points_wgsl() -> (r: String)
    ensures
        r@ == "\n"@ + FIXED_ARITHMETIC_LIB_WGSL@ + DISPATCH_ENTRY_POINTS_TAIL@,
{
    let mut text = "\n".to_owned();
    text.append(FIXED_ARITHMETIC_LIB_WGSL);
    text.append(DISPATCH_ENTRY_POINTS_TAIL);
    text
}

} // verus!
