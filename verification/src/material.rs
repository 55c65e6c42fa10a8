//! What a pane's material asks of its textured quad: whether it has one at all, how
//! many textures it samples and how, how texture coordinates are generated for each
//! layer, and the packed colour, combiner and alpha settings. The floating-point parts
//! (coordinate transforms, projection scales, the alpha reference value) are the
//! caller's.

use vstd::prelude::*;

verus! {

/// How a texture repeats past its edge.
#[derive(Debug, Clone, Copy, PartialEq, Eq, Structural)]
pub enum TexWrapMode {
    Clamp,
    Repeat,
    Mirror,
}

/// How a texture is filtered.
#[derive(Debug, Clone, Copy, PartialEq, Eq, Structural)]
pub enum TexFilter {
    Near,
    Linear,
}

/// How the GPU sampler addresses past the edge.
#[derive(Debug, Clone, Copy, PartialEq, Eq, Structural)]
pub enum AddressMode {
    ClampToEdge,
    Repeat,
    MirrorRepeat,
}

/// How the GPU sampler filters.
#[derive(Debug, Clone, Copy, PartialEq, Eq, Structural)]
pub enum FilterMode {
    Nearest,
    Linear,
}

/// A sampler's settings.
#[derive(Debug, Clone, Copy, PartialEq, Eq, Structural)]
pub struct SamplerSettings {
    pub address_mode_u: AddressMode,
    pub address_mode_v: AddressMode,
    pub min_filter: FilterMode,
    pub mag_filter: FilterMode,
}

/// A texture map of a material: the texture's name and how it is sampled.
pub struct TexMapSummary {
    pub texture_name: String,
    pub u_wrap: TexWrapMode,
    pub v_wrap: TexWrapMode,
    pub u_filter: TexFilter,
    pub v_filter: TexFilter,
}

/// Where texture coordinates of a layer come from.
#[derive(Debug, Clone, Copy, PartialEq, Eq, Structural)]
pub enum TexGenKind {
    /// Projected through the pane.
    PaneProjection,
    /// Projected orthogonally or in perspective.
    Projection,
    BrickRepeat,
    /// The pane's own texture coordinates.
    Other,
}

/// The flags of a projection texture generator.
#[derive(Debug, Clone, Copy, PartialEq, Eq, Structural)]
pub struct ProjectionFlags {
    pub fitting_layout_size: bool,
    pub fitting_pane_size: bool,
    pub adjust_projection_scale_rotate: bool,
}

/// The first two stages of a combiner: colour mode and whether alpha is modulated.
#[derive(Debug, Clone, Copy, PartialEq, Eq, Structural)]
pub struct TevStage {
    pub rgb_mode: u8,
    pub alpha_modulate: bool,
}

/// A material as plain values: what the textured quad is derived from.
pub struct MaterialSummary {
    pub tex_maps: Vec<TexMapSummary>,
    pub has_blend_mode: bool,
    pub has_alpha_compare: bool,
    /// The alpha comparison function's code, where there is an alpha comparison.
    pub alpha_compare_fn: u8,
    pub tev_stages: Vec<TevStage>,
    /// The number of stages of the detailed combiner, where there is one.
    pub detailed_stages: Option<usize>,
    pub tex_gens: Vec<TexGenKind>,
    pub projection_gens: Vec<ProjectionFlags>,
    pub black_color: [u8; 4],
    pub white_color: [u8; 4],
    pub use_texture_only: bool,
    pub use_thresholding_alpha_interpolation: bool,
}

/// What the textured quad is given by its material.
pub struct QuadMaterialPlan {
    pub texture_name: String,
    pub texture_count: u32,
    pub texture_name1: Option<String>,
    pub texture_name2: Option<String>,
    pub samplers: [SamplerSettings; 3],
    /// The layer each projection generator was given, in order.
    pub projection_layers: Vec<usize>,
    pub tex_gen_mode: u32,
    pub black_color: u32,
    pub white_color: u32,
    pub combine_mode: u32,
    pub combine_mode2: u32,
    pub detailed_stage_count: Option<u32>,
    /// The alpha flags without the reference value (bits 3 to 10), which is the caller's.
    pub alpha_flags: u32,
}

/// What `str::trim_end` makes of a string: it without trailing white space.
pub uninterp spec fn trimmed_end(s: Seq<char>) -> Seq<char>;

/// Removes trailing white space with `str::trim_end`. Claimed: the result is
/// `trimmed_end(s)`, a function of the string alone; which characters count as white
/// space is not stated.
#[verifier::external_body]
fn trim_end(s: &str) -> (r: String)
    ensures
        r@ == trimmed_end(s@),
{
    s.trim_end().to_string()
}

pub open spec fn address_of(w: TexWrapMode) -> AddressMode {
    match w {
        TexWrapMode::Repeat => AddressMode::Repeat,
        TexWrapMode::Mirror => AddressMode::MirrorRepeat,
        TexWrapMode::Clamp => AddressMode::ClampToEdge,
    }
}

pub open spec fn filter_of(f: TexFilter) -> FilterMode {
    match f {
        TexFilter::Linear => FilterMode::Linear,
        TexFilter::Near => FilterMode::Nearest,
    }
}

/// The sampler for a texture map: its wrap modes and filters (the U filter for
/// minifying, the V filter for magnifying); clamped and linear where there is no map.
pub open spec fn sampler_of(m: Option<&TexMapSummary>) -> SamplerSettings {
    match m {
        Some(t) => SamplerSettings {
            address_mode_u: address_of(t.u_wrap),
            address_mode_v: address_of(t.v_wrap),
            min_filter: filter_of(t.u_filter),
            mag_filter: filter_of(t.v_filter),
        },
        None => SamplerSettings {
            address_mode_u: AddressMode::ClampToEdge,
            address_mode_v: AddressMode::ClampToEdge,
            min_filter: FilterMode::Linear,
            mag_filter: FilterMode::Linear,
        },
    }
}

/// The sampler for a texture map; see `sampler_of`.
pub fn sampler_settings(m: Option<&TexMapSummary>) -> (r: SamplerSettings)
    ensures
        r == sampler_of(m),
{
    match m {
        Some(t) => {
            let a = |w: TexWrapMode| -> (r: AddressMode)
                ensures
                    r == address_of(w),
                {
                    match w {
                        TexWrapMode::Repeat => AddressMode::Repeat,
                        TexWrapMode::Mirror => AddressMode::MirrorRepeat,
                        TexWrapMode::Clamp => AddressMode::ClampToEdge,
                    }
                };
            let f = |x: TexFilter| -> (r: FilterMode)
                ensures
                    r == filter_of(x),
                {
                    match x {
                        TexFilter::Linear => FilterMode::Linear,
                        TexFilter::Near => FilterMode::Nearest,
                    }
                };
            SamplerSettings {
                address_mode_u: a(t.u_wrap),
                address_mode_v: a(t.v_wrap),
                min_filter: f(t.u_filter),
                mag_filter: f(t.v_filter),
            }
        },
        None => SamplerSettings {
            address_mode_u: AddressMode::ClampToEdge,
            address_mode_v: AddressMode::ClampToEdge,
            min_filter: FilterMode::Linear,
            mag_filter: FilterMode::Linear,
        },
    }
}

/// The generation mode of a layer from its generator: 1 for projections (with bit 5
/// set for orthogonal and perspective ones), 2 for brick repeat, 0 otherwise.
pub open spec fn gen_mode(k: TexGenKind) -> u32 {
    match k {
        TexGenKind::PaneProjection => 1,
        TexGenKind::Projection => 33,
        TexGenKind::BrickRepeat => 2,
        TexGenKind::Other => 0,
    }
}

/// The generation flags of layer `l` before projections are assigned: from the
/// layer's generator where the layer is one of the `count` textures and has one.
pub open spec fn base_flags(gens: Seq<TexGenKind>, count: nat, l: int) -> u32 {
    if l < count && l < gens.len() { gen_mode(gens[l]) } else { 0 }
}

/// Whether layer `l` takes projection settings: its mode is a projection.
pub open spec fn takes_projection(gens: Seq<TexGenKind>, count: nat, l: int) -> bool {
    base_flags(gens, count, l) % 4 == 1
}

/// The first layer from `t` on that takes projection settings, or 3 for none.
pub open spec fn next_projection_layer(gens: Seq<TexGenKind>, count: nat, t: nat) -> nat
    decreases 3 - t,
{
    if t >= 3 {
        3
    } else if takes_projection(gens, count, t as int) {
        t
    } else {
        next_projection_layer(gens, count, t + 1)
    }
}

/// The layers `r` projection generators are given, one each in order, from layer `t`
/// on, skipping layers that take no projection, until the layers run out.
pub open spec fn projection_layers_from(gens: Seq<TexGenKind>, count: nat, r: nat, t: nat) -> Seq<usize>
    decreases r,
{
    if r == 0 {
        Seq::empty()
    } else {
        let l = next_projection_layer(gens, count, t);
        if l >= 3 {
            Seq::empty()
        } else {
            seq![l as usize] + projection_layers_from(gens, count, (r - 1) as nat, l + 1)
        }
    }
}

/// The fitting bits a projection generator's flags add to its layer.
pub open spec fn fit_bits(f: ProjectionFlags) -> u32 {
    ((if f.fitting_layout_size { 4int } else { 0int }) + (if f.fitting_pane_size { 8int } else { 0int }) + (
    if f.adjust_projection_scale_rotate { 16int } else { 0int })) as u32
}

/// The bits the first `n` assigned generators add to layer `l`.
pub open spec fn assigned_bits(layers: Seq<usize>, flags: Seq<ProjectionFlags>, l: int, n: nat) -> u32
    decreases n,
{
    if n == 0 {
        0
    } else if layers[n - 1] == l {
        fit_bits(flags[n - 1])
    } else {
        assigned_bits(layers, flags, l, (n - 1) as nat)
    }
}

/// The full flags of layer `l`.
pub open spec fn layer_flags(gens: Seq<TexGenKind>, count: nat, layers: Seq<usize>, flags: Seq<ProjectionFlags>, l: int) -> u32 {
    (base_flags(gens, count, l) + assigned_bits(layers, flags, l, layers.len())) as u32
}

/// Four bytes packed low byte first.
pub open spec fn pack4(c: [u8; 4]) -> u32 {
    (c[0] + c[1] * 0x100 + c[2] * 0x1_0000 + c[3] * 0x100_0000) as u32
}

pub open spec fn tex_count_of(m: &MaterialSummary, has_glyph: bool) -> u32 {
    let n: u32 = if m.tex_maps@.len() >= 3 { 3 } else { m.tex_maps@.len() as u32 };
    if has_glyph && n == 0 { 1 } else { n }
}

/// The trimmed name of the texture map at `idx`, where there is one and it is not empty.
pub open spec fn extra_name(m: &MaterialSummary, idx: int) -> Option<Seq<char>> {
    if idx < m.tex_maps@.len() && trimmed_end(m.tex_maps@[idx].texture_name@).len() > 0 {
        Some(trimmed_end(m.tex_maps@[idx].texture_name@))
    } else {
        None
    }
}

pub open spec fn opt_view(o: Option<String>) -> Option<Seq<char>> {
    match o {
        Some(s) => Some(s@),
        None => None,
    }
}

pub open spec fn stage_mode(s: TevStage) -> u32 {
    (s.rgb_mode + (if s.alpha_modulate { 0x100_0000int } else { 0int })) as u32
}

/// Whether a material gives its pane no textured quad: no glyph, no texture name
/// after trimming, and no blending, alpha comparison or combiner of any kind.
pub open spec fn no_textured_quad(m: &MaterialSummary, glyph_texture: Option<Seq<char>>) -> bool {
    &&& glyph_texture is None
    &&& (m.tex_maps@.len() == 0 || trimmed_end(m.tex_maps@[0].texture_name@).len() == 0)
    &&& !m.has_blend_mode
    &&& !m.has_alpha_compare
    &&& m.tev_stages@.len() == 0
    &&& m.detailed_stages is None
}

/// What the material gives a pane's textured quad, drawn with the glyph atlas texture
/// `glyph_texture` where the pane shows a glyph; `None` where it gives no quad.
pub fn quad_material(m: &MaterialSummary, glyph_texture: Option<&str>) -> (r: Option<QuadMaterialPlan>)
    ensures
        r is None <==> no_textured_quad(m, match glyph_texture { Some(g) => Some(g@), None => None }),
        r matches Some(p) ==> {
            let count = tex_count_of(m, glyph_texture is Some);
            let layers = projection_layers_from(m.tex_gens@, count as nat, m.projection_gens@.len(), 0);
            &&& p.texture_name@ == match glyph_texture {
                Some(g) => g@,
                None => if m.tex_maps@.len() > 0 { trimmed_end(m.tex_maps@[0].texture_name@) } else { Seq::empty() },
            }
            &&& p.texture_count == count
            &&& opt_view(p.texture_name1) == extra_name(m, 1)
            &&& opt_view(p.texture_name2) == extra_name(m, 2)
            &&& forall|i: int| 0 <= i < 3 ==> #[trigger] p.samplers[i] == sampler_of(
                if i < m.tex_maps@.len() { Some(&m.tex_maps@[i]) } else { None },
            )
            &&& p.projection_layers@ == layers
            &&& p.tex_gen_mode == layer_flags(m.tex_gens@, count as nat, layers, m.projection_gens@, 0)
                + layer_flags(m.tex_gens@, count as nat, layers, m.projection_gens@, 1) * 0x100
                + layer_flags(m.tex_gens@, count as nat, layers, m.projection_gens@, 2) * 0x1_0000
            &&& p.black_color == pack4(m.black_color)
            &&& p.white_color == pack4(m.white_color)
            &&& p.combine_mode == (if m.tev_stages@.len() > 0 { stage_mode(m.tev_stages@[0]) } else { 0 })
            &&& p.combine_mode2 == (if m.tev_stages@.len() > 1 { stage_mode(m.tev_stages@[1]) } else { 0 })
            &&& p.detailed_stage_count == match m.detailed_stages {
                Some(n) => Some(if n >= 6 { 6u32 } else { n as u32 }),
                None => None,
            }
            &&& p.alpha_flags == (if m.has_alpha_compare { m.alpha_compare_fn % 8 } else { 0 }) + (if m.use_texture_only {
                0x800u32
            } else {
                0u32
            }) + (if m.use_thresholding_alpha_interpolation { 0x1000u32 } else { 0u32 })
        },
{
    let first = if m.tex_maps.len() > 0 { trim_end(m.tex_maps[0].texture_name.as_str()) } else { String::new() };
    let texture_name = match glyph_texture {
        Some(g) => String::from_str(g),
        None => first,
    };
    if glyph_texture.is_none() && texture_name.as_str().unicode_len() == 0 && !m.has_blend_mode
        && !m.has_alpha_compare && m.tev_stages.len() == 0 && m.detailed_stages.is_none() {
        return None;
    }
    let n_maps = m.tex_maps.len();
    let base_count: u32 = if n_maps >= 3 { 3 } else { n_maps as u32 };
    let texture_count: u32 = if glyph_texture.is_some() && base_count == 0 { 1 } else { base_count };
    let ghost count = texture_count as nat;

    let s0 = sampler_settings(if n_maps > 0 { Some(&m.tex_maps[0]) } else { None });
    let s1 = sampler_settings(if n_maps > 1 { Some(&m.tex_maps[1]) } else { None });
    let s2 = sampler_settings(if n_maps > 2 { Some(&m.tex_maps[2]) } else { None });
    let samplers = [s0, s1, s2];

    let name_at = |idx: usize| -> (r: Option<String>)
        requires
            idx < 3,
        ensures
            opt_view(r) == extra_name(m, idx as int),
        {
            if idx < m.tex_maps.len() {
                let s = trim_end(m.tex_maps[idx].texture_name.as_str());
                if s.as_str().unicode_len() > 0 {
                    Some(s)
                } else {
                    None
                }
            } else {
                None
            }
        };
    let texture_name1 = name_at(1);
    let texture_name2 = name_at(2);

    // Per-layer flags before projections.
    let mut flags: Vec<u32> = Vec::new();
    let mut l: usize = 0;
    while l < 3
        invariant
            l <= 3,
            flags@.len() == l,
            count == texture_count,
            forall|k: int| 0 <= k < l ==> #[trigger] flags@[k] == base_flags(m.tex_gens@, count, k),
        decreases 3 - l,
    {
        let v: u32 = if (l as u32) < texture_count && l < m.tex_gens.len() {
            match m.tex_gens[l] {
                TexGenKind::PaneProjection => 1,
                TexGenKind::Projection => 33,
                TexGenKind::BrickRepeat => 2,
                TexGenKind::Other => 0,
            }
        } else {
            0
        };
        flags.push(v);
        l = l + 1;
    }
    let ghost base = flags@;

    // Projection generators, one per projection layer in order.
    let mut layers: Vec<usize> = Vec::new();
    let mut target: usize = 0;
    let mut g: usize = 0;
    let n_gens = m.projection_gens.len();
    let ghost total = n_gens as nat;
    while g < n_gens && target < 3
        invariant
            g <= n_gens,
            n_gens == m.projection_gens@.len(),
            total == n_gens,
            target <= 3,
            count == texture_count,
            base == Seq::new(3, |k: int| base_flags(m.tex_gens@, count, k)),
            flags@.len() == 3,
            layers@.len() == g,
            layers@ + projection_layers_from(m.tex_gens@, count, (total - g) as nat, target as nat)
                == projection_layers_from(m.tex_gens@, count, total, 0),
            forall|i: int| 0 <= i < g ==> #[trigger] layers@[i] < target,
            forall|k: int| 0 <= k < 3 ==> #[trigger] flags@[k] == base[k] + assigned_bits(
                layers@,
                m.projection_gens@,
                k,
                g as nat,
            ),
            forall|k: int| 0 <= k < 3 ==> flags@[k] < 64,
        decreases n_gens - g, 3 - target,
    {
        let ghost t0 = target;
        while target < 3 && flags[target] % 4 != 1
            invariant
                target <= 3,
                t0 <= target,
                flags@.len() == 3,
                base == Seq::new(3, |k: int| base_flags(m.tex_gens@, count, k)),
                forall|k: int| 0 <= k < 3 ==> #[trigger] flags@[k] == base[k] + assigned_bits(
                    layers@,
                    m.projection_gens@,
                    k,
                    g as nat,
                ),
                forall|i: int| 0 <= i < g ==> #[trigger] layers@[i] < t0,
                layers@.len() == g,
                forall|k: int| 0 <= k < 3 ==> flags@[k] < 64,
                next_projection_layer(m.tex_gens@, count, t0 as nat) == next_projection_layer(
                    m.tex_gens@,
                    count,
                    target as nat,
                ),
            decreases 3 - target,
        {
            proof {
                assert(assigned_bits(layers@, m.projection_gens@, target as int, g as nat) == 0) by {
                    lemma_unassigned(layers@, m.projection_gens@, target as int, g as nat);
                }
            }
            target = target + 1;
        }
        proof {
            if target < 3 {
                lemma_unassigned(layers@, m.projection_gens@, target as int, g as nat);
                assert(takes_projection(m.tex_gens@, count, target as int));
            }
        }
        if target < 3 {
        let f = m.projection_gens[g];
        let extra: u32 = (if f.fitting_layout_size { 4u32 } else { 0u32 }) + (if f.fitting_pane_size { 8u32 } else { 0u32 })
            + (if f.adjust_projection_scale_rotate { 16u32 } else { 0u32 });
        let old_v = flags[target];
        let ghost before_layers = layers@;
        let ghost before_flags = flags@;
        flags.set(target, old_v + extra);
        layers.push(target);
        proof {
            assert(projection_layers_from(m.tex_gens@, count, (total - g) as nat, t0 as nat) == seq![target] + projection_layers_from(
                m.tex_gens@,
                count,
                (total - g - 1) as nat,
                (target + 1) as nat,
            ));
            assert(layers@ + projection_layers_from(m.tex_gens@, count, (total - g - 1) as nat, (target + 1) as nat)
                =~= before_layers + (seq![target] + projection_layers_from(
                m.tex_gens@,
                count,
                (total - g - 1) as nat,
                (target + 1) as nat,
            )));
            assert forall|k: int| 0 <= k < 3 implies #[trigger] flags@[k] == base[k] + assigned_bits(
                layers@,
                m.projection_gens@,
                k,
                (g + 1) as nat,
            ) by {
                assert(layers@.drop_last() =~= before_layers);
                lemma_assigned_prefix(layers@, before_layers, m.projection_gens@, k, g as nat);
            }
        }
        target = target + 1;
        g = g + 1;
        }
    }
    proof {
        if g < n_gens {
            // Layers ran out: nothing more is assigned.
            assert(target >= 3);
            assert(projection_layers_from(m.tex_gens@, count, (total - g) as nat, target as nat) =~= Seq::<usize>::empty());
        } else {
            assert(projection_layers_from(m.tex_gens@, count, 0, target as nat) =~= Seq::<usize>::empty());
        }
        assert(layers@ =~= projection_layers_from(m.tex_gens@, count, total, 0));
    }
    let tex_gen_mode = flags[0] + flags[1] * 0x100 + flags[2] * 0x1_0000;

    let b = m.black_color;
    let w = m.white_color;
    let black_color = (b[0] as u32) + (b[1] as u32) * 0x100 + (b[2] as u32) * 0x1_0000 + (b[3] as u32) * 0x100_0000;
    let white_color = (w[0] as u32) + (w[1] as u32) * 0x100 + (w[2] as u32) * 0x1_0000 + (w[3] as u32) * 0x100_0000;

    let n_stages = m.tev_stages.len();
    let combine_mode: u32 = if n_stages > 0 {
        m.tev_stages[0].rgb_mode as u32 + if m.tev_stages[0].alpha_modulate { 0x100_0000 } else { 0 }
    } else {
        0
    };
    let combine_mode2: u32 = if n_stages > 1 {
        m.tev_stages[1].rgb_mode as u32 + if m.tev_stages[1].alpha_modulate { 0x100_0000 } else { 0 }
    } else {
        0
    };
    let detailed_stage_count = match m.detailed_stages {
        Some(n) => Some(if n >= 6 { 6u32 } else { n as u32 }),
        None => None,
    };
    let alpha_flags: u32 = (if m.has_alpha_compare { (m.alpha_compare_fn % 8) as u32 } else { 0 }) + (if m.use_texture_only {
        0x800u32
    } else {
        0u32
    }) + (if m.use_thresholding_alpha_interpolation { 0x1000u32 } else { 0u32 });

    Some(
        QuadMaterialPlan {
            texture_name,
            texture_count,
            texture_name1,
            texture_name2,
            samplers,
            projection_layers: layers,
            tex_gen_mode,
            black_color,
            white_color,
            combine_mode,
            combine_mode2,
            detailed_stage_count,
            alpha_flags,
        },
    )
}

/// A layer at or past every assigned layer has no bits assigned.
proof fn lemma_unassigned(layers: Seq<usize>, flags: Seq<ProjectionFlags>, l: int, n: nat)
    requires
        n <= layers.len(),
        forall|i: int| 0 <= i < n ==> #[trigger] layers[i] < l,
    ensures
        assigned_bits(layers, flags, l, n) == 0,
    decreases n,
{
    if n > 0 {
        lemma_unassigned(layers, flags, l, (n - 1) as nat);
    }
}

/// Appending a layer changes only that layer's bits.
proof fn lemma_assigned_prefix(layers: Seq<usize>, prefix: Seq<usize>, flags: Seq<ProjectionFlags>, l: int, n: nat)
    requires
        layers.len() == n + 1,
        prefix == layers.drop_last(),
        forall|i: int| 0 <= i < n ==> #[trigger] prefix[i] < layers[n as int],
    ensures
        assigned_bits(layers, flags, l, n + 1) == if layers[n as int] == l {
            fit_bits(flags[n as int])
        } else {
            assigned_bits(prefix, flags, l, n)
        },
        layers[n as int] == l ==> assigned_bits(prefix, flags, l, n) == 0,
{
    lemma_assigned_same(layers, prefix, flags, l, n);
    if layers[n as int] == l {
        lemma_unassigned(prefix, flags, l, n);
    }
}

proof fn lemma_assigned_same(layers: Seq<usize>, prefix: Seq<usize>, flags: Seq<ProjectionFlags>, l: int, n: nat)
    requires
        n <= prefix.len(),
        prefix.len() < layers.len(),
        forall|i: int| 0 <= i < prefix.len() ==> prefix[i] == layers[i],
    ensures
        assigned_bits(layers, flags, l, n) == assigned_bits(prefix, flags, l, n),
    decreases n,
{
    if n > 0 {
        lemma_assigned_same(layers, prefix, flags, l, (n - 1) as nat);
    }
}


/// A texture map's sampler addresses U and V as the map wraps them (repeat repeats,
/// mirror repeats mirrored, clamp clamps to the edge) and filters with the map's U
/// filter when minifying and its V filter when magnifying (near is nearest, linear is
/// linear); without a map it clamps to the edge and filters linearly.
pub proof fn law_sampler_follows_the_texture_map(m: Option<&TexMapSummary>)
    ensures
        m matches Some(t) ==> {
            let s = sampler_of(m);
            &&& t.u_wrap == TexWrapMode::Repeat ==> s.address_mode_u == AddressMode::Repeat
            &&& t.u_wrap == TexWrapMode::Mirror ==> s.address_mode_u == AddressMode::MirrorRepeat
            &&& t.u_wrap == TexWrapMode::Clamp ==> s.address_mode_u == AddressMode::ClampToEdge
            &&& t.v_wrap == TexWrapMode::Repeat ==> s.address_mode_v == AddressMode::Repeat
            &&& t.v_wrap == TexWrapMode::Mirror ==> s.address_mode_v == AddressMode::MirrorRepeat
            &&& t.v_wrap == TexWrapMode::Clamp ==> s.address_mode_v == AddressMode::ClampToEdge
            &&& t.u_filter == TexFilter::Near ==> s.min_filter == FilterMode::Nearest
            &&& t.u_filter == TexFilter::Linear ==> s.min_filter == FilterMode::Linear
            &&& t.v_filter == TexFilter::Near ==> s.mag_filter == FilterMode::Nearest
            &&& t.v_filter == TexFilter::Linear ==> s.mag_filter == FilterMode::Linear
        },
        m is None ==> sampler_of(m) == (SamplerSettings {
            address_mode_u: AddressMode::ClampToEdge,
            address_mode_v: AddressMode::ClampToEdge,
            min_filter: FilterMode::Linear,
            mag_filter: FilterMode::Linear,
        }),
{
}


/// A quad uses as many textures as its material maps, but at most three; a glyph quad
/// uses at least one, the atlas.
pub proof fn law_texture_count(m: &MaterialSummary)
    ensures
        m.tex_maps@.len() <= 3 ==> tex_count_of(m, false) == m.tex_maps@.len(),
        m.tex_maps@.len() >= 3 ==> tex_count_of(m, false) == 3 && tex_count_of(m, true) == 3,
        m.tex_maps@.len() == 0 ==> tex_count_of(m, true) == 1,
        m.tex_maps@.len() > 0 ==> tex_count_of(m, true) == tex_count_of(m, false),
{
}

/// A layer's generation mode is 1 for projections through the pane, 1 with bit 5 set
/// for orthogonal and perspective projections, 2 for brick repeat, and 0 for the pane's
/// own coordinates; only projections take projection settings.
pub proof fn law_generation_modes()
    ensures
        gen_mode(TexGenKind::PaneProjection) == 1,
        gen_mode(TexGenKind::Projection) == 1 + 0x20,
        gen_mode(TexGenKind::BrickRepeat) == 2,
        gen_mode(TexGenKind::Other) == 0,
        forall|k: TexGenKind| #[trigger] gen_mode(k) % 4 == 1 <==> (k == TexGenKind::PaneProjection || k
            == TexGenKind::Projection),
{
}

/// A packed colour holds its four bytes, the first in the lowest byte.
pub proof fn law_colour_bytes(c: [u8; 4])
    ensures
        pack4(c) % 0x100 == c[0],
        (pack4(c) / 0x100) % 0x100 == c[1],
        (pack4(c) / 0x1_0000) % 0x100 == c[2],
        pack4(c) / 0x100_0000 == c[3],
{
    let (a, b, d, e) = (c[0] as int, c[1] as int, c[2] as int, c[3] as int);
    assert(0 <= a < 0x100 && 0 <= b < 0x100 && 0 <= d < 0x100 && 0 <= e < 0x100);
    let v = a + b * 0x100 + d * 0x1_0000 + e * 0x100_0000;
    assert(0 <= v < 0x1_0000_0000) by (nonlinear_arith)
        requires
            0 <= a < 0x100,
            0 <= b < 0x100,
            0 <= d < 0x100,
            0 <= e < 0x100,
            v == a + b * 0x100 + d * 0x1_0000 + e * 0x100_0000,
    ;
    assert(pack4(c) == v);
    assert(v % 0x100 == a && (v / 0x100) % 0x100 == b && (v / 0x1_0000) % 0x100 == d && v / 0x100_0000 == e)
        by (nonlinear_arith)
        requires
            0 <= a < 0x100,
            0 <= b < 0x100,
            0 <= d < 0x100,
            0 <= e < 0x100,
            v == a + b * 0x100 + d * 0x1_0000 + e * 0x100_0000,
    ;
}

/// A combine mode holds the stage's colour mode in its low byte and, in bit 24,
/// whether the stage modulates alpha.
pub proof fn law_combine_mode_bits(s: TevStage)
    ensures
        stage_mode(s) % 0x100 == s.rgb_mode,
        stage_mode(s) / 0x100_0000 == (if s.alpha_modulate { 1int } else { 0int }),
{
}

} // verus!
