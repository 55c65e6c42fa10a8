use nnbfl_preview::batches::plan_batches;
use nnbfl_preview::material::{
    quad_material, AddressMode, FilterMode, MaterialSummary, ProjectionFlags, SamplerSettings, TevStage,
    TexFilter, TexGenKind, TexMapSummary, TexWrapMode,
};

#[test]
fn quads_with_equal_keys_in_a_row_share_a_batch() {
    let keys = vec![7, 7, 3, 7, 7, 7];
    let pieces: Vec<(usize, usize)> = (0..6).map(|i| (i, usize::MAX)).collect();
    let b = plan_batches(&keys, &pieces);
    assert_eq!(b.len(), 3);
    assert_eq!((b[0].first, b[0].count, b[0].key), (0, 2, 7));
    assert_eq!((b[1].first, b[1].count, b[1].key), (2, 1, 3));
    assert_eq!((b[2].first, b[2].count, b[2].key), (3, 3, 7));
    assert_eq!(b[0].indices, vec![0, 1, 2, 1, 3, 2, 4, 5, 6, 5, 7, 6]);
    assert_eq!(b[1].indices, vec![0, 1, 2, 1, 3, 2]);
    assert_eq!(b[2].indices.len(), 18);
    assert_eq!(&b[2].indices[12..], &[8, 9, 10, 9, 11, 10]);
    assert_eq!(b[2].piece_keys, vec![(3, usize::MAX), (4, usize::MAX), (5, usize::MAX)]);
    assert!(plan_batches(&vec![], &vec![]).is_empty());
}

fn map(name: &str) -> TexMapSummary {
    TexMapSummary {
        texture_name: name.to_string(),
        u_wrap: TexWrapMode::Repeat,
        v_wrap: TexWrapMode::Mirror,
        u_filter: TexFilter::Near,
        v_filter: TexFilter::Linear,
    }
}

fn plain() -> MaterialSummary {
    MaterialSummary {
        tex_maps: vec![],
        has_blend_mode: false,
        has_alpha_compare: false,
        alpha_compare_fn: 0,
        tev_stages: vec![],
        detailed_stages: None,
        tex_gens: vec![],
        projection_gens: vec![],
        black_color: [1, 2, 3, 4],
        white_color: [255, 255, 255, 255],
        use_texture_only: false,
        use_thresholding_alpha_interpolation: false,
    }
}

#[test]
fn a_material_without_texture_or_effects_gives_no_quad() {
    assert!(quad_material(&plain(), None).is_none());
    let mut m = plain();
    m.tex_maps = vec![map("   ")];
    assert!(quad_material(&m, None).is_none());
    let p = quad_material(&m, Some("__glyph_atlas")).unwrap();
    assert_eq!(p.texture_name, "__glyph_atlas");
    assert_eq!(p.texture_count, 1);
    let p = quad_material(&plain(), Some("__glyph_atlas")).unwrap();
    assert_eq!(p.texture_count, 1);
    let mut m = plain();
    m.has_blend_mode = true;
    let p = quad_material(&m, None).unwrap();
    assert_eq!(p.texture_count, 0);
    assert_eq!(p.texture_name, "");
}

#[test]
fn material_settings_are_packed() {
    let mut m = plain();
    m.tex_maps = vec![map("tex_a  "), map(""), map("tex_c"), map("tex_d")];
    m.tev_stages = vec![TevStage { rgb_mode: 3, alpha_modulate: true }, TevStage { rgb_mode: 5, alpha_modulate: false }];
    m.has_alpha_compare = true;
    m.alpha_compare_fn = 9;
    m.use_thresholding_alpha_interpolation = true;
    m.detailed_stages = Some(9);
    m.tex_gens = vec![TexGenKind::Other, TexGenKind::Projection, TexGenKind::PaneProjection, TexGenKind::BrickRepeat];
    let f = |a, b, c| ProjectionFlags { fitting_layout_size: a, fitting_pane_size: b, adjust_projection_scale_rotate: c };
    m.projection_gens = vec![f(true, false, false), f(false, true, true), f(true, true, true)];
    let p = quad_material(&m, None).unwrap();
    assert_eq!(p.texture_name, "tex_a");
    assert_eq!(p.texture_count, 3);
    assert_eq!(p.texture_name1, None);
    assert_eq!(p.texture_name2.as_deref(), Some("tex_c"));
    assert_eq!(p.projection_layers, vec![1, 2]);
    // layer 0: 0; layer 1: 33 | 4; layer 2: 1 | 8 | 16.
    assert_eq!(p.tex_gen_mode, 0 | (37 << 8) | (25 << 16));
    assert_eq!(p.black_color, 0x04030201);
    assert_eq!(p.white_color, 0xFFFFFFFF);
    assert_eq!(p.combine_mode, 3 | (1 << 24));
    assert_eq!(p.combine_mode2, 5);
    assert_eq!(p.detailed_stage_count, Some(6));
    assert_eq!(p.alpha_flags, 1 | (1 << 12));
    assert_eq!(
        p.samplers[0],
        SamplerSettings {
            address_mode_u: AddressMode::Repeat,
            address_mode_v: AddressMode::MirrorRepeat,
            min_filter: FilterMode::Nearest,
            mag_filter: FilterMode::Linear,
        }
    );
}

#[test]
fn missing_maps_sample_clamped_and_linear() {
    let mut m = plain();
    m.tex_maps = vec![map("a")];
    let p = quad_material(&m, None).unwrap();
    assert_eq!(p.texture_count, 1);
    assert_eq!(p.samplers[2].address_mode_u, AddressMode::ClampToEdge);
    assert_eq!(p.samplers[2].min_filter, FilterMode::Linear);
}
