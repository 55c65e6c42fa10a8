use std::path::PathBuf;

use nnbfl_preview::game_config::{
    is_scalable_font_extension, layout_folder_parts, strip_bfcpx_suffix, Language, TomodachiLife, ACNH,
};

fn acnh() -> ACNH {
    ACNH { romfs_path: PathBuf::from("/romfs") }
}

fn tomodachi() -> TomodachiLife {
    TomodachiLife { romfs_path: PathBuf::from("/romfs") }
}

#[test]
fn languages_in_menu_order() {
    let all = Language::all();
    assert_eq!(all.len(), 14);
    assert_eq!(all[0], Language::USen);
    assert_eq!(all[3], Language::CNzh);
    assert_eq!(all[13], Language::EUru);
    assert_eq!(Language::default(), Language::USen);
}

#[test]
fn language_names_codes_and_regions() {
    assert_eq!(Language::USen.label(), "English (US)");
    assert_eq!(Language::JPja.label(), "Japanese (日本語)");
    assert_eq!(Language::EUru.label(), "Russian (Русский)");
    assert_eq!(Language::KRko.code_str(), "KRko");
    assert_eq!(Language::EUnl.code_str(), "EUnl");
    assert_eq!(Language::USes.region_short(), "US");
    assert_eq!(Language::EUit.region_short(), "EU");
    assert_eq!(Language::TWzh.region_short(), "TW");
    assert_eq!(Language::JPja.region_short(), "JP");
    for l in Language::all() {
        assert_eq!(l.code_str().len(), 4);
        assert!(l.code_str().starts_with(l.region_short()));
    }
}

#[test]
fn bfcpx_suffix_is_stripped_once() {
    assert_eq!(strip_bfcpx_suffix("Font.bfcpx"), "Font");
    assert_eq!(strip_bfcpx_suffix("Font"), "Font");
    assert_eq!(strip_bfcpx_suffix("Font.bfcpx.bfcpx"), "Font.bfcpx");
    assert_eq!(strip_bfcpx_suffix(".bfcpx"), "");
    assert_eq!(strip_bfcpx_suffix("cpx"), "cpx");
}

#[test]
fn acnh_font_paths() {
    let g = acnh();
    assert_eq!(layout_folder_parts(), vec!["Layout"]);
    assert_eq!(g.fcpx_folder_parts(Language::EUde), vec!["Font", "Fcpx"]);
    assert_eq!(g.scalable_font_folder_parts(Language::EUde), vec!["Font", "ScalableFont"]);
    assert_eq!(g.bmp_font_folder_path(Language::EUde, true), vec!["Font", "BmpFont_EU"]);
    assert_eq!(g.bmp_font_folder_path(Language::EUde, false), vec!["Font", "BmpFont_US"]);
    assert_eq!(g.fcpx_candidate_path("Main.bfcpx", Language::KRko), vec!["Font", "Fcpx", "Main_KRko.bfcpx"]);
    assert_eq!(g.fcpx_candidate_path("Main", Language::EUfr), vec!["Font", "Fcpx", "Main.bfcpx"]);
    assert_eq!(g.fcpx_file_path("Main", Language::CNzh, true), vec!["Font", "Fcpx", "Main_CNzh.bfcpx"]);
    assert_eq!(g.fcpx_file_path("Main", Language::CNzh, false), vec!["Font", "Fcpx", "Main.bfcpx"]);
}

#[test]
fn tomodachi_font_paths() {
    let g = tomodachi();
    assert_eq!(g.localized_font_candidate(Language::EUen), vec!["Font", "Font.Nin_NX_NVN"]);
    assert_eq!(g.localized_font_candidate(Language::JPja), vec!["Font", "Font_JPja.Nin_NX_NVN"]);
    assert_eq!(g.localized_font_root(Language::JPja, true), vec!["Font", "Font_JPja.Nin_NX_NVN"]);
    assert_eq!(g.localized_font_root(Language::JPja, false), vec!["Font", "Font.Nin_NX_NVN"]);
    assert_eq!(g.fcpx_folder_path(Language::KRko, true), vec!["Font", "Font_KRko.Nin_NX_NVN", "fcpx"]);
    assert_eq!(g.scalable_font_folder_path(Language::KRko, false), vec!["Font", "Font.Nin_NX_NVN", "scft"]);
    assert_eq!(
        g.fcpx_file_path("Main.bfcpx", Language::KRko, true, true),
        vec!["Font", "Font_KRko.Nin_NX_NVN", "fcpx", "Main.bfcpx"]
    );
    assert_eq!(
        g.fcpx_file_path("Main", Language::KRko, true, false),
        vec!["Font", "Font.Nin_NX_NVN", "fcpx", "Main.bfcpx"]
    );
    assert_eq!(
        g.fcpx_file_path("Main", Language::KRko, false, true),
        vec!["Font", "Font.Nin_NX_NVN", "fcpx", "Main.bfcpx"]
    );
}

#[test]
fn scalable_font_extensions() {
    assert!(is_scalable_font_extension("ttf"));
    assert!(is_scalable_font_extension("OTF"));
    assert!(is_scalable_font_extension("BfTtF"));
    assert!(is_scalable_font_extension("bfotf"));
    assert!(!is_scalable_font_extension("bffnt"));
    assert!(!is_scalable_font_extension(""));
}
