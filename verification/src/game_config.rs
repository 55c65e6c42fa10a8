//! Per-game knowledge of where a game's romfs keeps its layouts and fonts, and which
//! font files go with which language.
//!
//! Paths are given as the names of their components below the romfs folder; whether a
//! localized folder or file exists on disk is asked by the caller and handed in.

use vstd::prelude::*;

use std::path::PathBuf;

use crate::text::{lowercase, to_lowercase};

verus! {

/// A game language and region.
#[derive(Debug, Clone, Copy, PartialEq, Eq, Structural, Hash)]
pub enum Language {
    /// US English
    USen,
    /// EU English
    EUen,
    /// Japanese
    JPja,
    /// Simplified Chinese
    CNzh,
    /// Traditional Chinese
    TWzh,
    /// Korean
    KRko,
    /// EU French
    EUfr,
    /// US French
    USfr,
    /// German
    EUde,
    /// EU Spanish
    EUes,
    /// US Spanish
    USes,
    /// Italian
    EUit,
    /// Dutch
    EUnl,
    /// Russian
    EUru,
}

impl Default for Language {
    fn default() -> (r: Self)
        ensures
            r == Language::USen,
    {
        Language::USen
    }
}

/// Every language, in the order the language menu lists them.
pub open spec fn all_languages() -> Seq<Language> {
    seq![
        Language::USen,
        Language::EUen,
        Language::JPja,
        Language::CNzh,
        Language::TWzh,
        Language::KRko,
        Language::EUfr,
        Language::USfr,
        Language::EUde,
        Language::EUes,
        Language::USes,
        Language::EUit,
        Language::EUnl,
        Language::EUru,
    ]
}

/// The name a language is shown by.
pub open spec fn label_of(l: Language) -> Seq<char> {
    match l {
        Language::USen => "English (US)"@,
        Language::EUen => "English (EU)"@,
        Language::JPja => "Japanese (日本語)"@,
        Language::CNzh => "Simplified Chinese (简体中文)"@,
        Language::TWzh => "Traditional Chinese (繁體中文)"@,
        Language::KRko => "Korean (한국어)"@,
        Language::EUfr => "French (EU - Français)"@,
        Language::USfr => "French (US - Français)"@,
        Language::EUde => "German (Deutsch)"@,
        Language::EUes => "Spanish (EU - Español)"@,
        Language::USes => "Spanish (US - Español)"@,
        Language::EUit => "Italian (Italiano)"@,
        Language::EUnl => "Dutch (Nederlands)"@,
        Language::EUru => "Russian (Русский)"@,
    }
}

/// The code a game's files use for a language: region, then language.
pub open spec fn code_of(l: Language) -> Seq<char> {
    match l {
        Language::USen => "USen"@,
        Language::EUen => "EUen"@,
        Language::JPja => "JPja"@,
        Language::CNzh => "CNzh"@,
        Language::TWzh => "TWzh"@,
        Language::KRko => "KRko"@,
        Language::EUfr => "EUfr"@,
        Language::USfr => "USfr"@,
        Language::EUde => "EUde"@,
        Language::EUes => "EUes"@,
        Language::USes => "USes"@,
        Language::EUit => "EUit"@,
        Language::EUnl => "EUnl"@,
        Language::EUru => "EUru"@,
    }
}

/// The region a language belongs to.
pub open spec fn region_of(l: Language) -> Seq<char> {
    match l {
        Language::USen | Language::USfr | Language::USes => "US"@,
        Language::EUen | Language::EUfr | Language::EUde | Language::EUes | Language::EUit
        | Language::EUnl | Language::EUru => "EU"@,
        Language::JPja => "JP"@,
        Language::CNzh => "CN"@,
        Language::TWzh => "TW"@,
        Language::KRko => "KR"@,
    }
}

impl Language {
    /// Every language, in menu order.
    pub fn all() -> (r: Vec<Language>)
        ensures
            r@ == all_languages(),
    {
        let r = vec![
            Language::USen,
            Language::EUen,
            Language::JPja,
            Language::CNzh,
            Language::TWzh,
            Language::KRko,
            Language::EUfr,
            Language::USfr,
            Language::EUde,
            Language::EUes,
            Language::USes,
            Language::EUit,
            Language::EUnl,
            Language::EUru,
        ];
        assert(r@ =~= all_languages());
        r
    }

    /// The name this language is shown by.
    pub fn label(&self) -> (r: &'static str)
        ensures
            r@ == label_of(*self),
    {
        match self {
            Language::USen => "English (US)",
            Language::EUen => "English (EU)",
            Language::JPja => "Japanese (日本語)",
            Language::CNzh => "Simplified Chinese (简体中文)",
            Language::TWzh => "Traditional Chinese (繁體中文)",
            Language::KRko => "Korean (한국어)",
            Language::EUfr => "French (EU - Français)",
            Language::USfr => "French (US - Français)",
            Language::EUde => "German (Deutsch)",
            Language::EUes => "Spanish (EU - Español)",
            Language::USes => "Spanish (US - Español)",
            Language::EUit => "Italian (Italiano)",
            Language::EUnl => "Dutch (Nederlands)",
            Language::EUru => "Russian (Русский)",
        }
    }

    /// The code the game's files use for this language.
    pub fn code_str(&self) -> (r: &'static str)
        ensures
            r@ == code_of(*self),
    {
        match self {
            Language::USen => "USen",
            Language::EUen => "EUen",
            Language::JPja => "JPja",
            Language::CNzh => "CNzh",
            Language::TWzh => "TWzh",
            Language::KRko => "KRko",
            Language::EUfr => "EUfr",
            Language::USfr => "USfr",
            Language::EUde => "EUde",
            Language::EUes => "EUes",
            Language::USes => "USes",
            Language::EUit => "EUit",
            Language::EUnl => "EUnl",
            Language::EUru => "EUru",
        }
    }

    /// The region this language belongs to.
    pub fn region_short(&self) -> (r: &'static str)
        ensures
            r@ == region_of(*self),
    {
        match self {
            Language::USen | Language::USfr | Language::USes => "US",
            Language::EUen | Language::EUfr | Language::EUde | Language::EUes | Language::EUit
            | Language::EUnl | Language::EUru => "EU",
            Language::JPja => "JP",
            Language::CNzh => "CN",
            Language::TWzh => "TW",
            Language::KRko => "KR",
        }
    }
}

/// `name` without a trailing `.bfcpx`.
pub open spec fn without_bfcpx(name: Seq<char>) -> Seq<char> {
    if name.len() >= 6 && name.subrange(name.len() - 6, name.len() as int) == ".bfcpx"@ {
        name.subrange(0, name.len() - 6)
    } else {
        name
    }
}

/// `base_name` without a trailing `.bfcpx`.
pub fn strip_bfcpx_suffix(base_name: &str) -> (r: &str)
    ensures
        r@ == without_bfcpx(base_name@),
{
    let n = base_name.unicode_len();
    let suffix = ".bfcpx";
    proof {
        reveal_strlit(".bfcpx");
    }
    if n >= 6 {
        let tail = base_name.substring_char(n - 6, n);
        let t = String::from_str(tail);
        let s = String::from_str(suffix);
        if t == s {
            return base_name.substring_char(0, n - 6);
        }
    }
    base_name
}

/// The folders and file, below the romfs folder, that a path is made of.
pub open spec fn parts_view(parts: Seq<String>) -> Seq<Seq<char>> {
    parts.map_values(|s: String| s@)
}

fn parts2(a: &str, b: &str) -> (r: Vec<String>)
    ensures
        parts_view(r@) == seq![a@, b@],
{
    let r = vec![String::from_str(a), String::from_str(b)];
    assert(parts_view(r@) =~= seq![a@, b@]);
    r
}

/// The folder of layouts, below the romfs folder.
pub fn layout_folder_parts() -> (r: Vec<String>)
    ensures
        parts_view(r@) == seq!["Layout"@],
{
    let r = vec![String::from_str("Layout")];
    assert(parts_view(r@) =~= seq!["Layout"@]);
    r
}

/// Animal Crossing: New Horizons, whose romfs is at `romfs_path`.
pub struct ACNH {
    pub romfs_path: PathBuf,
}

/// The name of the bitmap font folder for `lang`'s region.
pub open spec fn acnh_bmp_folder_name(lang: Language) -> Seq<char> {
    "BmpFont_"@ + region_of(lang)
}

/// The `.bfcpx` file looked for first: languages with their own glyph sets (Chinese
/// and Korean) carry their code in the name.
pub open spec fn acnh_localized_fcpx_name(base_name: Seq<char>, lang: Language) -> Seq<char> {
    match lang {
        Language::CNzh | Language::TWzh | Language::KRko => without_bfcpx(base_name) + "_"@ + code_of(lang)
            + ".bfcpx"@,
        _ => without_bfcpx(base_name) + ".bfcpx"@,
    }
}

impl ACNH {
    /// The folder of scalable fonts, below the romfs folder.
    pub fn scalable_font_folder_parts(&self, lang: Language) -> (r: Vec<String>)
        ensures
            parts_view(r@) == seq!["Font"@, "ScalableFont"@],
    {
        parts2("Font", "ScalableFont")
    }

    /// The folder of `.bfcpx` files, below the romfs folder.
    pub fn fcpx_folder_parts(&self, lang: Language) -> (r: Vec<String>)
        ensures
            parts_view(r@) == seq!["Font"@, "Fcpx"@],
    {
        parts2("Font", "Fcpx")
    }

    /// The bitmap font folder for `lang`, below the romfs folder: that of its region
    /// where `regional_exists` says that folder exists, otherwise the US one.
    pub fn bmp_font_folder_path(&self, lang: Language, regional_exists: bool) -> (r: Vec<String>)
        ensures
            parts_view(r@) == seq![
                "Font"@,
                if regional_exists { acnh_bmp_folder_name(lang) } else { "BmpFont_US"@ },
            ],
    {
        let mut name = String::from_str("BmpFont_");
        if regional_exists {
            name.append(lang.region_short());
        } else {
            name.append("US");
            proof {
                reveal_strlit("BmpFont_");
                reveal_strlit("US");
                reveal_strlit("BmpFont_US");
            }
            assert(name@ =~= "BmpFont_US"@);
        }
        let r = vec![String::from_str("Font"), name];
        assert(parts_view(r@) =~= seq![
            "Font"@,
            if regional_exists { acnh_bmp_folder_name(lang) } else { "BmpFont_US"@ },
        ]);
        r
    }

    /// The `.bfcpx` file looked for first for `base_name` in `lang`, below the romfs folder.
    pub fn fcpx_candidate_path(&self, base_name: &str, lang: Language) -> (r: Vec<String>)
        ensures
            parts_view(r@) == seq!["Font"@, "Fcpx"@, acnh_localized_fcpx_name(base_name@, lang)],
    {
        let name_clean = strip_bfcpx_suffix(base_name);
        let mut file = String::from_str(name_clean);
        match lang {
            Language::CNzh | Language::TWzh | Language::KRko => {
                file.append("_");
                file.append(lang.code_str());
            },
            _ => {},
        }
        file.append(".bfcpx");
        let r = vec![String::from_str("Font"), String::from_str("Fcpx"), file];
        assert(parts_view(r@) =~= seq!["Font"@, "Fcpx"@, acnh_localized_fcpx_name(base_name@, lang)]);
        r
    }

    /// The `.bfcpx` file for `base_name` in `lang`, below the romfs folder: the
    /// candidate where `candidate_exists` says it exists, otherwise the plain one.
    pub fn fcpx_file_path(&self, base_name: &str, lang: Language, candidate_exists: bool) -> (r: Vec<String>)
        ensures
            parts_view(r@) == seq![
                "Font"@,
                "Fcpx"@,
                if candidate_exists {
                    acnh_localized_fcpx_name(base_name@, lang)
                } else {
                    without_bfcpx(base_name@) + ".bfcpx"@
                },
            ],
    {
        if candidate_exists {
            self.fcpx_candidate_path(base_name, lang)
        } else {
            let mut file = String::from_str(strip_bfcpx_suffix(base_name));
            file.append(".bfcpx");
            let r = vec![String::from_str("Font"), String::from_str("Fcpx"), file];
            assert(parts_view(r@) =~= seq!["Font"@, "Fcpx"@, without_bfcpx(base_name@) + ".bfcpx"@]);
            r
        }
    }
}

/// Tomodachi Life, whose romfs is at `romfs_path`.
pub struct TomodachiLife {
    pub romfs_path: PathBuf,
}

/// The font folder meant for `lang`: English shares the plain one, every other
/// language has its own, named with its code.
pub open spec fn tomodachi_font_folder_name(lang: Language) -> Seq<char> {
    match lang {
        Language::USen | Language::EUen => "Font.Nin_NX_NVN"@,
        _ => "Font_"@ + code_of(lang) + ".Nin_NX_NVN"@,
    }
}

impl TomodachiLife {
    /// The folder below the romfs folder where `lang`'s fonts would be, looked for first.
    pub fn localized_font_candidate(&self, lang: Language) -> (r: Vec<String>)
        ensures
            parts_view(r@) == seq!["Font"@, tomodachi_font_folder_name(lang)],
    {
        let name = match lang {
            Language::USen | Language::EUen => String::from_str("Font.Nin_NX_NVN"),
            _ => {
                let mut s = String::from_str("Font_");
                s.append(lang.code_str());
                s.append(".Nin_NX_NVN");
                s
            },
        };
        let r = vec![String::from_str("Font"), name];
        assert(parts_view(r@) =~= seq!["Font"@, tomodachi_font_folder_name(lang)]);
        r
    }

    /// The font folder for `lang`, below the romfs folder: its own where
    /// `localized_exists` says it exists, otherwise the plain one.
    pub fn localized_font_root(&self, lang: Language, localized_exists: bool) -> (r: Vec<String>)
        ensures
            parts_view(r@) == seq![
                "Font"@,
                if localized_exists { tomodachi_font_folder_name(lang) } else { "Font.Nin_NX_NVN"@ },
            ],
    {
        if localized_exists {
            self.localized_font_candidate(lang)
        } else {
            parts2("Font", "Font.Nin_NX_NVN")
        }
    }

    /// The folder of `.bfcpx` files for `lang`, below the romfs folder.
    pub fn fcpx_folder_path(&self, lang: Language, localized_exists: bool) -> (r: Vec<String>)
        ensures
            parts_view(r@) == seq![
                "Font"@,
                if localized_exists { tomodachi_font_folder_name(lang) } else { "Font.Nin_NX_NVN"@ },
                "fcpx"@,
            ],
    {
        let mut r = self.localized_font_root(lang, localized_exists);
        let ghost before = r@;
        r.push(String::from_str("fcpx"));
        assert(parts_view(r@) =~= parts_view(before).push("fcpx"@));
        assert(parts_view(r@) =~= seq![
            "Font"@,
            if localized_exists { tomodachi_font_folder_name(lang) } else { "Font.Nin_NX_NVN"@ },
            "fcpx"@,
        ]);
        r
    }

    /// The folder of scalable fonts for `lang`, below the romfs folder.
    pub fn scalable_font_folder_path(&self, lang: Language, localized_exists: bool) -> (r: Vec<String>)
        ensures
            parts_view(r@) == seq![
                "Font"@,
                if localized_exists { tomodachi_font_folder_name(lang) } else { "Font.Nin_NX_NVN"@ },
                "scft"@,
            ],
    {
        let mut r = self.localized_font_root(lang, localized_exists);
        let ghost before = r@;
        r.push(String::from_str("scft"));
        assert(parts_view(r@) =~= parts_view(before).push("scft"@));
        assert(parts_view(r@) =~= seq![
            "Font"@,
            if localized_exists { tomodachi_font_folder_name(lang) } else { "Font.Nin_NX_NVN"@ },
            "scft"@,
        ]);
        r
    }

    /// The `.bfcpx` file for `base_name` in `lang`, below the romfs folder: in `lang`'s
    /// font folder where `candidate_exists` says the file is there, otherwise in the
    /// plain one.
    pub fn fcpx_file_path(
        &self,
        base_name: &str,
        lang: Language,
        localized_exists: bool,
        candidate_exists: bool,
    ) -> (r: Vec<String>)
        ensures
            parts_view(r@) == seq![
                "Font"@,
                if candidate_exists && localized_exists {
                    tomodachi_font_folder_name(lang)
                } else {
                    "Font.Nin_NX_NVN"@
                },
                "fcpx"@,
                without_bfcpx(base_name@) + ".bfcpx"@,
            ],
    {
        let mut file = String::from_str(strip_bfcpx_suffix(base_name));
        file.append(".bfcpx");
        let mut r = if candidate_exists {
            self.fcpx_folder_path(lang, localized_exists)
        } else {
            self.fcpx_folder_path(Language::USen, false)
        };
        let ghost before = r@;
        r.push(file);
        assert(parts_view(r@) =~= parts_view(before).push(file@));
        assert(parts_view(r@) =~= seq![
            "Font"@,
            if candidate_exists && localized_exists {
                tomodachi_font_folder_name(lang)
            } else {
                "Font.Nin_NX_NVN"@
            },
            "fcpx"@,
            without_bfcpx(base_name@) + ".bfcpx"@,
        ]);
        r
    }
}

/// Whether a file with extension `ext` is a scalable font: TrueType or OpenType, plain
/// or in the game's wrapping, in any letter case.
pub open spec fn is_scalable_font_ext(ext: Seq<char>) -> bool {
    let e = lowercase(ext);
    e == "ttf"@ || e == "otf"@ || e == "bfttf"@ || e == "bfotf"@
}

/// Whether a file with extension `ext` is listed as a scalable font.
pub fn is_scalable_font_extension(ext: &str) -> (r: bool)
    ensures
        r == is_scalable_font_ext(ext@),
{
    let e = to_lowercase(ext);
    e == String::from_str("ttf") || e == String::from_str("otf") || e == String::from_str("bfttf") || e
        == String::from_str("bfotf")
}


/// The `.bfcpx` file looked for first carries the language's code only for the
/// languages with their own glyph sets: for Simplified Chinese, Traditional Chinese and
/// Korean it is the base name without `.bfcpx`, then `_`, the code (`CNzh`, `TWzh`,
/// `KRko`) and `.bfcpx`; for every other language it is the plain name.
pub proof fn law_localized_fcpx_names(base_name: Seq<char>, lang: Language)
    ensures
        acnh_localized_fcpx_name(base_name, Language::CNzh) == without_bfcpx(base_name) + "_"@ + "CNzh"@ + ".bfcpx"@,
        acnh_localized_fcpx_name(base_name, Language::TWzh) == without_bfcpx(base_name) + "_"@ + "TWzh"@ + ".bfcpx"@,
        acnh_localized_fcpx_name(base_name, Language::KRko) == without_bfcpx(base_name) + "_"@ + "KRko"@ + ".bfcpx"@,
        lang != Language::CNzh && lang != Language::TWzh && lang != Language::KRko ==> acnh_localized_fcpx_name(
            base_name,
            lang,
        ) == without_bfcpx(base_name) + ".bfcpx"@,
{
}


/// A language's code is four letters, the first two naming its region, and no two
/// languages share a code.
pub proof fn law_language_codes(a: Language, b: Language)
    ensures
        code_of(a).len() == 4,
        code_of(a).subrange(0, 2) == region_of(a),
        a != b ==> code_of(a) != code_of(b),
{
    reveal_strlit("USen");
    reveal_strlit("EUen");
    reveal_strlit("JPja");
    reveal_strlit("CNzh");
    reveal_strlit("TWzh");
    reveal_strlit("KRko");
    reveal_strlit("EUfr");
    reveal_strlit("USfr");
    reveal_strlit("EUde");
    reveal_strlit("EUes");
    reveal_strlit("USes");
    reveal_strlit("EUit");
    reveal_strlit("EUnl");
    reveal_strlit("EUru");
    reveal_strlit("US");
    reveal_strlit("EU");
    reveal_strlit("JP");
    reveal_strlit("CN");
    reveal_strlit("TW");
    reveal_strlit("KR");
    assert(code_of(a).subrange(0, 2) =~= region_of(a));
    if a != b {
        assert(code_of(a)[2] != code_of(b)[2] || code_of(a)[3] != code_of(b)[3] || code_of(a)[0] != code_of(b)[0]
            || code_of(a)[1] != code_of(b)[1]);
    }
}

/// Taking `.bfcpx` off a name that ends in it gives the name before it, and a name
/// without it is kept whole; so a name is looked up with `.bfcpx` once, whether or not
/// it was given with it.
pub proof fn law_bfcpx_suffix_taken_once(name: Seq<char>)
    ensures
        without_bfcpx(name + ".bfcpx"@) == name,
        without_bfcpx(without_bfcpx(name) + ".bfcpx"@) + ".bfcpx"@ == without_bfcpx(name) + ".bfcpx"@,
{
    reveal_strlit(".bfcpx");
    let t = name + ".bfcpx"@;
    assert(t.subrange(t.len() - 6, t.len() as int) =~= ".bfcpx"@);
    assert(t.subrange(0, t.len() - 6) =~= name);
    let w = without_bfcpx(name);
    let u = w + ".bfcpx"@;
    assert(u.subrange(u.len() - 6, u.len() as int) =~= ".bfcpx"@);
    assert(u.subrange(0, u.len() - 6) =~= w);
}

} // verus!
