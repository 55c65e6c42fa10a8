//! Layout packages found inside archives: naming them, matching them to the layouts
//! that Parts panes ask for, and walking nested SARC archives for them.

use vstd::prelude::*;

use std::path::PathBuf;

use crate::compression::{unwrap_compression, unwrapped, UnwrappedError, MAX_RECURSION_DEPTH};
use crate::magic::{magic_kind_of, peek_magic_kind, MagicKind};
use crate::sarc_walk::PackageLocation;
use crate::text::{
    after_last, before_first, before_last, lowercase, str_after_last, str_before_first, str_before_last,
    to_lowercase,
};

verus! {

#[verifier::external_type_specification]
#[verifier::external_body]
pub struct ExPathBuf(std::path::PathBuf);

/// What `Path::file_stem` gives for the path written `path`: the last component's
/// name without its final extension, or `None` where the path has no file name.
pub uninterp spec fn file_stem_of(path: Seq<char>) -> Option<Seq<char>>;

/// Calls `Path::file_stem` on the path written `path`. Claimed: the outcome is
/// `file_stem_of(path)`, a function of the text alone for the platform the crate is
/// built for (its separator rules); which part of the text is the stem is not stated.
/// The stem of a UTF-8 path is UTF-8, so the conversion loses nothing.
#[verifier::external_body]
fn path_file_stem(path: &str) -> (r: Option<String>)
    ensures
        match r {
            Some(s) => file_stem_of(path@) == Some(s@),
            None => file_stem_of(path@) is None,
        },
{
    match std::path::Path::new(path).file_stem() {
        Some(s) => Some(s.to_string_lossy().to_string()),
        None => None,
    }
}

/// The text a package without an entry name is keyed by: its file's stem, or nothing.
pub open spec fn stem_or_empty(path: Seq<char>) -> Seq<char> {
    match file_stem_of(path) {
        Some(s) => s,
        None => Seq::empty(),
    }
}

/// The key a layout is known by: the last path component of its name, without its
/// extension, in lower case.
pub open spec fn layout_key_of(raw: Seq<char>) -> Seq<char> {
    lowercase(before_last(after_last(raw, '/'), '.'))
}

/// The key of a layout named `raw`: the last path component, without its extension,
/// in lower case.
pub fn layout_key_from_raw(raw: &str) -> (r: String)
    ensures
        r@ == layout_key_of(raw@),
{
    let filename = str_after_last(raw, '/');
    let stem = str_before_last(filename, '.');
    to_lowercase(stem)
}

/// A layout package found while scanning a folder of archives.
#[derive(Debug)]
pub struct ArchiveEntry {
    /// The file the package is in.
    pub path: String,
    /// The positions of the nested archives that lead from the file to the package.
    pub nested_path: Vec<usize>,
    pub display_name: String,
    pub file_idx: usize,
    pub hash: u32,
    pub hash_multiplier: u32,
    /// The name of the innermost SARC entry, used for matching a Parts pane's layout name.
    pub last_label: Option<String>,
}

impl ArchiveEntry {
    /// The key this package is matched by: that of its innermost entry's name, or of
    /// the file's stem where the package has no name.
    pub fn layout_key(&self) -> (r: String)
        ensures
            self.last_label matches Some(l) ==> r@ == layout_key_of(l@),
            self.last_label is None ==> r@ == layout_key_of(stem_or_empty(self.path@)),
    {
        let raw = match &self.last_label {
            Some(l) => l.clone(),
            None => match path_file_stem(self.path.as_str()) {
                Some(s) => s,
                None => String::new(),
            },
        };
        layout_key_from_raw(raw.as_str())
    }

    /// Whether this package is the layout a Parts pane asks for by `requested_name`:
    /// its key equals the lower-cased name, or, in an archive that hashes its names,
    /// its hash equals `blyt_hash`, the archive's hash of `blyt_file_name(requested_name)`.
    pub fn matches_layout_name(&self, requested_name: &str, blyt_hash: u32) -> (r: bool)
        ensures
            self.last_label matches Some(l) ==> r == (layout_key_of(l@) == lowercase(requested_name@)
                || (self.hash_multiplier != 0 && self.hash == blyt_hash)),
            self.last_label is None ==> r == (layout_key_of(stem_or_empty(self.path@)) == lowercase(
                requested_name@,
            ) || (self.hash_multiplier != 0 && self.hash == blyt_hash)),
    {
        let key = self.layout_key();
        let requested = to_lowercase(requested_name);
        if key.eq(&requested) {
            return true;
        }
        if self.hash_multiplier != 0 && self.hash == blyt_hash {
            return true;
        }
        false
    }
}

impl ArchiveEntry {
    /// The entry for a package found at `loc` in the file at `path`, whose file name is
    /// `raw_filename`: named for the browser by `display_name_of`, and matched by the
    /// name of the innermost entry on the way, where there is one.
    pub fn from_package(path: String, raw_filename: &str, loc: PackageLocation) -> (e: ArchiveEntry)
        ensures
            e.path@ == path@,
            e.nested_path@ == loc.nested_path@,
            e.display_name@ == display_name_of(raw_filename@, strings_view(loc.labels@)),
            e.file_idx == loc.file_idx,
            e.hash == loc.hash,
            e.hash_multiplier == loc.hash_multiplier,
            loc.labels@.len() == 0 ==> e.last_label is None,
            loc.labels@.len() > 0 ==> (e.last_label matches Some(l) && l@ == loc.labels@.last()@),
    {
        let display = display_name(raw_filename, &loc.labels);
        let n = loc.labels.len();
        let last_label = if n == 0 {
            None
        } else {
            Some(loc.labels[n - 1].clone())
        };
        ArchiveEntry {
            path,
            nested_path: loc.nested_path,
            display_name: display,
            file_idx: loc.file_idx,
            hash: loc.hash,
            hash_multiplier: loc.hash_multiplier,
            last_label,
        }
    }
}

/// The name under which an archive stores the layout `requested_name`.
pub fn blyt_file_name(requested_name: &str) -> (r: String)
    ensures
        r@ == "blyt/"@ + requested_name@ + ".bflyt"@,
{
    let mut s = String::from_str("blyt/");
    s.append(requested_name);
    s.append(".bflyt");
    s
}

/// The name of the archive file without any of its extensions.
pub fn container_name(raw_filename: &str) -> (r: String)
    ensures
        r@ == before_first(raw_filename@, '.'),
{
    String::from_str(str_before_first(raw_filename, '.'))
}

/// The last path component of an entry's name.
pub fn clean_label(label: &str) -> (r: String)
    ensures
        r@ == after_last(label@, '/'),
{
    String::from_str(str_after_last(label, '/'))
}

/// The parts joined with `sep` between them.
pub open spec fn joined(parts: Seq<Seq<char>>, sep: Seq<char>) -> Seq<char>
    decreases parts.len(),
{
    if parts.len() == 0 {
        Seq::empty()
    } else if parts.len() == 1 {
        parts[0]
    } else {
        joined(parts.drop_last(), sep) + sep + parts.last()
    }
}

/// How a package is shown in the archive browser: the archive's name, followed by
/// the last path component of each entry on the way to the package, all separated by " > ".
pub open spec fn display_name_of(raw_filename: Seq<char>, labels: Seq<Seq<char>>) -> Seq<char> {
    let container = before_first(raw_filename, '.');
    if labels.len() == 0 {
        container
    } else {
        container + " > "@ + joined(labels.map_values(|l: Seq<char>| after_last(l, '/')), " > "@)
    }
}

pub open spec fn strings_view(v: Seq<String>) -> Seq<Seq<char>> {
    v.map_values(|s: String| s@)
}

/// The name the archive browser shows for a package reached through `labels` in the
/// file `raw_filename`.
pub fn display_name(raw_filename: &str, labels: &Vec<String>) -> (r: String)
    ensures
        r@ == display_name_of(raw_filename@, strings_view(labels@)),
{
    let mut out = container_name(raw_filename);
    let n = labels.len();
    if n == 0 {
        return out;
    }
    let ghost container = out@;
    let ghost cleaned = strings_view(labels@).map_values(|l: Seq<char>| after_last(l, '/'));
    let mut joined_part = clean_label(labels[0].as_str());
    proof {
        assert(cleaned.take(1) =~= seq![cleaned[0]]);
        assert(joined(cleaned.take(1), " > "@) == cleaned[0]);
    }
    let mut i: usize = 1;
    while i < n
        invariant
            1 <= i <= n,
            n == labels@.len(),
            cleaned == strings_view(labels@).map_values(|l: Seq<char>| after_last(l, '/')),
            cleaned.len() == n,
            joined_part@ == joined(cleaned.take(i as int), " > "@),
        decreases n - i,
    {
        let piece = clean_label(labels[i].as_str());
        joined_part.append(" > ");
        joined_part.append(piece.as_str());
        proof {
            assert(cleaned.take(i + 1).drop_last() =~= cleaned.take(i as int));
            assert(cleaned.take(i + 1).last() == cleaned[i as int]);
        }
        i = i + 1;
    }
    proof {
        assert(cleaned.take(n as int) =~= cleaned);
    }
    out.append(" > ");
    out.append(joined_part.as_str());
    out
}

} // verus!
