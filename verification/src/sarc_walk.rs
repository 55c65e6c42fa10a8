//! Searching archives for layout packages: the decisions taken at each level of nested
//! SARC archives, and the first step into a file's bytes.
//!
//! Parsing a SARC archive into its entries is the archive reader's work; the functions
//! here take its result and say which entries are packages, which are archives to
//! descend into, and in what order.

use vstd::prelude::*;

use crate::compression::{unwrap_compression, unwrapped, UnwrappedError, MAX_RECURSION_DEPTH};
use crate::labels::{decimal, decimal_string, hex_digits, hex_string};
use crate::magic::{magic_kind_of, peek_magic_kind, MagicKind};
use crate::archive::strings_view;

verus! {

/// One entry of a parsed SARC archive: its name where the archive stores names, the
/// hash of its name, and its bytes.
pub struct SarcFileEntry {
    pub name: Option<String>,
    pub hash: u32,
    pub data: Vec<u8>,
}

pub struct SarcFileView {
    pub name: Option<Seq<char>>,
    pub hash: u32,
    pub data: Seq<u8>,
}

impl View for SarcFileEntry {
    type V = SarcFileView;

    open spec fn view(&self) -> SarcFileView {
        SarcFileView {
            name: match self.name {
                Some(n) => Some(n@),
                None => None,
            },
            hash: self.hash,
            data: self.data@,
        }
    }
}

pub open spec fn files_view(files: Seq<SarcFileEntry>) -> Seq<SarcFileView> {
    files.map_values(|f: SarcFileEntry| f@)
}

/// Where a layout package sits: the positions of the nested archives that lead to the
/// archive holding it, its position there, its name hash, the archive's hash multiplier
/// (zero for a file that is itself a layout), and the names of the entries on the way.
pub struct PackageLocation {
    pub nested_path: Vec<usize>,
    pub file_idx: usize,
    pub hash: u32,
    pub hash_multiplier: u32,
    pub labels: Vec<String>,
}

pub struct PackageView {
    pub nested_path: Seq<usize>,
    pub file_idx: usize,
    pub hash: u32,
    pub hash_multiplier: u32,
    pub labels: Seq<Seq<char>>,
}

impl View for PackageLocation {
    type V = PackageView;

    open spec fn view(&self) -> PackageView {
        PackageView {
            nested_path: self.nested_path@,
            file_idx: self.file_idx,
            hash: self.hash,
            hash_multiplier: self.hash_multiplier,
            labels: strings_view(self.labels@),
        }
    }
}

/// What to do with one entry of an archive, in the order of the entries.
pub enum WalkStep {
    /// The entry is a layout package.
    Package(PackageLocation),
    /// The entry is itself an archive (once decompressed): search `data` one level
    /// deeper, with `index` and `label` appended to the path.
    Descend { index: usize, label: String, data: Vec<u8> },
}

pub enum StepView {
    Package(PackageView),
    Descend { index: usize, label: Seq<char>, data: Seq<u8> },
}

impl View for WalkStep {
    type V = StepView;

    open spec fn view(&self) -> StepView {
        match self {
            WalkStep::Package(p) => StepView::Package(p@),
            WalkStep::Descend { index, label, data } => StepView::Descend {
                index: *index,
                label: label@,
                data: data@,
            },
        }
    }
}

pub open spec fn steps_view(steps: Seq<WalkStep>) -> Seq<StepView> {
    steps.map_values(|s: WalkStep| s@)
}

/// The bytes to look at for data found at nesting `depth`: with one compression layer
/// removed, the data itself where it is not compressed, nothing where removal failed.
pub open spec fn unwrapped_or_raw(data: Seq<u8>, depth: u32) -> Option<Seq<u8>> {
    match unwrapped(data, depth) {
        Ok(v) => Some(v),
        Err(UnwrappedError::DataAlreadyUncompressed) => Some(data),
        Err(_) => None,
    }
}

/// The label of the entry at `index`: its name, or `#index (0xHASH)` with the hash in
/// eight upper-case hexadecimal digits where the archive stores no name.
pub open spec fn entry_label(name: Option<Seq<char>>, index: nat, hash: u32) -> Seq<char> {
    match name {
        Some(n) => n,
        None => "#"@ + decimal(index) + " (0x"@ + hex_digits(hash as nat, 8) + ")"@,
    }
}

/// What becomes of the entry `f` at `index` of an archive found at nesting `depth`.
pub open spec fn step_for(
    f: SarcFileView,
    index: nat,
    hash_multiplier: u32,
    depth: u32,
    nested_path: Seq<usize>,
    labels: Seq<Seq<char>>,
) -> Option<StepView> {
    match unwrapped_or_raw(f.data, (depth + 1) as u32) {
        None => None,
        Some(d) => {
            let label = entry_label(f.name, index, f.hash);
            if magic_kind_of(d) == MagicKind::Bflyt {
                Some(
                    StepView::Package(
                        PackageView {
                            nested_path,
                            file_idx: index as usize,
                            hash: f.hash,
                            hash_multiplier,
                            labels: labels.push(label),
                        },
                    ),
                )
            } else if magic_kind_of(d) == MagicKind::Sarc {
                Some(StepView::Descend { index: index as usize, label, data: d })
            } else {
                None
            }
        },
    }
}

/// The steps for the first `n` entries of an archive.
pub open spec fn steps_upto(
    files: Seq<SarcFileView>,
    n: nat,
    hash_multiplier: u32,
    depth: u32,
    nested_path: Seq<usize>,
    labels: Seq<Seq<char>>,
) -> Seq<StepView>
    decreases n,
{
    if n == 0 {
        Seq::empty()
    } else {
        let prev = steps_upto(files, (n - 1) as nat, hash_multiplier, depth, nested_path, labels);
        match step_for(files[n - 1], (n - 1) as nat, hash_multiplier, depth, nested_path, labels) {
            Some(s) => prev.push(s),
            None => prev,
        }
    }
}

/// The steps for an archive found at nesting `depth`: none at `MAX_RECURSION_DEPTH`
/// or deeper, otherwise one for each entry that is a package or an archive.
pub open spec fn sarc_level_steps(
    files: Seq<SarcFileView>,
    hash_multiplier: u32,
    depth: u32,
    nested_path: Seq<usize>,
    labels: Seq<Seq<char>>,
) -> Seq<StepView> {
    if depth >= MAX_RECURSION_DEPTH {
        Seq::empty()
    } else {
        steps_upto(files, files.len(), hash_multiplier, depth, nested_path, labels)
    }
}

/// Removes one compression layer from data found at nesting `depth`, keeps data that
/// is not compressed, and gives `None` where a layer could not be removed.
pub fn unwrap_or_keep(data: Vec<u8>, depth: u32) -> (r: Option<Vec<u8>>)
    ensures
        match r {
            Some(v) => unwrapped_or_raw(data@, depth) == Some(v@),
            None => unwrapped_or_raw(data@, depth) is None,
        },
{
    match unwrap_compression(data.as_slice(), depth) {
        Ok(v) => Some(v),
        Err(UnwrappedError::DataAlreadyUncompressed) => Some(data),
        Err(_) => None,
    }
}

/// The label of the entry at `index`.
pub fn entry_label_string(name: &Option<String>, index: usize, hash: u32) -> (r: String)
    ensures
        r@ == entry_label(
            match name {
                Some(n) => Some(n@),
                None => None,
            },
            index as nat,
            hash,
        ),
{
    match name {
        Some(n) => n.clone(),
        None => {
            let mut s = String::from_str("#");
            let d = decimal_string(index);
            s.append(d.as_str());
            s.append(" (0x");
            let h = hex_string(hash, 8);
            s.append(h.as_str());
            s.append(")");
            s
        },
    }
}

fn copy_path(v: &Vec<usize>) -> (r: Vec<usize>)
    ensures
        r@ == v@,
{
    let mut r: Vec<usize> = Vec::new();
    let mut i: usize = 0;
    while i < v.len()
        invariant
            i <= v.len(),
            r@ == v@.take(i as int),
        decreases v.len() - i,
    {
        r.push(v[i]);
        assert(v@.take(i + 1) =~= v@.take(i as int).push(v@[i as int]));
        i = i + 1;
    }
    assert(v@.take(v.len() as int) =~= v@);
    r
}

fn copy_labels(v: &Vec<String>) -> (r: Vec<String>)
    ensures
        strings_view(r@) == strings_view(v@),
{
    let mut r: Vec<String> = Vec::new();
    let mut i: usize = 0;
    while i < v.len()
        invariant
            i <= v.len(),
            strings_view(r@) == strings_view(v@).take(i as int),
        decreases v.len() - i,
    {
        let ghost before = r@;
        let c = v[i].clone();
        r.push(c);
        assert(r@ =~= before.push(v@[i as int]));
        assert(strings_view(r@) =~= strings_view(before).push(v@[i as int]@));
        assert(strings_view(r@) =~= strings_view(v@).take(i + 1));
        i = i + 1;
    }
    assert(strings_view(v@).take(v.len() as int) =~= strings_view(v@));
    r
}

/// The step for the entry `f` at `index`.
fn step_for_entry(
    f: &SarcFileEntry,
    index: usize,
    hash_multiplier: u32,
    depth: u32,
    nested_path: &Vec<usize>,
    labels: &Vec<String>,
) -> (r: Option<WalkStep>)
    requires
        depth < MAX_RECURSION_DEPTH,
    ensures
        match r {
            Some(s) => step_for(f@, index as nat, hash_multiplier, depth, nested_path@, strings_view(labels@)) == Some(s@),
            None => step_for(f@, index as nat, hash_multiplier, depth, nested_path@, strings_view(labels@)) is None,
        },
{
    let data = match unwrap_or_keep(f.data.clone(), depth + 1) {
        Some(d) => d,
        None => {
            return None;
        },
    };
    let label = entry_label_string(&f.name, index, f.hash);
    let kind = peek_magic_kind(data.as_slice());
    match kind {
        MagicKind::Bflyt => {
            let mut final_labels = copy_labels(labels);
            final_labels.push(label);
            proof {
                assert(strings_view(final_labels@) =~= strings_view(labels@).push(label@));
            }
            Some(
                WalkStep::Package(
                    PackageLocation {
                        nested_path: copy_path(nested_path),
                        file_idx: index,
                        hash: f.hash,
                        hash_multiplier,
                        labels: final_labels,
                    },
                ),
            )
        },
        MagicKind::Sarc => Some(WalkStep::Descend { index, label, data }),
        _ => None,
    }
}

/// The steps for the entries of an archive found at nesting `depth`, reached through
/// `nested_path` and `labels`, in the order of the entries. Each entry loses one
/// compression layer first; those that fail to decompress are skipped, as are all
/// entries of an archive at `MAX_RECURSION_DEPTH` or deeper.
pub fn walk_sarc_level(
    files: &Vec<SarcFileEntry>,
    hash_multiplier: u32,
    depth: u32,
    nested_path: &Vec<usize>,
    labels: &Vec<String>,
) -> (steps: Vec<WalkStep>)
    ensures
        steps_view(steps@) == sarc_level_steps(
            files_view(files@),
            hash_multiplier,
            depth,
            nested_path@,
            strings_view(labels@),
        ),
{
    let mut steps: Vec<WalkStep> = Vec::new();
    if depth >= MAX_RECURSION_DEPTH {
        assert(steps_view(steps@) =~= Seq::<StepView>::empty());
        return steps;
    }
    let ghost fv = files_view(files@);
    let mut i: usize = 0;
    while i < files.len()
        invariant
            i <= files.len(),
            depth < MAX_RECURSION_DEPTH,
            fv == files_view(files@),
            steps_view(steps@) == steps_upto(
                fv,
                i as nat,
                hash_multiplier,
                depth,
                nested_path@,
                strings_view(labels@),
            ),
        decreases files.len() - i,
    {
        let step = step_for_entry(&files[i], i, hash_multiplier, depth, nested_path, labels);
        assert(fv[i as int] == files@[i as int]@);
        let ghost before = steps@;
        match step {
            Some(s) => {
                steps.push(s);
                assert(steps_view(steps@) =~= steps_view(before).push(s@));
            },
            None => {},
        }
        i = i + 1;
    }
    steps
}


/// Where a search of a file's bytes goes after its first step.
pub enum PackageSearch {
    /// The search is over with these packages.
    Found(Vec<PackageLocation>),
    /// The bytes, with their compression removed, are to be searched as an archive.
    Walk(Vec<u8>),
}

pub enum PackageSearchView {
    Found(Seq<PackageView>),
    Walk(Seq<u8>),
}

pub open spec fn packages_view(p: Seq<PackageLocation>) -> Seq<PackageView> {
    p.map_values(|l: PackageLocation| l@)
}

impl View for PackageSearch {
    type V = PackageSearchView;

    open spec fn view(&self) -> PackageSearchView {
        match self {
            PackageSearch::Found(p) => PackageSearchView::Found(packages_view(p@)),
            PackageSearch::Walk(d) => PackageSearchView::Walk(d@),
        }
    }
}

/// The location of a file that is itself a layout.
pub open spec fn whole_file_package() -> PackageView {
    PackageView {
        nested_path: Seq::empty(),
        file_idx: 0,
        hash: 0,
        hash_multiplier: 0,
        labels: Seq::empty(),
    }
}

/// The first step of a search of a file's bytes: a file whose compression cannot be
/// removed holds nothing; a layout file is one package; anything else is searched as
/// an archive.
pub open spec fn search_start(bytes: Seq<u8>) -> PackageSearchView {
    match unwrapped_or_raw(bytes, 0) {
        None => PackageSearchView::Found(Seq::empty()),
        Some(d) => if magic_kind_of(d) == MagicKind::Bflyt {
            PackageSearchView::Found(seq![whole_file_package()])
        } else {
            PackageSearchView::Walk(d)
        },
    }
}

/// Takes the first step of a search of a file's bytes for layout packages.
pub fn start_package_search(bytes: Vec<u8>) -> (r: PackageSearch)
    ensures
        r@ == search_start(bytes@),
{
    match unwrap_or_keep(bytes, 0) {
        None => {
            let v: Vec<PackageLocation> = Vec::new();
            assert(packages_view(v@) =~= Seq::<PackageView>::empty());
            PackageSearch::Found(v)
        },
        Some(d) => {
            if peek_magic_kind(d.as_slice()) == MagicKind::Bflyt {
                let mut v: Vec<PackageLocation> = Vec::new();
                let p = PackageLocation {
                    nested_path: Vec::new(),
                    file_idx: 0,
                    hash: 0,
                    hash_multiplier: 0,
                    labels: Vec::new(),
                };
                assert(p@.labels =~= Seq::<Seq<char>>::empty());
                assert(p@ == whole_file_package());
                v.push(p);
                assert(packages_view(v@) =~= seq![whole_file_package()]);
                PackageSearch::Found(v)
            } else {
                PackageSearch::Walk(d)
            }
        },
    }
}

/// The bytes of the entry at `idx` of a parsed archive, on the way to a package
/// chosen by its nested path: with one compression layer removed, or as they are where
/// not compressed; `None` where there is no such entry or its layer cannot be removed.
pub fn select_nested_child(files: Vec<SarcFileEntry>, idx: usize) -> (r: Option<Vec<u8>>)
    ensures
        idx >= files@.len() ==> r is None,
        idx < files@.len() ==> match r {
            Some(v) => unwrapped_or_raw(files@[idx as int].data@, 0) == Some(v@),
            None => unwrapped_or_raw(files@[idx as int].data@, 0) is None,
        },
{
    if idx >= files.len() {
        return None;
    }
    let mut files = files;
    let child = files.remove(idx);
    unwrap_or_keep(child.data, 0)
}

/// Whether a file whose first bytes are `header` is worth scanning: a layout, an
/// archive, or Yaz0 or Zstandard data.
pub fn is_scan_candidate(header: &[u8]) -> (r: bool)
    ensures
        r == (magic_kind_of(header@) == MagicKind::Bflyt || magic_kind_of(header@) == MagicKind::Sarc
            || magic_kind_of(header@) == MagicKind::Yaz0 || magic_kind_of(header@) == MagicKind::Zstd),
{
    match peek_magic_kind(header) {
        MagicKind::Bflyt | MagicKind::Sarc | MagicKind::Yaz0 | MagicKind::Zstd => true,
        _ => false,
    }
}


/// The position, in its archive, of the entry a step is for.
pub open spec fn step_entry(s: StepView) -> usize {
    match s {
        StepView::Package(p) => p.file_idx,
        StepView::Descend { index, .. } => index,
    }
}

/// What every step of a walk says of the entry it is for: the entry is one of the
/// archive's, and a step for a named entry carries that name as its label (the last
/// label of a package, the label of a nested archive); a step for an unnamed entry
/// carries a label starting with `#`. A package is an entry that, with one compression
/// layer removed where it has one, is a layout; it keeps the path and labels of the way
/// to it, the entry's hash and the archive's hash multiplier. A nested archive is an
/// entry that, so unwrapped, is an archive, and its data are the unwrapped bytes.
pub open spec fn step_describes_entry(
    s: StepView,
    files: Seq<SarcFileView>,
    hash_multiplier: u32,
    depth: u32,
    nested_path: Seq<usize>,
    labels: Seq<Seq<char>>,
) -> bool {
    let i = step_entry(s) as int;
    &&& 0 <= i < files.len()
    &&& unwrapped_or_raw(files[i].data, (depth + 1) as u32) is Some
    &&& match s {
        StepView::Descend { label, data, .. } => {
            &&& unwrapped_or_raw(files[i].data, (depth + 1) as u32) == Some(data)
            &&& magic_kind_of(data) == MagicKind::Sarc
            &&& match files[i].name {
                Some(n) => label == n,
                None => label.len() > 0 && label[0] == '#',
            }
        },
        StepView::Package(p) => {
            &&& magic_kind_of(unwrapped_or_raw(files[i].data, (depth + 1) as u32)->0) == MagicKind::Bflyt
            &&& p.nested_path == nested_path
            &&& p.hash == files[i].hash
            &&& p.hash_multiplier == hash_multiplier
            &&& p.labels.len() == labels.len() + 1
            &&& p.labels.drop_last() == labels
            &&& match files[i].name {
                Some(n) => p.labels.last() == n,
                None => p.labels.last().len() > 0 && p.labels.last()[0] == '#',
            }
        },
    }
}

/// The entry at `i`, with one compression layer removed where it has one, is a layout
/// or an archive.
pub open spec fn entry_walked(files: Seq<SarcFileView>, i: int, depth: u32) -> bool {
    unwrapped_or_raw(files[i].data, (depth + 1) as u32) matches Some(d) && (magic_kind_of(d) == MagicKind::Bflyt
        || magic_kind_of(d) == MagicKind::Sarc)
}

proof fn lemma_unnamed_label_mark(index: nat, hash: u32)
    ensures
        entry_label(None, index, hash).len() > 0,
        entry_label(None, index, hash)[0] == '#',
{
    reveal_strlit("#");
    let rest = decimal(index) + " (0x"@ + hex_digits(hash as nat, 8) + ")"@;
    assert(entry_label(None, index, hash) =~= "#"@ + rest);
}

proof fn lemma_steps_upto_describe(
    files: Seq<SarcFileView>,
    n: nat,
    hash_multiplier: u32,
    depth: u32,
    nested_path: Seq<usize>,
    labels: Seq<Seq<char>>,
)
    requires
        n <= files.len(),
        files.len() <= usize::MAX,
    ensures
        forall|j: int| 0 <= j < steps_upto(files, n, hash_multiplier, depth, nested_path, labels).len() ==> {
            let s = #[trigger] steps_upto(files, n, hash_multiplier, depth, nested_path, labels)[j];
            &&& step_describes_entry(s, files, hash_multiplier, depth, nested_path, labels)
            &&& step_entry(s) < n
        },
        forall|j: int, k: int| 0 <= j < k < steps_upto(files, n, hash_multiplier, depth, nested_path, labels).len() ==>
            step_entry(#[trigger] steps_upto(files, n, hash_multiplier, depth, nested_path, labels)[j])
                < step_entry(#[trigger] steps_upto(files, n, hash_multiplier, depth, nested_path, labels)[k]),
        forall|i: int| 0 <= i < n && #[trigger] entry_walked(files, i, depth) ==> exists|j: int|
            0 <= j < steps_upto(files, n, hash_multiplier, depth, nested_path, labels).len() && step_entry(
                #[trigger] steps_upto(files, n, hash_multiplier, depth, nested_path, labels)[j],
            ) == i,
    decreases n,
{
    if n > 0 {
        let m = (n - 1) as nat;
        lemma_steps_upto_describe(files, m, hash_multiplier, depth, nested_path, labels);
        let prev = steps_upto(files, m, hash_multiplier, depth, nested_path, labels);
        let cur = steps_upto(files, n, hash_multiplier, depth, nested_path, labels);
        match step_for(files[m as int], m, hash_multiplier, depth, nested_path, labels) {
            Some(st) => {
                assert(cur == prev.push(st));
                lemma_unnamed_label_mark(m, files[m as int].hash);
                assert(step_entry(st) == m);
                assert(step_describes_entry(st, files, hash_multiplier, depth, nested_path, labels)) by {
                    match st {
                        StepView::Package(p) => {
                            assert(p.labels.drop_last() =~= labels);
                        },
                        StepView::Descend { .. } => {},
                    }
                }
                assert forall|j: int| 0 <= j < cur.len() implies {
                    let s = #[trigger] cur[j];
                    &&& step_describes_entry(s, files, hash_multiplier, depth, nested_path, labels)
                    &&& step_entry(s) < n
                } by {
                    if j < prev.len() {
                        assert(cur[j] == prev[j]);
                    }
                }
                assert forall|j: int, k: int| 0 <= j < k < cur.len() implies step_entry(#[trigger] cur[j])
                    < step_entry(#[trigger] cur[k]) by {
                    assert(cur[j] == prev[j]);
                    if k < prev.len() {
                        assert(cur[k] == prev[k]);
                    }
                }
                assert forall|i: int| 0 <= i < n && #[trigger] entry_walked(files, i, depth) implies exists|j: int|
                    0 <= j < cur.len() && step_entry(#[trigger] cur[j]) == i by {
                    if i < m {
                        let j = choose|j: int| 0 <= j < prev.len() && step_entry(#[trigger] prev[j]) == i;
                        assert(cur[j] == prev[j]);
                    } else {
                        assert(cur[prev.len() as int] == st);
                    }
                }
            },
            None => {
                assert(cur == prev);
                assert(!entry_walked(files, m as int, depth));
            },
        }
    }
}

/// Every step a walk of an archive level gives describes its entry as
/// `step_describes_entry` says: named entries keep their names as labels, whether
/// they are packages or nested archives. The steps follow the order of the entries,
/// each entry giving at most one, and below `MAX_RECURSION_DEPTH` every entry that is
/// a layout or an archive, once unwrapped, gives one.
pub proof fn law_walk_steps_carry_entry_names(
    files: Seq<SarcFileView>,
    hash_multiplier: u32,
    depth: u32,
    nested_path: Seq<usize>,
    labels: Seq<Seq<char>>,
)
    requires
        files.len() <= usize::MAX,
    ensures
        forall|j: int| 0 <= j < sarc_level_steps(files, hash_multiplier, depth, nested_path, labels).len()
            ==> step_describes_entry(
            #[trigger] sarc_level_steps(files, hash_multiplier, depth, nested_path, labels)[j],
            files,
            hash_multiplier,
            depth,
            nested_path,
            labels,
        ),
        forall|j: int, k: int| 0 <= j < k < sarc_level_steps(files, hash_multiplier, depth, nested_path, labels).len()
            ==> step_entry(#[trigger] sarc_level_steps(files, hash_multiplier, depth, nested_path, labels)[j])
            < step_entry(#[trigger] sarc_level_steps(files, hash_multiplier, depth, nested_path, labels)[k]),
        depth < MAX_RECURSION_DEPTH ==> forall|i: int| 0 <= i < files.len() && #[trigger] entry_walked(files, i, depth)
            ==> exists|j: int|
            0 <= j < sarc_level_steps(files, hash_multiplier, depth, nested_path, labels).len() && step_entry(
                #[trigger] sarc_level_steps(files, hash_multiplier, depth, nested_path, labels)[j],
            ) == i,
        depth >= MAX_RECURSION_DEPTH ==> sarc_level_steps(files, hash_multiplier, depth, nested_path, labels).len() == 0,
{
    if depth < MAX_RECURSION_DEPTH {
        lemma_steps_upto_describe(files, files.len(), hash_multiplier, depth, nested_path, labels);
    }
}

} // verus!
