//! The rows of the animation timeline: a header for each animated pane and, under an
//! expanded header, one track for each animated target.

use vstd::prelude::*;
use std::collections::HashSet;

use crate::labels::{decimal, decimal_string};
use crate::text::{trim_nul, trim_nul_str};

verus! {

broadcast use vstd::std_specs::hash::group_hash_axioms;

/// One animation entry of a pane or material, with what the timeline needs of it: a
/// standard entry lists the labels of its targets; other kinds have no curves to show.
pub enum AnimInfoSummary {
    Standard { target_labels: Vec<String> },
    Other,
}

/// What an animation animates under one name (a pane or a material).
pub struct AnimContent {
    pub name: String,
    pub infos: Vec<AnimInfoSummary>,
}

pub enum InfoView {
    Standard(Seq<Seq<char>>),
    Other,
}

pub struct ContentView {
    pub name: Seq<char>,
    pub infos: Seq<InfoView>,
}

impl View for AnimInfoSummary {
    type V = InfoView;

    open spec fn view(&self) -> InfoView {
        match self {
            AnimInfoSummary::Standard { target_labels } => InfoView::Standard(
                target_labels@.map_values(|s: String| s@),
            ),
            AnimInfoSummary::Other => InfoView::Other,
        }
    }
}

impl View for AnimContent {
    type V = ContentView;

    open spec fn view(&self) -> ContentView {
        ContentView { name: self.name@, infos: self.infos@.map_values(|i: AnimInfoSummary| i@) }
    }
}

pub open spec fn contents_view(cs: Seq<AnimContent>) -> Seq<ContentView> {
    cs.map_values(|c: AnimContent| c@)
}

/// One animated target: its label and where its curve sits in the animation.
pub struct TimelineTrack {
    pub label: String,
    pub content_idx: usize,
    pub info_idx: usize,
    pub target_idx: usize,
}

pub struct TrackView {
    pub label: Seq<char>,
    pub content_idx: usize,
    pub info_idx: usize,
    pub target_idx: usize,
}

impl View for TimelineTrack {
    type V = TrackView;

    open spec fn view(&self) -> TrackView {
        TrackView {
            label: self.label@,
            content_idx: self.content_idx,
            info_idx: self.info_idx,
            target_idx: self.target_idx,
        }
    }
}

pub open spec fn tracks_view(ts: Seq<TimelineTrack>) -> Seq<TrackView> {
    ts.map_values(|t: TimelineTrack| t@)
}

/// A key picked in the timeline: which track, which key.
pub struct SelectedKey {
    pub track: TimelineTrack,
    pub key_idx: usize,
}

/// A key being dragged: its track, the key, and the row the track is drawn in.
pub struct TimelineDrag {
    pub track: TimelineTrack,
    pub key_idx: usize,
    pub row: usize,
}

/// A row of the timeline.
pub enum TimelineRow {
    PaneHeader { content_idx: usize, label: String },
    Track(TimelineTrack),
}

pub enum RowView {
    PaneHeader { content_idx: usize, label: Seq<char> },
    Track(TrackView),
}

impl View for TimelineRow {
    type V = RowView;

    open spec fn view(&self) -> RowView {
        match self {
            TimelineRow::PaneHeader { content_idx, label } => RowView::PaneHeader {
                content_idx: *content_idx,
                label: label@,
            },
            TimelineRow::Track(t) => RowView::Track(t@),
        }
    }
}

pub open spec fn rows_view(rs: Seq<TimelineRow>) -> Seq<RowView> {
    rs.map_values(|r: TimelineRow| r@)
}

/// The tracks of the first `n` targets of the entry at `info_idx` of `content_idx`.
pub open spec fn target_tracks(labels: Seq<Seq<char>>, content_idx: usize, info_idx: usize, n: nat) -> Seq<TrackView>
    decreases n,
{
    if n == 0 {
        Seq::empty()
    } else {
        target_tracks(labels, content_idx, info_idx, (n - 1) as nat).push(
            TrackView { label: labels[n - 1], content_idx, info_idx, target_idx: (n - 1) as usize },
        )
    }
}

/// The tracks of the first `n` entries of the content at `content_idx`, entry by
/// entry, target by target.
pub open spec fn info_tracks(infos: Seq<InfoView>, content_idx: usize, n: nat) -> Seq<TrackView>
    decreases n,
{
    if n == 0 {
        Seq::empty()
    } else {
        let prev = info_tracks(infos, content_idx, (n - 1) as nat);
        match infos[n - 1] {
            InfoView::Standard(labels) => prev + target_tracks(labels, content_idx, (n - 1) as usize, labels.len()),
            InfoView::Other => prev,
        }
    }
}

pub open spec fn content_tracks(c: ContentView, content_idx: usize) -> Seq<TrackView> {
    info_tracks(c.infos, content_idx, c.infos.len())
}

/// Whether a content animates any target.
pub open spec fn has_targets(c: ContentView) -> bool {
    exists|i: int| 0 <= i < c.infos.len() && (#[trigger] c.infos[i] matches InfoView::Standard(l) && l.len() > 0)
}

/// The rows of the first `n` contents: a header for each content that animates a
/// target, followed, where the content is expanded, by its tracks.
pub open spec fn rows_upto(contents: Seq<ContentView>, expanded: Set<usize>, n: nat) -> Seq<RowView>
    decreases n,
{
    if n == 0 {
        Seq::empty()
    } else {
        let prev = rows_upto(contents, expanded, (n - 1) as nat);
        let c = contents[n - 1];
        let ci = (n - 1) as usize;
        if !has_targets(c) {
            prev
        } else if expanded.contains(ci) {
            prev.push(RowView::PaneHeader { content_idx: ci, label: trim_nul(c.name) }) + content_tracks(c, ci).map_values(
                |t: TrackView| RowView::Track(t),
            )
        } else {
            prev.push(RowView::PaneHeader { content_idx: ci, label: trim_nul(c.name) })
        }
    }
}

/// The tracks of the first `n` contents animating the pane called `target`.
pub open spec fn pane_tracks_upto(contents: Seq<ContentView>, target: Seq<char>, n: nat) -> Seq<TrackView>
    decreases n,
{
    if n == 0 {
        Seq::empty()
    } else {
        let prev = pane_tracks_upto(contents, target, (n - 1) as nat);
        if trim_nul(contents[n - 1].name) == target {
            prev + content_tracks(contents[n - 1], (n - 1) as usize)
        } else {
            prev
        }
    }
}

fn push_info_tracks(
    infos: &Vec<AnimInfoSummary>,
    content_idx: usize,
    out: &mut Vec<TimelineTrack>,
)
    ensures
        tracks_view(final(out)@) == tracks_view(old(out)@) + info_tracks(
            infos@.map_values(|i: AnimInfoSummary| i@),
            content_idx,
            infos@.len(),
        ),
{
    let ghost iv = infos@.map_values(|i: AnimInfoSummary| i@);
    let ghost start = tracks_view(out@);
    let mut i: usize = 0;
    while i < infos.len()
        invariant
            i <= infos@.len(),
            iv == infos@.map_values(|i: AnimInfoSummary| i@),
            tracks_view(out@) == start + info_tracks(iv, content_idx, i as nat),
        decreases infos.len() - i,
    {
        assert(iv[i as int] == infos@[i as int]@);
        match &infos[i] {
            AnimInfoSummary::Standard { target_labels } => {
                let ghost lv = target_labels@.map_values(|s: String| s@);
                let ghost mid = tracks_view(out@);
                let mut t: usize = 0;
                while t < target_labels.len()
                    invariant
                        t <= target_labels@.len(),
                        lv == target_labels@.map_values(|s: String| s@),
                        tracks_view(out@) == mid + target_tracks(lv, content_idx, i, t as nat),
                    decreases target_labels.len() - t,
                {
                    let ghost before = out@;
                    out.push(
                        TimelineTrack {
                            label: target_labels[t].clone(),
                            content_idx,
                            info_idx: i,
                            target_idx: t,
                        },
                    );
                    assert(tracks_view(out@) =~= tracks_view(before).push(out@.last()@));
                    assert(tracks_view(out@) =~= mid + target_tracks(lv, content_idx, i, (t + 1) as nat));
                    t = t + 1;
                }
                assert(tracks_view(out@) =~= start + info_tracks(iv, content_idx, (i + 1) as nat));
            },
            AnimInfoSummary::Other => {},
        }
        i = i + 1;
    }
}

fn content_has_targets(c: &AnimContent) -> (r: bool)
    ensures
        r == has_targets(c@),
{
    let mut i: usize = 0;
    while i < c.infos.len()
        invariant
            i <= c.infos@.len(),
            forall|j: int| 0 <= j < i ==> !(#[trigger] c@.infos[j] matches InfoView::Standard(l) && l.len() > 0),
        decreases c.infos.len() - i,
    {
        assert(c@.infos[i as int] == c.infos@[i as int]@);
        match &c.infos[i] {
            AnimInfoSummary::Standard { target_labels } => {
                if target_labels.len() > 0 {
                    assert(c@.infos[i as int] matches InfoView::Standard(l) && l.len() > 0);
                    return true;
                }
            },
            AnimInfoSummary::Other => {},
        }
        i = i + 1;
    }
    false
}

impl TimelineRow {
    /// The rows of the timeline for an animation's `contents`, with the contents whose
    /// positions are in `expanded` showing their tracks. See `rows_upto`.
    pub fn build(contents: &Vec<AnimContent>, expanded: &HashSet<usize>) -> (r: Vec<TimelineRow>)
        ensures
            rows_view(r@) == rows_upto(contents_view(contents@), expanded@, contents@.len()),
    {
        let ghost cv = contents_view(contents@);
        let mut out: Vec<TimelineRow> = Vec::new();
        let mut ci: usize = 0;
        while ci < contents.len()
            invariant
                ci <= contents@.len(),
                cv == contents_view(contents@),
                rows_view(out@) == rows_upto(cv, expanded@, ci as nat),
            decreases contents.len() - ci,
        {
            let content = &contents[ci];
            assert(cv[ci as int] == content@);
            if content_has_targets(content) {
                let ghost before = out@;
                out.push(TimelineRow::PaneHeader { content_idx: ci, label: trim_nul_str(content.name.as_str()) });
                assert(rows_view(out@) =~= rows_view(before).push(out@.last()@));
                if expanded.contains(&ci) {
                    let mut tracks: Vec<TimelineTrack> = Vec::new();
                    push_info_tracks(&content.infos, ci, &mut tracks);
                    assert(tracks_view(tracks@) =~= content_tracks(content@, ci));
                    let ghost mid = out@;
                    let mut k: usize = 0;
                    let n = tracks.len();
                    let mut rest = tracks;
                    while k < n
                        invariant
                            k <= n,
                            n == tracks_view(rest@).len() + k,
                            n == content_tracks(content@, ci).len(),
                            tracks_view(rest@) == content_tracks(content@, ci).skip(k as int),
                            rows_view(out@) == rows_view(mid) + content_tracks(content@, ci).take(k as int).map_values(
                                |t: TrackView| RowView::Track(t),
                            ),
                        decreases n - k,
                    {
                        let ghost rest_before = rest@;
                        let t = rest.remove(0);
                        let ghost ct = content_tracks(content@, ci);
                        assert(rest@ =~= rest_before.subrange(1, rest_before.len() as int));
                        assert(tracks_view(rest@) =~= tracks_view(rest_before).subrange(1, rest_before.len() as int));
                        assert(ct.skip(k as int)[0] == ct[k as int]);
                        assert(tracks_view(rest@) =~= ct.skip(k + 1));
                        let ghost b = out@;
                        out.push(TimelineRow::Track(t));
                        assert(rows_view(out@) =~= rows_view(b).push(RowView::Track(ct[k as int])));
                        assert(ct.take(k + 1).map_values(|t: TrackView| RowView::Track(t)) =~= ct.take(
                            k as int,
                        ).map_values(|t: TrackView| RowView::Track(t)).push(RowView::Track(ct[k as int])));
                        k = k + 1;
                    }
                    assert(content_tracks(content@, ci).take(k as int) =~= content_tracks(content@, ci));
                }
            }
            ci = ci + 1;
        }
        out
    }
}

/// The tracks animating the pane called `pane_label` (trailing NULs aside), content
/// by content, entry by entry, target by target.
pub fn collect_tracks_for_pane(contents: &Vec<AnimContent>, pane_label: &str) -> (r: Vec<TimelineTrack>)
    ensures
        tracks_view(r@) == pane_tracks_upto(contents_view(contents@), trim_nul(pane_label@), contents@.len()),
{
    let target = trim_nul_str(pane_label);
    let ghost cv = contents_view(contents@);
    let mut out: Vec<TimelineTrack> = Vec::new();
    let mut ci: usize = 0;
    while ci < contents.len()
        invariant
            ci <= contents@.len(),
            cv == contents_view(contents@),
            target@ == trim_nul(pane_label@),
            tracks_view(out@) == pane_tracks_upto(cv, target@, ci as nat),
        decreases contents.len() - ci,
    {
        let content = &contents[ci];
        assert(cv[ci as int] == content@);
        let name = trim_nul_str(content.name.as_str());
        if name == target {
            push_info_tracks(&content.infos, ci, &mut out);
        }
        ci = ci + 1;
    }
    out
}


/// What an animation target animates, by kind.
#[derive(Debug, Clone, Copy, PartialEq, Eq, Structural)]
pub enum TargetGroup {
    PaneSrt,
    VertexColor,
    MaterialColor,
    TextureSrt,
    TexturePattern,
    IndirectSrt,
    PerCharacterTransformCurve,
    PerCharacterTransform,
    DropShadow,
    MaskTexture,
    ProceduralShape,
    Window,
    FontShadow,
    BrickRepeat,
    /// A kind without a name of its own; the detail names the whole target.
    Other,
}

/// The name a kind of target is shown by.
pub open spec fn group_name(g: TargetGroup) -> Seq<char> {
    match g {
        TargetGroup::PaneSrt => "SRT"@,
        TargetGroup::VertexColor => "Vertex Color"@,
        TargetGroup::MaterialColor => "Material Color"@,
        TargetGroup::TextureSrt => "Texture SRT"@,
        TargetGroup::TexturePattern => "Texture Pattern"@,
        TargetGroup::IndirectSrt => "Indirect SRT"@,
        TargetGroup::PerCharacterTransformCurve => "Per Character Transform Curve"@,
        TargetGroup::PerCharacterTransform => "Per Character Transform"@,
        TargetGroup::DropShadow => "Drop Shadow"@,
        TargetGroup::MaskTexture => "Mask Texture"@,
        TargetGroup::ProceduralShape => "Procedural Shape"@,
        TargetGroup::Window => "Window"@,
        TargetGroup::FontShadow => "Font Shadow"@,
        TargetGroup::BrickRepeat => "Brick Repeat"@,
        TargetGroup::Other => Seq::empty(),
    }
}

fn group_name_str(g: TargetGroup) -> (r: &'static str)
    ensures
        r@ == group_name(g),
{
    match g {
        TargetGroup::PaneSrt => "SRT",
        TargetGroup::VertexColor => "Vertex Color",
        TargetGroup::MaterialColor => "Material Color",
        TargetGroup::TextureSrt => "Texture SRT",
        TargetGroup::TexturePattern => "Texture Pattern",
        TargetGroup::IndirectSrt => "Indirect SRT",
        TargetGroup::PerCharacterTransformCurve => "Per Character Transform Curve",
        TargetGroup::PerCharacterTransform => "Per Character Transform",
        TargetGroup::DropShadow => "Drop Shadow",
        TargetGroup::MaskTexture => "Mask Texture",
        TargetGroup::ProceduralShape => "Procedural Shape",
        TargetGroup::Window => "Window",
        TargetGroup::FontShadow => "Font Shadow",
        TargetGroup::BrickRepeat => "Brick Repeat",
        TargetGroup::Other => {
            let r = "";
            proof {
                reveal_strlit("");
            }
            r
        },
    }
}

/// How a target is labelled in the key inspector: its kind and detail (the detail
/// alone for a kind without a name), then the material layer where it is not the first.
pub open spec fn target_label_of(g: TargetGroup, detail: Seq<char>, layer: u8) -> Seq<char> {
    let base = if g == TargetGroup::Other { detail } else { group_name(g) + ", "@ + detail };
    if layer > 0 {
        base + " [Layer "@ + decimal(layer as nat) + "]"@
    } else {
        base
    }
}

/// The label of a target of kind `g` described by `detail`, on material layer `layer`.
pub fn target_index_label(g: TargetGroup, detail: &str, layer: u8) -> (r: String)
    ensures
        r@ == target_label_of(g, detail@, layer),
{
    let mut s = if g == TargetGroup::Other {
        String::from_str(detail)
    } else {
        let mut b = String::from_str(group_name_str(g));
        b.append(", ");
        b.append(detail);
        b
    };
    if layer > 0 {
        s.append(" [Layer ");
        let d = decimal_string(layer as usize);
        s.append(d.as_str());
        s.append("]");
    }
    s
}

} // verus!
