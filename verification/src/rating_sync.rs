//! Rating synchronisation: which star rating a photo group should carry, and
//! the plan that writes it into the RAW's XMP sidecar and the JPG metadata.

use vstd::prelude::*;
use crate::paths::{file_name, has_file_name, same_path, paths_equal, strip_extension, without_extension};
use crate::photo_groups::{PhotoAsset, PhotoIndex, RatingState};
use crate::safety::texts;
use crate::sorting::{Keyed, into_values, sort_keyed, values_of};
use crate::text::{chars_eq, chars_of, concat, forward_slash_string, forward_slashes};

verus! {

broadcast use vstd::seq_lib::group_to_multiset_ensures;

/// How to settle ratings that disagree.
#[derive(Debug, Clone, Copy, PartialEq, Eq, Structural)]
pub enum RatingConflictPolicy {
    Skip,
    FramePair,
    External,
    Highest,
}

#[derive(Debug, Clone, Copy, PartialEq, Eq, Structural)]
pub enum RatingResolution {
    Ready(u8),
    Conflict,
}

/// Which files a synchronisation writes.
#[derive(Debug, Clone, Copy, PartialEq, Eq, Structural)]
pub struct RatingSyncTargets {
    pub raw_xmp: bool,
    pub jpeg_metadata: bool,
}

#[derive(Debug, Clone, Copy, PartialEq, Eq, Structural)]
pub enum RatingSyncTarget {
    RawXmp,
    JpegMetadata,
}

#[derive(Debug, Clone, Copy, PartialEq, Eq, Structural)]
pub enum RatingSyncStatus {
    Ready,
    Unchanged,
    Conflict,
}

// ---------------------------------------------------------------------------
// Resolving a rating
// ---------------------------------------------------------------------------
/// An outside rating is usable when absent or between 0 and 5.
pub open spec fn valid_external(o: Option<i8>) -> bool {
    match o {
        Some(v) => 0 <= v <= 5,
        None => true,
    }
}

/// The outside rating as a one-star-or-more value, if it is one.
pub open spec fn positive(o: Option<i8>) -> Seq<u8> {
    match o {
        Some(v) => if 1 <= v <= 5 {
            seq![v as u8]
        } else {
            seq![]
        },
        None => seq![],
    }
}

/// The value all candidates agree on (0 when there is none).
pub open spec fn unanimous(c: Seq<u8>) -> RatingResolution {
    if c.len() == 0 {
        RatingResolution::Ready(0)
    } else if forall|i: int| 0 <= i < c.len() ==> #[trigger] c[i] == c[0] {
        RatingResolution::Ready(c[0])
    } else {
        RatingResolution::Conflict
    }
}

pub open spec fn first_or_zero(c: Seq<u8>) -> u8 {
    if c.len() > 0 {
        c[0]
    } else {
        0
    }
}

pub open spec fn max3(a: u8, b: u8, c: u8) -> u8 {
    let ab = if a >= b { a } else { b };
    if ab >= c {
        ab
    } else {
        c
    }
}

/// The rating a group resolves to under a policy.
pub open spec fn resolution(state: RatingState, has_issues: bool, policy: RatingConflictPolicy) -> RatingResolution {
    let j = state.jpeg_metadata;
    let x = state.raw_xmp;
    let fp = state.frame_pair;
    if has_issues || !valid_external(j) || !valid_external(x) {
        RatingResolution::Conflict
    } else {
        match policy {
            RatingConflictPolicy::FramePair => RatingResolution::Ready(fp),
            RatingConflictPolicy::External => {
                let c = positive(j) + positive(x);
                if c.len() == 0 {
                    if j == Some(0i8) || x == Some(0i8) {
                        RatingResolution::Ready(0)
                    } else {
                        RatingResolution::Ready(fp)
                    }
                } else {
                    unanimous(c)
                }
            },
            RatingConflictPolicy::Highest => RatingResolution::Ready(
                max3(first_or_zero(positive(j)), first_or_zero(positive(x)), fp),
            ),
            RatingConflictPolicy::Skip => unanimous(
                positive(j) + positive(x) + if 1 <= fp <= 5 {
                    seq![fp]
                } else {
                    seq![]
                },
            ),
        }
    }
}

fn push_positive(c: &mut Vec<u8>, o: Option<i8>)
    ensures
        final(c)@ == old(c)@ + positive(o),
{
    if let Some(v) = o {
        if 1 <= v && v <= 5 {
            c.push(v as u8);
            return;
        }
    }
    assert(old(c)@ + positive(o) =~= old(c)@);
}

fn unanimity(c: &Vec<u8>) -> (r: RatingResolution)
    ensures
        r == unanimous(c@),
{
    if c.len() == 0 {
        return RatingResolution::Ready(0);
    }
    let mut i: usize = 1;
    while i < c.len()
        invariant
            1 <= i <= c@.len(),
            forall|k: int| 0 <= k < i ==> #[trigger] c@[k] == c@[0],
        decreases c@.len() - i,
    {
        if c[i] != c[0] {
            return RatingResolution::Conflict;
        }
        i = i + 1;
    }
    RatingResolution::Ready(c[0])
}

/// Settles the rating of a photo group. Any recorded issue, or an outside
/// rating outside 0 to 5 (including the reject mark -1), is a conflict.
pub fn resolve_rating(state: &RatingState, issues: &Vec<String>, policy: RatingConflictPolicy) -> (r: RatingResolution)
    ensures
        r == resolution(*state, issues@.len() > 0, policy),
{
    let j = state.jpeg_metadata;
    let x = state.raw_xmp;
    let fp = state.frame_pair;
    let bad_j = match j {
        Some(v) => v < 0 || v > 5,
        None => false,
    };
    let bad_x = match x {
        Some(v) => v < 0 || v > 5,
        None => false,
    };
    if issues.len() > 0 || bad_j || bad_x {
        return RatingResolution::Conflict;
    }
    let mut c: Vec<u8> = Vec::new();
    push_positive(&mut c, j);
    push_positive(&mut c, x);
    assert(c@ =~= positive(j) + positive(x));
    match policy {
        RatingConflictPolicy::FramePair => RatingResolution::Ready(fp),
        RatingConflictPolicy::External => {
            if c.len() == 0 {
                if j == Some(0i8) || x == Some(0i8) {
                    RatingResolution::Ready(0)
                } else {
                    RatingResolution::Ready(fp)
                }
            } else {
                unanimity(&c)
            }
        },
        RatingConflictPolicy::Highest => {
            let mut pj: Vec<u8> = Vec::new();
            push_positive(&mut pj, j);
            let mut px: Vec<u8> = Vec::new();
            push_positive(&mut px, x);
            let a: u8 = if pj.len() > 0 { pj[0] } else { 0 };
            let b: u8 = if px.len() > 0 { px[0] } else { 0 };
            let ab = if a >= b { a } else { b };
            RatingResolution::Ready(if ab >= fp { ab } else { fp })
        },
        RatingConflictPolicy::Skip => {
            let ghost before = c@;
            if 1 <= fp && fp <= 5 {
                c.push(fp);
            }
            assert(c@ =~= before + if 1 <= fp <= 5 {
                seq![fp]
            } else {
                seq![]
            });
            unanimity(&c)
        },
    }
}

// ---------------------------------------------------------------------------
// Planning a synchronisation
// ---------------------------------------------------------------------------
/// What a target looked like when the plan was made.
#[derive(Debug, Clone, Copy, PartialEq, Eq, Structural)]
pub enum TargetSnapshot {
    Absent,
    Existing { size_bytes: u64, modified_ms: Option<u64> },
}

/// A synchronisation request as the interface sends it.
#[derive(Debug)]
pub struct RatingSyncPlanRequest {
    pub root: String,
    pub minimum_rating: u8,
    pub maximum_rating: u8,
    pub asset_ids: Vec<String>,
    pub targets: RatingSyncTargets,
    pub conflict_policy: RatingConflictPolicy,
    pub jpeg_write_confirmed: bool,
}

/// One write shown in a plan.
#[derive(Debug)]
pub struct RatingSyncWrite {
    pub target: RatingSyncTarget,
    pub relative_path: String,
    pub current_rating: Option<i8>,
    pub target_rating: u8,
}

#[derive(Debug)]
pub struct RatingSyncPlanItem {
    pub asset_id: String,
    pub relative_stem: String,
    pub frame_pair: u8,
    pub jpeg_metadata: Option<i8>,
    pub raw_xmp: Option<i8>,
    pub resolved: Option<u8>,
    pub status: RatingSyncStatus,
    pub writes: Vec<RatingSyncWrite>,
    pub issues: Vec<String>,
}

#[derive(Debug)]
pub struct RatingSyncPlanSummary {
    pub plan_id: String,
    pub root: String,
    pub total_items: usize,
    pub ready: usize,
    pub unchanged: usize,
    pub conflicts: usize,
    pub items: Vec<RatingSyncPlanItem>,
}

/// One write the plan authorises, with the state its target must still be in.
#[derive(Debug)]
pub struct PlannedRatingWrite {
    pub asset_id: String,
    pub target: RatingSyncTarget,
    pub relative_path: String,
    pub target_rating: u8,
    pub snapshot: TargetSnapshot,
}

#[derive(Debug)]
pub struct RatingSyncPlan {
    pub summary: RatingSyncPlanSummary,
    pub writes: Vec<PlannedRatingWrite>,
}

impl RatingSyncPlan {
    pub open spec fn summary_view(&self) -> RatingSyncPlanSummary {
        self.summary
    }

    pub fn summary(&self) -> (r: &RatingSyncPlanSummary)
        ensures
            *r == self.summary_view(),
    {
        &self.summary
    }
}

/// What the file system said of the two possible targets of one photo group
/// (see `raw_sync_target` and `jpeg_sync_target`); a target that is not
/// asked for is ignored.
#[derive(Debug)]
pub struct SyncProbe {
    pub raw: Result<TargetSnapshot, String>,
    pub jpeg: Result<TargetSnapshot, String>,
}

pub struct WriteView {
    pub target: RatingSyncTarget,
    pub relative_path: Seq<char>,
    pub current_rating: Option<i8>,
    pub target_rating: u8,
}

impl RatingSyncWrite {
    pub open spec fn view(&self) -> WriteView {
        WriteView {
            target: self.target,
            relative_path: self.relative_path@,
            current_rating: self.current_rating,
            target_rating: self.target_rating,
        }
    }
}

pub open spec fn write_views(s: Seq<RatingSyncWrite>) -> Seq<WriteView> {
    s.map_values(|w: RatingSyncWrite| w.view())
}

pub struct PlannedView {
    pub asset_id: Seq<char>,
    pub target: RatingSyncTarget,
    pub relative_path: Seq<char>,
    pub target_rating: u8,
    pub snapshot: TargetSnapshot,
}

impl PlannedRatingWrite {
    pub open spec fn view(&self) -> PlannedView {
        PlannedView {
            asset_id: self.asset_id@,
            target: self.target,
            relative_path: self.relative_path@,
            target_rating: self.target_rating,
            snapshot: self.snapshot,
        }
    }
}

pub open spec fn planned_views(s: Seq<PlannedRatingWrite>) -> Seq<PlannedView> {
    s.map_values(|w: PlannedRatingWrite| w.view())
}

pub struct SyncItemView {
    pub asset_id: Seq<char>,
    pub relative_stem: Seq<char>,
    pub frame_pair: u8,
    pub jpeg_metadata: Option<i8>,
    pub raw_xmp: Option<i8>,
    pub resolved: Option<u8>,
    pub status: RatingSyncStatus,
    pub writes: Seq<WriteView>,
    pub issues: Seq<Seq<char>>,
}

impl RatingSyncPlanItem {
    pub open spec fn view(&self) -> SyncItemView {
        SyncItemView {
            asset_id: self.asset_id@,
            relative_stem: self.relative_stem@,
            frame_pair: self.frame_pair,
            jpeg_metadata: self.jpeg_metadata,
            raw_xmp: self.raw_xmp,
            resolved: self.resolved,
            status: self.status,
            writes: write_views(self.writes@),
            issues: texts(self.issues@),
        }
    }
}

pub open spec fn item_views(s: Seq<RatingSyncPlanItem>) -> Seq<SyncItemView> {
    s.map_values(|i: RatingSyncPlanItem| i.view())
}

/// `path.with_extension("xmp")`.
pub open spec fn with_xmp_extension(s: Seq<char>) -> Seq<char> {
    if has_file_name(s) {
        without_extension(s) + ".xmp"@
    } else {
        s
    }
}

/// The XMP sidecar a RAW rating goes to: the group's only XMP, or a new one
/// beside the RAW.
pub open spec fn raw_sync_path(asset: PhotoAsset) -> Seq<char> {
    if asset.xmp_paths@.len() == 1 {
        asset.xmp_paths@[0]@
    } else {
        forward_slashes(with_xmp_extension(asset.relative_stem@))
    }
}

/// Issues, shown writes and authorised writes gathered for one photo group.
pub struct SyncOutcome {
    pub issues: Seq<Seq<char>>,
    pub writes: Seq<WriteView>,
    pub planned: Seq<PlannedView>,
}

pub open spec fn with_issue(o: SyncOutcome, issue: Seq<char>) -> SyncOutcome {
    SyncOutcome { issues: o.issues.push(issue), writes: o.writes, planned: o.planned }
}

pub open spec fn with_write(
    o: SyncOutcome,
    asset: PhotoAsset,
    target: RatingSyncTarget,
    path: Seq<char>,
    current: Option<i8>,
    rating: u8,
    snapshot: TargetSnapshot,
) -> SyncOutcome {
    SyncOutcome {
        issues: o.issues,
        writes: o.writes.push(WriteView { target, relative_path: path, current_rating: current, target_rating: rating }),
        planned: o.planned.push(PlannedView { asset_id: asset.id@, target, relative_path: path, target_rating: rating, snapshot }),
    }
}

/// Plans the RAW XMP write of a group.
pub open spec fn raw_step(asset: PhotoAsset, probe: Result<TargetSnapshot, String>, rating: u8, o: SyncOutcome) -> SyncOutcome {
    if asset.raw_paths@.len() == 0 {
        with_issue(o, "照片组没有 RAW，无法同步 RAW XMP"@)
    } else if asset.raw_paths@.len() > 1 {
        with_issue(o, "照片组包含多个 RAW，无法确定 XMP 写入对象"@)
    } else if asset.xmp_paths@.len() > 1 {
        with_issue(o, "照片组包含多个 XMP，无法确定写入目标"@)
    } else {
        match probe {
            Err(e) => with_issue(o, e@),
            Ok(s) => with_write(o, asset, RatingSyncTarget::RawXmp, raw_sync_path(asset), asset.rating_state.raw_xmp, rating, s),
        }
    }
}

/// Plans the JPG metadata write of a group.
pub open spec fn jpeg_step(asset: PhotoAsset, probe: Result<TargetSnapshot, String>, rating: u8, o: SyncOutcome) -> SyncOutcome {
    if asset.jpeg_paths@.len() == 0 {
        with_issue(o, "照片组没有 JPG，无法同步 JPG 元数据"@)
    } else if asset.jpeg_paths@.len() > 1 {
        with_issue(o, "照片组包含多个 JPG，无法确定元数据写入目标"@)
    } else {
        match probe {
            Err(e) => with_issue(o, e@),
            Ok(s) => with_write(o, asset, RatingSyncTarget::JpegMetadata, asset.jpeg_paths@[0]@, asset.rating_state.jpeg_metadata, rating, s),
        }
    }
}

/// Everything planned for one photo group, before its final status.
pub open spec fn asset_outcome(asset: PhotoAsset, probe: SyncProbe, request: RatingSyncPlanRequest) -> SyncOutcome {
    let base = SyncOutcome { issues: texts(asset.rating_issues@), writes: seq![], planned: seq![] };
    let initial = resolution(asset.rating_state, base.issues.len() > 0, request.conflict_policy);
    let rating = match initial {
        RatingResolution::Ready(r) => r,
        RatingResolution::Conflict => 0,
    };
    if initial is Conflict {
        base
    } else {
        let a = if request.targets.raw_xmp {
            raw_step(asset, probe.raw, rating, base)
        } else {
            base
        };
        if request.targets.jpeg_metadata {
            jpeg_step(asset, probe.jpeg, rating, a)
        } else {
            a
        }
    }
}

/// Every write already carries the rating (0 stars also when it carries none).
pub open spec fn writes_unchanged(writes: Seq<WriteView>, rating: u8) -> bool {
    forall|i: int|
        0 <= i < writes.len() ==> (#[trigger] writes[i]).current_rating == Some(rating as i8) || (rating == 0
            && writes[i].current_rating is None)
}

/// The plan item of one photo group.
pub open spec fn sync_item(asset: PhotoAsset, probe: SyncProbe, request: RatingSyncPlanRequest) -> SyncItemView {
    let o = asset_outcome(asset, probe, request);
    let res = resolution(asset.rating_state, o.issues.len() > 0, request.conflict_policy);
    SyncItemView {
        asset_id: asset.id@,
        relative_stem: asset.relative_stem@,
        frame_pair: asset.rating_state.frame_pair,
        jpeg_metadata: asset.rating_state.jpeg_metadata,
        raw_xmp: asset.rating_state.raw_xmp,
        resolved: match res {
            RatingResolution::Ready(r) => Some(r),
            RatingResolution::Conflict => None,
        },
        status: match res {
            RatingResolution::Conflict => RatingSyncStatus::Conflict,
            RatingResolution::Ready(r) => if writes_unchanged(o.writes, r) {
                RatingSyncStatus::Unchanged
            } else {
                RatingSyncStatus::Ready
            },
        },
        writes: o.writes,
        issues: if res is Conflict && o.issues.len() == 0 {
            seq!["评分来源不一致，当前冲突策略不会覆盖"@]
        } else {
            o.issues
        },
    }
}

/// The writes a group contributes to the plan: its planned writes when it is ready.
pub open spec fn sync_planned(asset: PhotoAsset, probe: SyncProbe, request: RatingSyncPlanRequest) -> Seq<PlannedView> {
    if sync_item(asset, probe, request).status == RatingSyncStatus::Ready {
        asset_outcome(asset, probe, request).planned
    } else {
        seq![]
    }
}

/// The XMP file a RAW rating is written to, and whether it exists already;
/// `None` unless the group has exactly one RAW and at most one XMP.
pub fn raw_sync_target(asset: &PhotoAsset) -> (r: Option<(String, bool)>)
    ensures
        r is Some <==> (asset.raw_paths@.len() == 1 && asset.xmp_paths@.len() <= 1),
        r matches Some((p, existing)) ==> p@ == raw_sync_path(*asset) && existing == (asset.xmp_paths@.len() == 1),
{
    if asset.raw_paths.len() != 1 || asset.xmp_paths.len() > 1 {
        return None;
    }
    if asset.xmp_paths.len() == 1 {
        Some((asset.xmp_paths[0].clone(), true))
    } else {
        let stem = asset.relative_stem.as_str();
        let base = match file_name(stem) {
            Some(_) => {
                let s = strip_extension(stem);
                concat(s.as_str(), ".xmp")
            },
            None => stem.to_owned(),
        };
        Some((forward_slash_string(base.as_str()), false))
    }
}

/// The JPG a rating is written to; `None` unless the group has exactly one JPG.
pub fn jpeg_sync_target(asset: &PhotoAsset) -> (r: Option<String>)
    ensures
        r is Some <==> asset.jpeg_paths@.len() == 1,
        r matches Some(p) ==> p@ == asset.jpeg_paths@[0]@,
{
    if asset.jpeg_paths.len() != 1 {
        return None;
    }
    Some(asset.jpeg_paths[0].clone())
}

pub open spec fn outcome_of(issues: Seq<String>, writes: Seq<RatingSyncWrite>, planned: Seq<PlannedRatingWrite>) -> SyncOutcome {
    SyncOutcome { issues: texts(issues), writes: write_views(writes), planned: planned_views(planned) }
}

fn add_write(
    asset: &PhotoAsset,
    target: RatingSyncTarget,
    path: String,
    current: Option<i8>,
    rating: u8,
    snapshot: TargetSnapshot,
    writes: &mut Vec<RatingSyncWrite>,
    planned: &mut Vec<PlannedRatingWrite>,
)
    ensures
        write_views(final(writes)@) == write_views(old(writes)@).push(
            WriteView { target, relative_path: path@, current_rating: current, target_rating: rating },
        ),
        planned_views(final(planned)@) == planned_views(old(planned)@).push(
            PlannedView { asset_id: asset.id@, target, relative_path: path@, target_rating: rating, snapshot },
        ),
{
    let w = RatingSyncWrite { target, relative_path: path.clone(), current_rating: current, target_rating: rating };
    let p = PlannedRatingWrite { asset_id: asset.id.clone(), target, relative_path: path, target_rating: rating, snapshot };
    writes.push(w);
    planned.push(p);
    assert(write_views(writes@) =~= write_views(old(writes)@).push(w.view()));
    assert(planned_views(planned@) =~= planned_views(old(planned)@).push(p.view()));
}

fn add_issue(issues: &mut Vec<String>, issue: String)
    ensures
        texts(final(issues)@) == texts(old(issues)@).push(issue@),
{
    issues.push(issue);
    assert(texts(issues@) =~= texts(old(issues)@).push(issue@));
}

fn raw_target(
    asset: &PhotoAsset,
    probe: &Result<TargetSnapshot, String>,
    rating: u8,
    issues: &mut Vec<String>,
    writes: &mut Vec<RatingSyncWrite>,
    planned: &mut Vec<PlannedRatingWrite>,
)
    ensures
        outcome_of(final(issues)@, final(writes)@, final(planned)@) == raw_step(
            *asset,
            *probe,
            rating,
            outcome_of(old(issues)@, old(writes)@, old(planned)@),
        ),
{
    if asset.raw_paths.len() == 0 {
        add_issue(issues, "照片组没有 RAW，无法同步 RAW XMP".to_owned());
        return;
    }
    if asset.raw_paths.len() > 1 {
        add_issue(issues, "照片组包含多个 RAW，无法确定 XMP 写入对象".to_owned());
        return;
    }
    if asset.xmp_paths.len() > 1 {
        add_issue(issues, "照片组包含多个 XMP，无法确定写入目标".to_owned());
        return;
    }
    match probe {
        Err(e) => add_issue(issues, e.clone()),
        Ok(s) => {
            let path = match raw_sync_target(asset) {
                Some((p, _)) => p,
                None => String::new(),
            };
            add_write(asset, RatingSyncTarget::RawXmp, path, asset.rating_state.raw_xmp, rating, *s, writes, planned);
        },
    }
}

fn jpeg_target(
    asset: &PhotoAsset,
    probe: &Result<TargetSnapshot, String>,
    rating: u8,
    issues: &mut Vec<String>,
    writes: &mut Vec<RatingSyncWrite>,
    planned: &mut Vec<PlannedRatingWrite>,
)
    ensures
        outcome_of(final(issues)@, final(writes)@, final(planned)@) == jpeg_step(
            *asset,
            *probe,
            rating,
            outcome_of(old(issues)@, old(writes)@, old(planned)@),
        ),
{
    if asset.jpeg_paths.len() == 0 {
        add_issue(issues, "照片组没有 JPG，无法同步 JPG 元数据".to_owned());
        return;
    }
    if asset.jpeg_paths.len() > 1 {
        add_issue(issues, "照片组包含多个 JPG，无法确定元数据写入目标".to_owned());
        return;
    }
    match probe {
        Err(e) => add_issue(issues, e.clone()),
        Ok(s) => {
            let path = asset.jpeg_paths[0].clone();
            add_write(asset, RatingSyncTarget::JpegMetadata, path, asset.rating_state.jpeg_metadata, rating, *s, writes, planned);
        },
    }
}

fn all_unchanged(writes: &Vec<RatingSyncWrite>, rating: u8) -> (r: bool)
    ensures
        r == writes_unchanged(write_views(writes@), rating),
{
    let ghost wv = write_views(writes@);
    let mut i: usize = 0;
    while i < writes.len()
        invariant
            i <= writes@.len(),
            wv == write_views(writes@),
            forall|k: int|
                0 <= k < i ==> (#[trigger] wv[k]).current_rating == Some(rating as i8) || (rating == 0
                    && wv[k].current_rating is None),
        decreases writes@.len() - i,
    {
        let current = writes[i].current_rating;
        let same = match current {
            Some(v) => v == rating as i8,
            None => rating == 0,
        };
        if !same {
            assert(!((wv[i as int]).current_rating == Some(rating as i8) || (rating == 0 && wv[i as int].current_rating is None)));
            return false;
        }
        i = i + 1;
    }
    true
}

/// Plans one photo group: its plan item and the writes it authorises.
pub fn plan_asset(asset: &PhotoAsset, probe: &SyncProbe, request: &RatingSyncPlanRequest) -> (r: (
    RatingSyncPlanItem,
    Vec<PlannedRatingWrite>,
))
    ensures
        r.0.view() == sync_item(*asset, *probe, *request),
        planned_views(r.1@) == sync_planned(*asset, *probe, *request),
{
    let mut issues = crate::safety::copy_strings(&asset.rating_issues);
    let initial = resolve_rating(&asset.rating_state, &issues, request.conflict_policy);
    let rating = match initial {
        RatingResolution::Ready(r) => r,
        RatingResolution::Conflict => 0,
    };
    let mut writes: Vec<RatingSyncWrite> = Vec::new();
    let mut planned: Vec<PlannedRatingWrite> = Vec::new();
    proof {
        assert(write_views(writes@) =~= Seq::<WriteView>::empty());
        assert(planned_views(planned@) =~= Seq::<PlannedView>::empty());
    }
    if initial != RatingResolution::Conflict {
        if request.targets.raw_xmp {
            raw_target(asset, &probe.raw, rating, &mut issues, &mut writes, &mut planned);
        }
        if request.targets.jpeg_metadata {
            jpeg_target(asset, &probe.jpeg, rating, &mut issues, &mut writes, &mut planned);
        }
    }
    assert(outcome_of(issues@, writes@, planned@) == asset_outcome(*asset, *probe, *request));
    let resolution = resolve_rating(&asset.rating_state, &issues, request.conflict_policy);
    let (resolved, status) = match resolution {
        RatingResolution::Conflict => {
            if issues.len() == 0 {
                add_issue(&mut issues, "评分来源不一致，当前冲突策略不会覆盖".to_owned());
            }
            (None, RatingSyncStatus::Conflict)
        },
        RatingResolution::Ready(r) => {
            if all_unchanged(&writes, r) {
                (Some(r), RatingSyncStatus::Unchanged)
            } else {
                (Some(r), RatingSyncStatus::Ready)
            }
        },
    };
    let out = if status == RatingSyncStatus::Ready {
        planned
    } else {
        let empty: Vec<PlannedRatingWrite> = Vec::new();
        assert(planned_views(empty@) =~= Seq::<PlannedView>::empty());
        empty
    };
    let item = RatingSyncPlanItem {
        asset_id: asset.id.clone(),
        relative_stem: asset.relative_stem.clone(),
        frame_pair: asset.rating_state.frame_pair,
        jpeg_metadata: asset.rating_state.jpeg_metadata,
        raw_xmp: asset.rating_state.raw_xmp,
        resolved,
        status,
        writes,
        issues,
    };
    proof {
        let expected = sync_item(*asset, *probe, *request);
        assert(item.view().resolved == expected.resolved);
        assert(item.view().status == expected.status);
        assert(item.view().writes == expected.writes);
        assert(item.view().issues == expected.issues);
        assert(item.view().asset_id == expected.asset_id);
    }
    (item, out)
}

/// Why the options of a synchronisation request are unusable, if they are.
pub open spec fn sync_options_error(request: RatingSyncPlanRequest) -> Option<Seq<char>> {
    if !request.targets.raw_xmp && !request.targets.jpeg_metadata {
        Some("请至少选择一个评分同步目标"@)
    } else if request.minimum_rating > 5 || request.maximum_rating > 5 || request.minimum_rating
        > request.maximum_rating {
        Some("评分范围必须在 0 到 5 星之间，且最低评分不能高于最高评分"@)
    } else if request.targets.jpeg_metadata && !request.jpeg_write_confirmed {
        Some("启用 JPG 元数据写入前必须明确确认"@)
    } else {
        None
    }
}

pub fn check_sync_options(request: &RatingSyncPlanRequest) -> (r: Result<(), String>)
    ensures
        match sync_options_error(*request) {
            Some(e) => r matches Err(m) && m@ == e,
            None => r is Ok,
        },
{
    if !request.targets.raw_xmp && !request.targets.jpeg_metadata {
        return Err("请至少选择一个评分同步目标".to_owned());
    }
    if request.minimum_rating > 5 || request.maximum_rating > 5 || request.minimum_rating > request.maximum_rating {
        return Err("评分范围必须在 0 到 5 星之间，且最低评分不能高于最高评分".to_owned());
    }
    if request.targets.jpeg_metadata && !request.jpeg_write_confirmed {
        return Err("启用 JPG 元数据写入前必须明确确认".to_owned());
    }
    Ok(())
}

/// The ids of the photo groups of an index.
pub open spec fn asset_ids(assets: Seq<PhotoAsset>) -> Seq<Seq<char>> {
    assets.map_values(|a: PhotoAsset| a.id@)
}

/// Why the scope of a synchronisation request is unusable, if it is; `root`
/// and `index_root` are the canonical forms of the requested and the indexed
/// directories.
pub open spec fn sync_scope_error(
    request: RatingSyncPlanRequest,
    root: Seq<char>,
    index_root: Seq<char>,
    ids: Seq<Seq<char>>,
) -> Option<Seq<char>> {
    let requested = texts(request.asset_ids@);
    if !same_path(root, index_root) {
        Some("评分同步目录与照片索引不一致"@)
    } else if !requested.no_duplicates() {
        Some("评分同步范围包含重复照片组"@)
    } else if exists|i: int| 0 <= i < requested.len() && !ids.contains(#[trigger] requested[i]) {
        Some("评分同步范围包含当前索引中不存在的照片组"@)
    } else {
        None
    }
}

/// Whether the text `s` is in `list`.
pub fn contains_text(list: &Vec<String>, s: &str) -> (r: bool)
    ensures
        r == texts(list@).contains(s@),
{
    let ghost tv = texts(list@);
    let target = chars_of(s);
    let mut i: usize = 0;
    while i < list.len()
        invariant
            i <= list@.len(),
            tv == texts(list@),
            target@ == s@,
            forall|k: int| 0 <= k < i ==> tv[k] != s@,
        decreases list@.len() - i,
    {
        let c = chars_of(list[i].as_str());
        if chars_eq(&c, &target) {
            assert(tv[i as int] == s@);
            return true;
        }
        i = i + 1;
    }
    false
}

/// Whether no text occurs twice in `list`.
pub fn texts_distinct(list: &Vec<String>) -> (r: bool)
    ensures
        r == texts(list@).no_duplicates(),
{
    let ghost tv = texts(list@);
    let mut i: usize = 0;
    while i < list.len()
        invariant
            i <= list@.len(),
            tv == texts(list@),
            forall|a: int, b: int| 0 <= a < b < tv.len() && a < i ==> tv[a] != tv[b],
        decreases list@.len() - i,
    {
        let a = chars_of(list[i].as_str());
        let mut j: usize = i + 1;
        while j < list.len()
            invariant
                i < j <= list@.len(),
                tv == texts(list@),
                a@ == tv[i as int],
                forall|x: int, y: int| 0 <= x < y < tv.len() && x < i ==> tv[x] != tv[y],
                forall|y: int| i < y < j ==> tv[i as int] != tv[y],
            decreases list@.len() - j,
        {
            let b = chars_of(list[j].as_str());
            if chars_eq(&a, &b) {
                assert(tv[i as int] == tv[j as int]);
                return false;
            }
            j = j + 1;
        }
        i = i + 1;
    }
    assert forall|x: int, y: int| 0 <= x < tv.len() && 0 <= y < tv.len() && x != y implies tv[x] != tv[y] by {
        if x > y {
            assert(tv[y] != tv[x]);
        }
    }
    true
}

fn index_ids(assets: &Vec<PhotoAsset>) -> (r: Vec<String>)
    ensures
        texts(r@) == asset_ids(assets@),
{
    let mut out: Vec<String> = Vec::new();
    let mut i: usize = 0;
    while i < assets.len()
        invariant
            i <= assets@.len(),
            texts(out@) == asset_ids(assets@.subrange(0, i as int)),
        decreases assets@.len() - i,
    {
        let ghost before = out@;
        out.push(assets[i].id.clone());
        assert(texts(out@) =~= texts(before).push(assets@[i as int].id@));
        assert(asset_ids(assets@.subrange(0, i + 1)) =~= asset_ids(assets@.subrange(0, i as int)).push(assets@[i as int].id@));
        i = i + 1;
    }
    assert(assets@.subrange(0, assets@.len() as int) =~= assets@);
    out
}

/// The requested directory must be the indexed one, and an explicit scope
/// must name existing photo groups, each once.
pub fn check_sync_scope(request: &RatingSyncPlanRequest, index: &PhotoIndex, root: &str, index_root: &str) -> (r: Result<(), String>)
    ensures
        match sync_scope_error(*request, root@, index_root@, asset_ids(index.assets@)) {
            Some(e) => r matches Err(m) && m@ == e,
            None => r is Ok,
        },
{
    if !paths_equal(root, index_root) {
        return Err("评分同步目录与照片索引不一致".to_owned());
    }
    if !texts_distinct(&request.asset_ids) {
        return Err("评分同步范围包含重复照片组".to_owned());
    }
    let ids = index_ids(&index.assets);
    let ghost requested = texts(request.asset_ids@);
    let mut i: usize = 0;
    while i < request.asset_ids.len()
        invariant
            i <= request.asset_ids@.len(),
            requested == texts(request.asset_ids@),
            same_path(root@, index_root@),
            requested.no_duplicates(),
            texts(ids@) == asset_ids(index.assets@),
            forall|k: int| 0 <= k < i ==> asset_ids(index.assets@).contains(#[trigger] requested[k]),
        decreases request.asset_ids@.len() - i,
    {
        assert(requested[i as int] == request.asset_ids@[i as int]@);
        if !contains_text(&ids, request.asset_ids[i].as_str()) {
            return Err("评分同步范围包含当前索引中不存在的照片组".to_owned());
        }
        i = i + 1;
    }
    Ok(())
}

/// A group is in scope when it is named, or (with no names given) when its
/// own rating lies in the requested range.
pub open spec fn selected(asset: PhotoAsset, request: RatingSyncPlanRequest) -> bool {
    if request.asset_ids@.len() == 0 {
        request.minimum_rating <= asset.rating_state.frame_pair <= request.maximum_rating
    } else {
        texts(request.asset_ids@).contains(asset.id@)
    }
}

/// Plan items of the first `n` groups in scope, in index order.
pub open spec fn sync_items(assets: Seq<PhotoAsset>, probes: Seq<SyncProbe>, request: RatingSyncPlanRequest, n: nat) -> Seq<SyncItemView>
    decreases n,
{
    if n == 0 {
        seq![]
    } else {
        let rest = sync_items(assets, probes, request, (n - 1) as nat);
        if selected(assets[n - 1], request) {
            rest.push(sync_item(assets[n - 1], probes[n - 1], request))
        } else {
            rest
        }
    }
}

/// Authorised writes of the first `n` groups in scope, in index order.
pub open spec fn sync_writes(assets: Seq<PhotoAsset>, probes: Seq<SyncProbe>, request: RatingSyncPlanRequest, n: nat) -> Seq<PlannedView>
    decreases n,
{
    if n == 0 {
        seq![]
    } else {
        let rest = sync_writes(assets, probes, request, (n - 1) as nat);
        if selected(assets[n - 1], request) {
            rest + sync_planned(assets[n - 1], probes[n - 1], request)
        } else {
            rest
        }
    }
}

pub open spec fn sync_status_count(items: Seq<SyncItemView>, status: RatingSyncStatus) -> nat
    decreases items.len(),
{
    if items.len() == 0 {
        0
    } else {
        sync_status_count(items.drop_last(), status) + if items.last().status == status {
            1nat
        } else {
            0nat
        }
    }
}

/// Items ordered by group id.
pub open spec fn sorted_by_id(s: Seq<SyncItemView>) -> bool {
    forall|i: int, j: int| 0 <= i < j < s.len() ==> crate::text::text_le(#[trigger] s[i].asset_id, #[trigger] s[j].asset_id)
}

proof fn lemma_item_views_multiset(a: Seq<RatingSyncPlanItem>, b: Seq<RatingSyncPlanItem>)
    requires
        a.to_multiset() == b.to_multiset(),
    ensures
        item_views(a).to_multiset() == item_views(b).to_multiset(),
{
    crate::sorting::lemma_map_multiset(a, b, |i: RatingSyncPlanItem| i.view());
    assert(item_views(a) =~= a.map_values(|i: RatingSyncPlanItem| i.view()));
    assert(item_views(b) =~= b.map_values(|i: RatingSyncPlanItem| i.view()));
}

fn sort_by_id(items: Vec<RatingSyncPlanItem>) -> (r: Vec<RatingSyncPlanItem>)
    ensures
        item_views(r@).to_multiset() == item_views(items@).to_multiset(),
        sorted_by_id(item_views(r@)),
{
    let mut keyed: Vec<Keyed<RatingSyncPlanItem>> = Vec::new();
    let mut input = items;
    let ghost original = input@;
    while input.len() > 0
        invariant
            values_of(keyed@).to_multiset().add(input@.to_multiset()) == original.to_multiset(),
            forall|i: int| 0 <= i < keyed@.len() ==> (#[trigger] keyed@[i]).key@ == keyed@[i].value.asset_id@,
        decreases input@.len(),
    {
        let ghost before = input@;
        let ghost kb = keyed@;
        let item = input.pop().unwrap();
        proof {
            assert(before =~= input@.push(item));
            vstd::seq_lib::to_multiset_build(input@, item);
        }
        let key = chars_of(item.asset_id.as_str());
        keyed.push(Keyed { key, value: item });
        proof {
            assert(values_of(keyed@) =~= values_of(kb).push(item));
            vstd::seq_lib::to_multiset_build(values_of(kb), item);
        }
    }
    let ghost kv = keyed@;
    let sorted = sort_keyed(keyed);
    let ghost sv = sorted@;
    let out = into_values(sorted);
    proof {
        assert(input@.to_multiset() =~= vstd::multiset::Multiset::empty());
        assert(values_of(kv).to_multiset().add(input@.to_multiset()) =~= values_of(kv).to_multiset());
        lemma_item_views_multiset(out@, original);
        assert forall|i: int, j: int| 0 <= i < j < out@.len() implies crate::text::text_le(
            #[trigger] item_views(out@)[i].asset_id,
            #[trigger] item_views(out@)[j].asset_id,
        ) by {
            assert(kv.contains(sv[i]));
            assert(kv.contains(sv[j]));
            assert(crate::text::text_le(sv[i].key@, sv[j].key@));
        }
    }
    out
}

/// What a synchronisation plan built from an index holds.
pub open spec fn plan_holds(
    plan: RatingSyncPlan,
    index: PhotoIndex,
    request: RatingSyncPlanRequest,
    plan_id: Seq<char>,
    root: Seq<char>,
    probes: Seq<SyncProbe>,
) -> bool {
    let n = index.assets@.len();
    let expected = sync_items(index.assets@, probes, request, n);
    let s = plan.summary_view();
    &&& item_views(s.items@).to_multiset() == expected.to_multiset()
    &&& sorted_by_id(item_views(s.items@))
    &&& s.plan_id@ == plan_id
    &&& s.root@ == forward_slashes(root)
    &&& s.total_items == expected.len()
    &&& s.ready == sync_status_count(expected, RatingSyncStatus::Ready)
    &&& s.unchanged == sync_status_count(expected, RatingSyncStatus::Unchanged)
    &&& s.conflicts == sync_status_count(expected, RatingSyncStatus::Conflict)
    &&& planned_views(plan.writes@) == sync_writes(index.assets@, probes, request, n)
}

/// Builds a rating synchronisation plan. `root` and `index_root` are the
/// canonical forms of the requested and the indexed directories, and
/// `probes[i]` is what the file system said of the targets of the `i`-th
/// photo group. Items come out ordered by group id.
pub fn build_plan(
    index: &PhotoIndex,
    request: &RatingSyncPlanRequest,
    plan_id: String,
    root: &str,
    index_root: &str,
    probes: &Vec<SyncProbe>,
) -> (r: Result<RatingSyncPlan, String>)
    requires
        probes@.len() == index.assets@.len(),
    ensures
        match sync_options_error(*request) {
            Some(e) => r matches Err(m) && m@ == e,
            None => match sync_scope_error(*request, root@, index_root@, asset_ids(index.assets@)) {
                Some(e) => r matches Err(m) && m@ == e,
                None => r matches Ok(plan) && plan_holds(plan, *index, *request, plan_id@, root@, probes@),
            },
        },
{
    check_sync_options(request)?;
    check_sync_scope(request, index, root, index_root)?;
    let ghost av = index.assets@;
    let ghost pv = probes@;
    let mut items: Vec<RatingSyncPlanItem> = Vec::new();
    let mut writes: Vec<PlannedRatingWrite> = Vec::new();
    let mut ready: usize = 0;
    let mut unchanged: usize = 0;
    let mut conflicts: usize = 0;
    let mut i: usize = 0;
    while i < index.assets.len()
        invariant
            i <= av.len(),
            av == index.assets@,
            pv == probes@,
            pv.len() == av.len(),
            item_views(items@) == sync_items(av, pv, *request, i as nat),
            planned_views(writes@) == sync_writes(av, pv, *request, i as nat),
            ready == sync_status_count(item_views(items@), RatingSyncStatus::Ready),
            unchanged == sync_status_count(item_views(items@), RatingSyncStatus::Unchanged),
            conflicts == sync_status_count(item_views(items@), RatingSyncStatus::Conflict),
            ready + unchanged + conflicts == items@.len(),
        decreases av.len() - i,
    {
        let asset = &index.assets[i];
        let chosen = if request.asset_ids.len() == 0 {
            request.minimum_rating <= asset.rating_state.frame_pair && asset.rating_state.frame_pair <= request.maximum_rating
        } else {
            contains_text(&request.asset_ids, asset.id.as_str())
        };
        if chosen {
            let (item, mut planned) = plan_asset(asset, &probes[i], request);
            let ghost before_items = item_views(items@);
            let ghost before_writes = planned_views(writes@);
            let ghost pl = planned@;
            let status = item.status;
            items.push(item);
            writes.append(&mut planned);
            proof {
                assert(item_views(items@) =~= before_items.push(sync_item(av[i as int], pv[i as int], *request)));
                assert(item_views(items@).drop_last() =~= before_items);
                assert(planned_views(writes@) =~= before_writes + planned_views(pl));
            }
            let _len = items.len();
            match status {
                RatingSyncStatus::Ready => ready = ready + 1,
                RatingSyncStatus::Unchanged => unchanged = unchanged + 1,
                RatingSyncStatus::Conflict => conflicts = conflicts + 1,
            }
        }
        i = i + 1;
    }
    let total = items.len();
    let items = sort_by_id(items);
    let summary = RatingSyncPlanSummary {
        plan_id,
        root: forward_slash_string(root),
        total_items: total,
        ready,
        unchanged,
        conflicts,
        items,
    };
    Ok(RatingSyncPlan { summary, writes })
}

proof fn lemma_steps_keep_asset_ids(asset: PhotoAsset, probe: SyncProbe, request: RatingSyncPlanRequest)
    ensures
        forall|k: int|
            0 <= k < asset_outcome(asset, probe, request).planned.len() ==> (#[trigger] asset_outcome(
                asset,
                probe,
                request,
            ).planned[k]).asset_id == asset.id@,
{
    let base = SyncOutcome { issues: texts(asset.rating_issues@), writes: seq![], planned: seq![] };
    let initial = resolution(asset.rating_state, base.issues.len() > 0, request.conflict_policy);
    let rating = match initial {
        RatingResolution::Ready(r) => r,
        RatingResolution::Conflict => 0,
    };
    let a = if request.targets.raw_xmp {
        raw_step(asset, probe.raw, rating, base)
    } else {
        base
    };
    assert forall|k: int| 0 <= k < a.planned.len() implies (#[trigger] a.planned[k]).asset_id == asset.id@ by {}
    let b = if request.targets.jpeg_metadata {
        jpeg_step(asset, probe.jpeg, rating, a)
    } else {
        a
    };
    assert forall|k: int| 0 <= k < b.planned.len() implies (#[trigger] b.planned[k]).asset_id == asset.id@ by {
        if k < a.planned.len() {
            assert(b.planned[k] == a.planned[k]);
        }
    }
}

/// Every write a synchronisation plan authorises belongs to a group in
/// scope that the plan marks ready, and names that group.
pub proof fn planned_writes_belong_to_ready_groups(
    assets: Seq<PhotoAsset>,
    probes: Seq<SyncProbe>,
    request: RatingSyncPlanRequest,
    n: nat,
    k: int,
)
    requires
        n <= assets.len(),
        n <= probes.len(),
        0 <= k < sync_writes(assets, probes, request, n).len(),
    ensures
        exists|x: int|
            0 <= x < n && selected(assets[x], request) && #[trigger] sync_item(assets[x], probes[x], request).status
                == RatingSyncStatus::Ready && sync_writes(assets, probes, request, n)[k].asset_id == assets[x].id@,
    decreases n,
{
    let rest = sync_writes(assets, probes, request, (n - 1) as nat);
    let x = n - 1;
    if selected(assets[x], request) {
        if k < rest.len() {
            planned_writes_belong_to_ready_groups(assets, probes, request, (n - 1) as nat, k);
            let y = choose|y: int|
                0 <= y < n - 1 && selected(assets[y], request) && #[trigger] sync_item(assets[y], probes[y], request).status
                    == RatingSyncStatus::Ready && rest[k].asset_id == assets[y].id@;
            assert(sync_writes(assets, probes, request, n)[k] == rest[k]);
        } else {
            let planned = sync_planned(assets[x], probes[x], request);
            assert(sync_writes(assets, probes, request, n)[k] == planned[k - rest.len()]);
            lemma_steps_keep_asset_ids(assets[x], probes[x], request);
            assert(sync_item(assets[x], probes[x], request).status == RatingSyncStatus::Ready);
        }
    } else {
        planned_writes_belong_to_ready_groups(assets, probes, request, (n - 1) as nat, k);
    }
}

/// Under the highest-rating policy, with no issues and outside ratings of 0
/// to 5, a group resolves to the largest of its FramePair rating and its
/// positive outside ratings: at least each of them, and equal to one.
pub proof fn highest_policy_takes_the_largest_rating(state: RatingState)
    requires
        state.jpeg_metadata matches Some(v) ==> 0 <= v <= 5,
        state.raw_xmp matches Some(v) ==> 0 <= v <= 5,
    ensures
        resolution(state, false, RatingConflictPolicy::Highest) matches RatingResolution::Ready(h) && {
            &&& h >= state.frame_pair
            &&& (state.jpeg_metadata is Some && state.jpeg_metadata->0 >= 1 ==> h as int >= state.jpeg_metadata->0 as int)
            &&& (state.raw_xmp is Some && state.raw_xmp->0 >= 1 ==> h as int >= state.raw_xmp->0 as int)
            &&& (h == state.frame_pair || (state.jpeg_metadata matches Some(v) && v as int == h as int) || (state.raw_xmp matches Some(v)
                && v as int == h as int))
        },
{
}

} // verus!
