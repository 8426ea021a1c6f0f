//! Rating organizer plans: for every photo group, which rule applies, which
//! of its files are kept, copied, moved or marked for cleanup, where they go,
//! and which ratings are written on the way.

use vstd::prelude::*;
use crate::paths::{
    all_normal, all_normal_chars, file_name, file_name_text, has_file_name, join_path, path_has_prefix,
    path_join, path_starts_with, with_extension, with_extension_text,
};
use crate::photo_groups::{PhotoAsset, PhotoIndex, PhotoMemberKind, PhotoMemberSnapshot};
use crate::rating_rules::{RatingRule, RuleAction, RuleMemberKind, opt_text};
use crate::rating_sync::{
    RatingConflictPolicy, RatingResolution, RatingSyncTarget, RatingSyncTargets, resolution, resolve_rating,
    with_xmp_extension,
};
use crate::safety::texts;
use crate::sorting::{Keyed, into_values, sort_keyed, values_of};
use crate::text::{chars_eq, chars_of, concat, forward_slash_string, forward_slashes};

verus! {

broadcast use vstd::seq_lib::group_to_multiset_ensures;

/// When a planned rating write happens.
#[derive(Debug, Clone, Copy, PartialEq, Eq, Structural)]
pub enum SyncTiming {
    Source,
    Destination,
    BeforeCleanup,
}

/// One rating write planned alongside an organizer action.
#[derive(Debug)]
pub struct PlannedSyncAction {
    pub target: RatingSyncTarget,
    pub target_path: String,
    pub target_rating: u8,
    pub timing: SyncTiming,
}

/// Whether, and where, an organizer plan also writes ratings.
#[derive(Debug, Clone, Copy, PartialEq, Eq, Structural)]
pub struct OperationSyncPreference {
    pub enabled: bool,
    pub targets: RatingSyncTargets,
    pub jpeg_write_confirmed: bool,
    pub sync_cleanup_before: bool,
}

impl OperationSyncPreference {
    /// Synchronisation off, no target chosen.
    pub fn default() -> (r: Self)
        ensures
            !r.enabled,
            !r.targets.raw_xmp,
            !r.targets.jpeg_metadata,
            !r.jpeg_write_confirmed,
            !r.sync_cleanup_before,
    {
        OperationSyncPreference {
            enabled: false,
            targets: RatingSyncTargets { raw_xmp: false, jpeg_metadata: false },
            jpeg_write_confirmed: false,
            sync_cleanup_before: false,
        }
    }
}

#[derive(Debug)]
pub struct OperationPlanRequest {
    pub root: String,
    pub rules: Vec<RatingRule>,
    pub conflict_policy: RatingConflictPolicy,
    pub sync: OperationSyncPreference,
}

#[derive(Debug, Clone, Copy, PartialEq, Eq, Structural)]
pub enum OperationPlanStatus {
    Ready,
    Keep,
    Skipped,
    Conflict,
}

/// One file of a photo group as a plan acts on it.
#[derive(Debug)]
pub struct PlannedMember {
    pub kind: RuleMemberKind,
    pub source_relative_path: String,
    pub target_path: Option<String>,
    pub size_bytes: u64,
    pub modified_ms: Option<u64>,
}

#[derive(Debug)]
pub struct OperationPlanItem {
    pub group_id: String,
    pub relative_stem: String,
    pub rating: Option<u8>,
    pub frame_pair: u8,
    pub jpeg_metadata: Option<i8>,
    pub raw_xmp: Option<i8>,
    pub matched_rule_ids: Vec<String>,
    pub matched_rule_names: Vec<String>,
    pub terminal_action: Option<RuleAction>,
    pub status: OperationPlanStatus,
    pub members: Vec<PlannedMember>,
    pub missing_kinds: Vec<RuleMemberKind>,
    pub sync_actions: Vec<PlannedSyncAction>,
    pub issues: Vec<String>,
}

#[derive(Debug)]
pub struct OperationPlanSummary {
    pub plan_id: String,
    pub root: String,
    pub total_items: usize,
    pub ready: usize,
    pub kept: usize,
    pub skipped: usize,
    pub conflicts: usize,
    pub move_groups: usize,
    pub copy_groups: usize,
    pub cleanup_groups: usize,
    pub sync_groups: usize,
    pub jpeg_files: usize,
    pub raw_files: usize,
    pub xmp_files: usize,
    pub copy_bytes: u64,
    pub cleanup_bytes: u64,
    pub items: Vec<OperationPlanItem>,
}

#[derive(Debug)]
pub struct OperationPlan {
    pub summary: OperationPlanSummary,
    pub rules: Vec<RatingRule>,
    pub sync: OperationSyncPreference,
}

impl OperationPlan {
    pub fn summary(&self) -> (r: &OperationPlanSummary)
        ensures
            *r == self.summary,
    {
        &self.summary
    }
}

// ---------------------------------------------------------------------------
// Views
// ---------------------------------------------------------------------------
pub struct MemberView {
    pub kind: RuleMemberKind,
    pub source: Seq<char>,
    pub target: Option<Seq<char>>,
    pub size_bytes: u64,
    pub modified_ms: Option<u64>,
}

impl PlannedMember {
    pub open spec fn view(&self) -> MemberView {
        MemberView {
            kind: self.kind,
            source: self.source_relative_path@,
            target: opt_text(self.target_path),
            size_bytes: self.size_bytes,
            modified_ms: self.modified_ms,
        }
    }
}

pub open spec fn member_views(s: Seq<PlannedMember>) -> Seq<MemberView> {
    s.map_values(|m: PlannedMember| m.view())
}

pub struct ActionView {
    pub target: RatingSyncTarget,
    pub path: Seq<char>,
    pub rating: u8,
    pub timing: SyncTiming,
}

impl PlannedSyncAction {
    pub open spec fn view(&self) -> ActionView {
        ActionView { target: self.target, path: self.target_path@, rating: self.target_rating, timing: self.timing }
    }
}

pub open spec fn action_views(s: Seq<PlannedSyncAction>) -> Seq<ActionView> {
    s.map_values(|a: PlannedSyncAction| a.view())
}

// ---------------------------------------------------------------------------
// Members
// ---------------------------------------------------------------------------
pub open spec fn member_kind_of(kind: PhotoMemberKind) -> RuleMemberKind {
    match kind {
        PhotoMemberKind::Jpeg => RuleMemberKind::Jpeg,
        PhotoMemberKind::Raw => RuleMemberKind::Raw,
        PhotoMemberKind::Xmp => RuleMemberKind::Xmp,
    }
}

pub fn member_kind(kind: PhotoMemberKind) -> (r: RuleMemberKind)
    ensures
        r == member_kind_of(kind),
{
    match kind {
        PhotoMemberKind::Jpeg => RuleMemberKind::Jpeg,
        PhotoMemberKind::Raw => RuleMemberKind::Raw,
        PhotoMemberKind::Xmp => RuleMemberKind::Xmp,
    }
}

pub open spec fn unplaced(m: PhotoMemberSnapshot) -> MemberView {
    MemberView {
        kind: member_kind_of(m.kind),
        source: m.relative_path@,
        target: None,
        size_bytes: m.size_bytes,
        modified_ms: m.modified_ms,
    }
}

/// The members of a group whose kind is in the rule's scope, in order.
pub open spec fn scoped_members(members: Seq<PhotoMemberSnapshot>, scope: Seq<RuleMemberKind>) -> Seq<MemberView>
    decreases members.len(),
{
    if members.len() == 0 {
        seq![]
    } else {
        let rest = scoped_members(members.drop_last(), scope);
        if scope.contains(member_kind_of(members.last().kind)) {
            rest.push(unplaced(members.last()))
        } else {
            rest
        }
    }
}

/// The kinds of the scope, in order, that no selected member has.
pub open spec fn missing_of(scope: Seq<RuleMemberKind>, selected: Seq<MemberView>) -> Seq<RuleMemberKind>
    decreases scope.len(),
{
    if scope.len() == 0 {
        seq![]
    } else {
        let rest = missing_of(scope.drop_last(), selected);
        if exists|i: int| 0 <= i < selected.len() && (#[trigger] selected[i]).kind == scope.last() {
            rest
        } else {
            rest.push(scope.last())
        }
    }
}

fn kind_in(scope: &Vec<RuleMemberKind>, kind: RuleMemberKind) -> (r: bool)
    ensures
        r == scope@.contains(kind),
{
    let mut i: usize = 0;
    while i < scope.len()
        invariant
            i <= scope@.len(),
            forall|k: int| 0 <= k < i ==> scope@[k] != kind,
        decreases scope@.len() - i,
    {
        if scope[i] == kind {
            return true;
        }
        i = i + 1;
    }
    false
}

/// The members of the group the rule acts on, and the kinds it asks for
/// that the group lacks.
pub fn selected_members(asset: &PhotoAsset, rule: &RatingRule) -> (r: (Vec<PlannedMember>, Vec<RuleMemberKind>))
    ensures
        member_views(r.0@) == scoped_members(asset.members@, rule.member_scope@),
        r.1@ == missing_of(rule.member_scope@, member_views(r.0@)),
{
    let mut members: Vec<PlannedMember> = Vec::new();
    let mut i: usize = 0;
    while i < asset.members.len()
        invariant
            i <= asset.members@.len(),
            member_views(members@) == scoped_members(asset.members@.subrange(0, i as int), rule.member_scope@),
        decreases asset.members@.len() - i,
    {
        assert(asset.members@.subrange(0, i + 1).drop_last() =~= asset.members@.subrange(0, i as int));
        let m = &asset.members[i];
        let kind = member_kind(m.kind);
        if kind_in(&rule.member_scope, kind) {
            let ghost before = member_views(members@);
            let p = PlannedMember {
                kind,
                source_relative_path: m.relative_path.clone(),
                target_path: None,
                size_bytes: m.size_bytes,
                modified_ms: m.modified_ms,
            };
            members.push(p);
            assert(member_views(members@) =~= before.push(unplaced(*m)));
        }
        i = i + 1;
    }
    assert(asset.members@.subrange(0, asset.members@.len() as int) =~= asset.members@);
    let ghost mv = member_views(members@);
    let mut missing: Vec<RuleMemberKind> = Vec::new();
    let mut j: usize = 0;
    while j < rule.member_scope.len()
        invariant
            j <= rule.member_scope@.len(),
            mv == member_views(members@),
            missing@ == missing_of(rule.member_scope@.subrange(0, j as int), mv),
        decreases rule.member_scope@.len() - j,
    {
        assert(rule.member_scope@.subrange(0, j + 1).drop_last() =~= rule.member_scope@.subrange(0, j as int));
        let kind = rule.member_scope[j];
        let mut found = false;
        let mut k: usize = 0;
        while k < members.len()
            invariant
                k <= members@.len(),
                mv == member_views(members@),
                found == exists|x: int| 0 <= x < k && (#[trigger] mv[x]).kind == kind,
            decreases members@.len() - k,
        {
            assert(mv[k as int].kind == members@[k as int].kind);
            if members[k].kind == kind {
                found = true;
            }
            k = k + 1;
        }
        if !found {
            missing.push(kind);
        }
        j = j + 1;
    }
    assert(rule.member_scope@.subrange(0, rule.member_scope@.len() as int) =~= rule.member_scope@);
    (members, missing)
}

// ---------------------------------------------------------------------------
// Targets
// ---------------------------------------------------------------------------
/// Where a member goes under a rule's destination: its relative path kept,
/// or its file name alone.
pub open spec fn destination_target_of(destination: Seq<char>, relative: Seq<char>, preserve: bool) -> Result<Seq<char>, Seq<char>> {
    if !all_normal(relative) {
        Err("照片成员路径不是安全相对路径"@)
    } else if preserve {
        Ok(path_join(destination, relative))
    } else if !has_file_name(relative) {
        Err("无法确定平铺目标文件名"@)
    } else {
        Ok(path_join(destination, file_name_text(relative)))
    }
}

pub fn destination_target(destination: &str, relative_path: &str, preserve_relative_path: bool) -> (r: Result<String, String>)
    ensures
        match destination_target_of(destination@, relative_path@, preserve_relative_path) {
            Ok(t) => r matches Ok(x) && x@ == t,
            Err(e) => r matches Err(x) && x@ == e,
        },
{
    let v = chars_of(relative_path);
    if !all_normal_chars(&v) {
        return Err("照片成员路径不是安全相对路径".to_owned());
    }
    if preserve_relative_path {
        return Ok(join_path(destination, relative_path));
    }
    match file_name(relative_path) {
        Some(name) => Ok(join_path(destination, name.as_str())),
        None => Err("无法确定平铺目标文件名".to_owned()),
    }
}

/// What the file system said of a target path: `None` when it is free, or
/// the issue that blocks it.
#[derive(Debug)]
pub struct TargetProbe {
    pub path: String,
    pub issue: Option<String>,
}

/// The issue recorded for `path` by the first probe of it.
pub open spec fn probe_issue(probes: Seq<TargetProbe>, path: Seq<char>) -> Option<Option<Seq<char>>>
    decreases probes.len(),
{
    if probes.len() == 0 {
        None
    } else {
        let rest = probe_issue(probes.drop_last(), path);
        if rest is Some {
            rest
        } else if probes.last().path@ == path {
            Some(opt_text(probes.last().issue))
        } else {
            None
        }
    }
}

proof fn lemma_probe_issue_prefix(probes: Seq<TargetProbe>, n: int, path: Seq<char>)
    requires
        0 <= n <= probes.len(),
        probe_issue(probes.subrange(0, n), path) is Some,
    ensures
        probe_issue(probes, path) == probe_issue(probes.subrange(0, n), path),
    decreases probes.len(),
{
    if n < probes.len() {
        assert(probes.drop_last().subrange(0, n) =~= probes.subrange(0, n));
        lemma_probe_issue_prefix(probes.drop_last(), n, path);
    } else {
        assert(probes.subrange(0, n) =~= probes);
    }
}

/// Why a target under `destination` cannot be written: it lies outside the
/// destination, or the file system reported an issue (a target that was not
/// probed cannot be checked).
pub open spec fn target_issue(destination: Seq<char>, target: Seq<char>, probes: Seq<TargetProbe>) -> Option<Seq<char>> {
    if !path_has_prefix(target, destination) {
        Some("目标路径超出了规则目标目录"@)
    } else {
        match probe_issue(probes, target) {
            Some(found) => found,
            None => Some("无法检查目标路径 "@ + forward_slashes(target)),
        }
    }
}

pub fn target_path_issue(destination: &str, target: &str, probes: &Vec<TargetProbe>) -> (r: Option<String>)
    ensures
        opt_text(r) == target_issue(destination@, target@, probes@),
{
    if !path_starts_with(target, destination) {
        return Some("目标路径超出了规则目标目录".to_owned());
    }
    let t = chars_of(target);
    let mut i: usize = 0;
    while i < probes.len()
        invariant
            i <= probes@.len(),
            t@ == target@,
            path_has_prefix(target@, destination@),
            probe_issue(probes@.subrange(0, i as int), target@) is None,
        decreases probes@.len() - i,
    {
        assert(probes@.subrange(0, i + 1).drop_last() =~= probes@.subrange(0, i as int));
        let p = chars_of(probes[i].path.as_str());
        if chars_eq(&p, &t) {
            proof {
                lemma_probe_issue_prefix(probes@, i + 1, target@);
            }
            return match &probes[i].issue {
                Some(e) => Some(e.clone()),
                None => None,
            };
        }
        i = i + 1;
    }
    assert(probes@.subrange(0, probes@.len() as int) =~= probes@);
    let shown = forward_slash_string(target);
    Some(concat("无法检查目标路径 ", shown.as_str()))
}

/// A rule's destination directory ("" when unset).
pub open spec fn destination_of(rule: RatingRule) -> Seq<char> {
    match rule.destination {
        Some(d) => d@,
        None => seq![],
    }
}

pub open spec fn moves_files(action: RuleAction) -> bool {
    action == RuleAction::Copy || action == RuleAction::Move
}

pub open spec fn issue_seq(o: Option<Seq<char>>) -> Seq<Seq<char>> {
    match o {
        Some(x) => seq![x],
        None => seq![],
    }
}

/// A member with its target under the rule's destination, and the issues found.
pub open spec fn place_member(m: MemberView, rule: RatingRule, probes: Seq<TargetProbe>) -> (MemberView, Seq<Seq<char>>) {
    let dest = destination_of(rule);
    match destination_target_of(dest, m.source, rule.preserve_relative_path) {
        Ok(t) => (
            MemberView { target: Some(forward_slashes(t)), ..m },
            issue_seq(target_issue(dest, t, probes)),
        ),
        Err(e) => (m, seq![e]),
    }
}

/// The members placed one by one, with the issues in order.
pub open spec fn placed_members(members: Seq<MemberView>, rule: RatingRule, probes: Seq<TargetProbe>) -> (Seq<MemberView>, Seq<Seq<char>>)
    decreases members.len(),
{
    if members.len() == 0 {
        (seq![], seq![])
    } else {
        let rest = placed_members(members.drop_last(), rule, probes);
        let one = place_member(members.last(), rule, probes);
        (rest.0.push(one.0), rest.1 + one.1)
    }
}

/// Targets for the members of a copy or move rule (other rules leave the
/// members as they are); issues are appended to `issues`.
pub fn assign_member_targets(
    rule: &RatingRule,
    members: Vec<PlannedMember>,
    issues: &mut Vec<String>,
    probes: &Vec<TargetProbe>,
) -> (r: Vec<PlannedMember>)
    ensures
        moves_files(rule.action) ==> {
            let placed = placed_members(member_views(members@), *rule, probes@);
            &&& member_views(r@) == placed.0
            &&& texts(final(issues)@) == texts(old(issues)@) + placed.1
        },
        !moves_files(rule.action) ==> member_views(r@) == member_views(members@) && texts(final(issues)@)
            == texts(old(issues)@),
{
    if !(rule.action == RuleAction::Copy || rule.action == RuleAction::Move) {
        return members;
    }
    let destination = match &rule.destination {
        Some(d) => d.clone(),
        None => String::new(),
    };
    let ghost mv = member_views(members@);
    let ghost base = texts(issues@);
    let mut input = members;
    let mut stack: Vec<PlannedMember> = Vec::new();
    while input.len() > 0
        invariant
            input@.len() + stack@.len() == mv.len(),
            member_views(input@) == mv.subrange(0, input@.len() as int),
            forall|k: int| 0 <= k < stack@.len() ==> (#[trigger] stack@[k]).view() == mv[mv.len() - 1 - k],
        decreases input@.len(),
    {
        let ghost before = input@;
        let m = input.pop().unwrap();
        assert(member_views(input@) =~= mv.subrange(0, input@.len() as int)) by {
            assert(before =~= input@.push(m));
            assert(member_views(before) =~= member_views(input@).push(m.view()));
        }
        assert(m.view() == mv[input@.len() as int]) by {
            assert(member_views(before)[input@.len() as int] == m.view());
        }
        stack.push(m);
    }
    let mut out: Vec<PlannedMember> = Vec::new();
    while stack.len() > 0
        invariant
            out@.len() + stack@.len() == mv.len(),
            forall|k: int| 0 <= k < stack@.len() ==> (#[trigger] stack@[k]).view() == mv[mv.len() - 1 - k],
            member_views(out@) == placed_members(mv.subrange(0, out@.len() as int), *rule, probes@).0,
            texts(issues@) == base + placed_members(mv.subrange(0, out@.len() as int), *rule, probes@).1,
            destination@ == destination_of(*rule),
            moves_files(rule.action),
        decreases stack@.len(),
    {
        let n = out.len();
        let m = stack.pop().unwrap();
        assert(m.view() == mv[n as int]);
        let ghost pre = mv.subrange(0, n as int);
        assert(mv.subrange(0, n + 1).drop_last() =~= pre);
        assert(mv.subrange(0, n + 1).last() == mv[n as int]);
        let ghost one = place_member(m.view(), *rule, probes@);
        let ghost before_out = member_views(out@);
        let ghost before_issues = texts(issues@);
        match destination_target(destination.as_str(), m.source_relative_path.as_str(), rule.preserve_relative_path) {
            Ok(target) => {
                let issue = target_path_issue(destination.as_str(), target.as_str(), probes);
                match issue {
                    Some(e) => {
                        issues.push(e);
                        assert(texts(issues@) =~= before_issues.push(one.1[0]));
                    },
                    None => {},
                }
                let shown = forward_slash_string(target.as_str());
                let placed = PlannedMember {
                    kind: m.kind,
                    source_relative_path: m.source_relative_path,
                    target_path: Some(shown),
                    size_bytes: m.size_bytes,
                    modified_ms: m.modified_ms,
                };
                assert(placed.view() == one.0);
                out.push(placed);
            },
            Err(e) => {
                issues.push(e);
                assert(texts(issues@) =~= before_issues.push(one.1[0]));
                out.push(m);
            },
        }
        assert(member_views(out@) =~= before_out.push(one.0));
        assert(texts(issues@) =~= base + placed_members(mv.subrange(0, n + 1), *rule, probes@).1);
    }
    assert(mv.subrange(0, mv.len() as int) =~= mv);
    out
}

/// The target of the first member of a kind, if that member has one.
pub open spec fn first_target(members: Seq<MemberView>, kind: RuleMemberKind) -> Option<Seq<char>>
    decreases members.len(),
{
    if members.len() == 0 {
        None
    } else if members[0].kind == kind {
        members[0].target
    } else {
        first_target(members.drop_first(), kind)
    }
}

/// Where, and when, a rating write for a member kind happens under a rule.
pub open spec fn sync_location_of(
    root: Seq<char>,
    action: RuleAction,
    members: Seq<MemberView>,
    kind: RuleMemberKind,
    source: Seq<char>,
    extension: Option<Seq<char>>,
    before_cleanup: bool,
) -> Option<(Seq<char>, SyncTiming)> {
    match action {
        RuleAction::Cleanup => if !before_cleanup {
            None
        } else {
            Some((path_join(root, source), SyncTiming::BeforeCleanup))
        },
        RuleAction::Keep => Some((path_join(root, source), SyncTiming::Source)),
        _ => match first_target(members, kind) {
            Some(t) => Some((
                match extension {
                    Some(e) => with_extension_text(t, e),
                    None => t,
                },
                SyncTiming::Destination,
            )),
            None => Some((path_join(root, source), SyncTiming::Source)),
        },
    }
}

fn first_target_of(members: &Vec<PlannedMember>, kind: RuleMemberKind) -> (r: Option<String>)
    ensures
        opt_text(r) == first_target(member_views(members@), kind),
{
    let ghost mv = member_views(members@);
    let mut i: usize = 0;
    assert(mv.subrange(0, mv.len() as int) =~= mv);
    while i < members.len()
        invariant
            i <= members@.len(),
            mv == member_views(members@),
            first_target(mv, kind) == first_target(mv.subrange(i as int, mv.len() as int), kind),
        decreases members@.len() - i,
    {
        let ghost rest = mv.subrange(i as int, mv.len() as int);
        assert(rest[0] == mv[i as int]);
        if members[i].kind == kind {
            return match &members[i].target_path {
                Some(t) => Some(t.clone()),
                None => None,
            };
        }
        assert(rest.drop_first() =~= mv.subrange(i + 1, mv.len() as int));
        i = i + 1;
    }
    assert(mv.subrange(i as int, mv.len() as int) =~= Seq::<MemberView>::empty());
    None
}

pub fn sync_location(
    root: &str,
    action: RuleAction,
    members: &Vec<PlannedMember>,
    kind: RuleMemberKind,
    source_relative_path: &str,
    extension: Option<&str>,
    before_cleanup: bool,
) -> (r: Option<(String, SyncTiming)>)
    ensures
        match sync_location_of(
            root@,
            action,
            member_views(members@),
            kind,
            source_relative_path@,
            match extension {
                Some(e) => Some(e@),
                None => None,
            },
            before_cleanup,
        ) {
            Some((t, timing)) => r matches Some((x, y)) && x@ == t && y == timing,
            None => r is None,
        },
{
    match action {
        RuleAction::Cleanup => {
            if !before_cleanup {
                None
            } else {
                Some((join_path(root, source_relative_path), SyncTiming::BeforeCleanup))
            }
        },
        RuleAction::Keep => Some((join_path(root, source_relative_path), SyncTiming::Source)),
        _ => match first_target_of(members, kind) {
            Some(t) => {
                let target = match extension {
                    Some(e) => with_extension(t.as_str(), e),
                    None => t,
                };
                Some((target, SyncTiming::Destination))
            },
            None => Some((join_path(root, source_relative_path), SyncTiming::Source)),
        },
    }
}

/// The asset already carries the rating in that place (0 stars also when it carries none).
pub open spec fn already_rated(current: Option<i8>, rating: u8) -> bool {
    current == Some(rating as i8) || (rating == 0 && current is None)
}

/// Some member already goes to `path`.
pub open spec fn member_targets(members: Seq<MemberView>, path: Seq<char>) -> bool {
    exists|i: int| 0 <= i < members.len() && (#[trigger] members[i]).target == Some(path)
}

/// The RAW XMP write planned with an organizer action, and its issues.
pub open spec fn raw_sync_plan(
    root: Seq<char>,
    asset: PhotoAsset,
    rule: RatingRule,
    members: Seq<MemberView>,
    preference: OperationSyncPreference,
    rating: u8,
    probes: Seq<TargetProbe>,
) -> (Seq<ActionView>, Seq<Seq<char>>) {
    if !preference.targets.raw_xmp || already_rated(asset.rating_state.raw_xmp, rating) {
        (seq![], seq![])
    } else if asset.raw_paths@.len() != 1 {
        (seq![], seq!["评分同步需要照片组中恰好一个 RAW"@])
    } else if asset.xmp_paths@.len() > 1 {
        (seq![], seq!["评分同步发现多个 RAW XMP，目标不明确"@])
    } else {
        match sync_location_of(
            root,
            rule.action,
            members,
            RuleMemberKind::Raw,
            crate::rating_sync::raw_sync_path(asset),
            Some("xmp"@),
            preference.sync_cleanup_before,
        ) {
            None => (seq![], seq![]),
            Some((t, timing)) => (
                seq![ActionView { target: RatingSyncTarget::RawXmp, path: forward_slashes(t), rating, timing }],
                if timing == SyncTiming::Destination {
                    issue_seq(target_issue(destination_of(rule), t, probes))
                } else {
                    seq![]
                },
            ),
        }
    }
}

/// The JPG metadata write planned with an organizer action, and its issues.
pub open spec fn jpeg_sync_plan(
    root: Seq<char>,
    asset: PhotoAsset,
    rule: RatingRule,
    members: Seq<MemberView>,
    preference: OperationSyncPreference,
    rating: u8,
    probes: Seq<TargetProbe>,
) -> (Seq<ActionView>, Seq<Seq<char>>) {
    if !preference.targets.jpeg_metadata || already_rated(asset.rating_state.jpeg_metadata, rating) {
        (seq![], seq![])
    } else if asset.jpeg_paths@.len() != 1 {
        (seq![], seq!["评分同步需要照片组中恰好一个 JPG"@])
    } else {
        match sync_location_of(
            root,
            rule.action,
            members,
            RuleMemberKind::Jpeg,
            asset.jpeg_paths@[0]@,
            None,
            preference.sync_cleanup_before,
        ) {
            None => (seq![], seq![]),
            Some((t, timing)) => (
                seq![ActionView { target: RatingSyncTarget::JpegMetadata, path: forward_slashes(t), rating, timing }],
                if timing == SyncTiming::Destination && target_issue(destination_of(rule), t, probes) is Some
                    && !member_targets(members, forward_slashes(t)) {
                    seq!["JPG 评分同步目标已存在："@ + forward_slashes(t)]
                } else {
                    seq![]
                },
            ),
        }
    }
}

/// The rating writes planned with an organizer action, and their issues.
pub open spec fn sync_plan(
    root: Seq<char>,
    asset: PhotoAsset,
    rule: RatingRule,
    members: Seq<MemberView>,
    preference: OperationSyncPreference,
    rating: u8,
    probes: Seq<TargetProbe>,
) -> (Seq<ActionView>, Seq<Seq<char>>) {
    if !preference.enabled || (rule.action == RuleAction::Cleanup && !preference.sync_cleanup_before) {
        (seq![], seq![])
    } else {
        let raw = raw_sync_plan(root, asset, rule, members, preference, rating, probes);
        let jpeg = jpeg_sync_plan(root, asset, rule, members, preference, rating, probes);
        (raw.0 + jpeg.0, raw.1 + jpeg.1)
    }
}

fn member_goes_to(members: &Vec<PlannedMember>, path: &str) -> (r: bool)
    ensures
        r == member_targets(member_views(members@), path@),
{
    let ghost mv = member_views(members@);
    let p = chars_of(path);
    let mut i: usize = 0;
    while i < members.len()
        invariant
            i <= members@.len(),
            mv == member_views(members@),
            p@ == path@,
            forall|k: int| 0 <= k < i ==> (#[trigger] mv[k]).target != Some(path@),
        decreases members@.len() - i,
    {
        assert(mv[i as int].target == opt_text(members@[i as int].target_path));
        if let Some(t) = &members[i].target_path {
            let tv = chars_of(t.as_str());
            if chars_eq(&tv, &p) {
                return true;
            }
        }
        i = i + 1;
    }
    false
}

/// Plans the rating writes of a matched group; issues are appended to `issues`.
pub fn build_sync_actions(
    root: &str,
    asset: &PhotoAsset,
    rule: &RatingRule,
    members: &Vec<PlannedMember>,
    preference: OperationSyncPreference,
    target_rating: u8,
    issues: &mut Vec<String>,
    probes: &Vec<TargetProbe>,
) -> (r: Vec<PlannedSyncAction>)
    ensures
        ({
            let plan = sync_plan(root@, *asset, *rule, member_views(members@), preference, target_rating, probes@);
            &&& action_views(r@) == plan.0
            &&& texts(final(issues)@) == texts(old(issues)@) + plan.1
        }),
{
    let ghost base = texts(issues@);
    let ghost mv = member_views(members@);
    let mut actions: Vec<PlannedSyncAction> = Vec::new();
    if !preference.enabled || (rule.action == RuleAction::Cleanup && !preference.sync_cleanup_before) {
        assert(action_views(actions@) =~= Seq::<ActionView>::empty());
        assert(texts(issues@) =~= base + Seq::<Seq<char>>::empty());
        return actions;
    }
    let destination = match &rule.destination {
        Some(d) => d.clone(),
        None => String::new(),
    };
    let ghost raw = raw_sync_plan(root@, *asset, *rule, mv, preference, target_rating, probes@);
    let raw_done = match asset.rating_state.raw_xmp {
        Some(v) => v == target_rating as i8,
        None => target_rating == 0,
    };
    if preference.targets.raw_xmp && !raw_done {
        if asset.raw_paths.len() != 1 {
            issues.push("评分同步需要照片组中恰好一个 RAW".to_owned());
        } else if asset.xmp_paths.len() > 1 {
            issues.push("评分同步发现多个 RAW XMP，目标不明确".to_owned());
        } else {
            let source = match crate::rating_sync::raw_sync_target(asset) {
                Some((p, _)) => p,
                None => String::new(),
            };
            match sync_location(root, rule.action, members, RuleMemberKind::Raw, source.as_str(), Some("xmp"), preference.sync_cleanup_before) {
                Some((target, timing)) => {
                    if timing == SyncTiming::Destination {
                        if let Some(issue) = target_path_issue(destination.as_str(), target.as_str(), probes) {
                            issues.push(issue);
                        }
                    }
                    actions.push(PlannedSyncAction {
                        target: RatingSyncTarget::RawXmp,
                        target_path: forward_slash_string(target.as_str()),
                        target_rating,
                        timing,
                    });
                },
                None => {},
            }
        }
    }
    proof {
        assert(action_views(actions@) =~= raw.0);
        assert(texts(issues@) =~= base + raw.1);
    }
    let ghost mid_actions = action_views(actions@);
    let ghost mid_issues = texts(issues@);
    let ghost jpeg = jpeg_sync_plan(root@, *asset, *rule, mv, preference, target_rating, probes@);
    let jpeg_done = match asset.rating_state.jpeg_metadata {
        Some(v) => v == target_rating as i8,
        None => target_rating == 0,
    };
    if preference.targets.jpeg_metadata && !jpeg_done {
        if asset.jpeg_paths.len() != 1 {
            issues.push("评分同步需要照片组中恰好一个 JPG".to_owned());
        } else {
            match sync_location(root, rule.action, members, RuleMemberKind::Jpeg, asset.jpeg_paths[0].as_str(), None, preference.sync_cleanup_before) {
                Some((target, timing)) => {
                    let shown = forward_slash_string(target.as_str());
                    if timing == SyncTiming::Destination {
                        let blocked = target_path_issue(destination.as_str(), target.as_str(), probes).is_some();
                        if blocked && !member_goes_to(members, shown.as_str()) {
                            issues.push(concat("JPG 评分同步目标已存在：", shown.as_str()));
                        }
                    }
                    actions.push(PlannedSyncAction {
                        target: RatingSyncTarget::JpegMetadata,
                        target_path: shown,
                        target_rating,
                        timing,
                    });
                },
                None => {},
            }
        }
    }
    proof {
        assert(action_views(actions@) =~= mid_actions + jpeg.0);
        assert(texts(issues@) =~= mid_issues + jpeg.1);
    }
    actions
}

// ---------------------------------------------------------------------------
// Planning one group
// ---------------------------------------------------------------------------
pub struct PlanItemView {
    pub group_id: Seq<char>,
    pub relative_stem: Seq<char>,
    pub rating: Option<u8>,
    pub frame_pair: u8,
    pub jpeg_metadata: Option<i8>,
    pub raw_xmp: Option<i8>,
    pub rule_ids: Seq<Seq<char>>,
    pub rule_names: Seq<Seq<char>>,
    pub action: Option<RuleAction>,
    pub status: OperationPlanStatus,
    pub members: Seq<MemberView>,
    pub missing: Seq<RuleMemberKind>,
    pub sync: Seq<ActionView>,
    pub issues: Seq<Seq<char>>,
}

impl OperationPlanItem {
    pub open spec fn view(&self) -> PlanItemView {
        PlanItemView {
            group_id: self.group_id@,
            relative_stem: self.relative_stem@,
            rating: self.rating,
            frame_pair: self.frame_pair,
            jpeg_metadata: self.jpeg_metadata,
            raw_xmp: self.raw_xmp,
            rule_ids: texts(self.matched_rule_ids@),
            rule_names: texts(self.matched_rule_names@),
            action: self.terminal_action,
            status: self.status,
            members: member_views(self.members@),
            missing: self.missing_kinds@,
            sync: action_views(self.sync_actions@),
            issues: texts(self.issues@),
        }
    }
}

pub open spec fn plan_item_views(s: Seq<OperationPlanItem>) -> Seq<PlanItemView> {
    s.map_values(|i: OperationPlanItem| i.view())
}

/// The enabled rules whose condition holds of the rating, in order.
pub open spec fn matching(rules: Seq<RatingRule>, rating: u8) -> Seq<RatingRule>
    decreases rules.len(),
{
    if rules.len() == 0 {
        seq![]
    } else {
        let rest = matching(rules.drop_last(), rating);
        let r = rules.last();
        if r.enabled && r.condition.holds(rating) {
            rest.push(r)
        } else {
            rest
        }
    }
}

/// Texts joined with `、`.
pub open spec fn joined(names: Seq<Seq<char>>) -> Seq<char>
    decreases names.len(),
{
    if names.len() == 0 {
        seq![]
    } else if names.len() == 1 {
        names[0]
    } else {
        joined(names.drop_last()) + "、"@ + names.last()
    }
}

pub open spec fn rule_ids_of(rules: Seq<RatingRule>) -> Seq<Seq<char>> {
    rules.map_values(|r: RatingRule| r.id@)
}

pub open spec fn rule_names_of(rules: Seq<RatingRule>) -> Seq<Seq<char>> {
    rules.map_values(|r: RatingRule| r.name@)
}

/// The plan item of one photo group, before duplicate targets are marked.
pub open spec fn plan_item(
    asset: PhotoAsset,
    rules: Seq<RatingRule>,
    policy: RatingConflictPolicy,
    preference: OperationSyncPreference,
    root: Seq<char>,
    probes: Seq<TargetProbe>,
) -> PlanItemView {
    let base = texts(asset.rating_issues@);
    let res = resolution(asset.rating_state, base.len() > 0, policy);
    let blank = PlanItemView {
        group_id: asset.id@,
        relative_stem: asset.relative_stem@,
        rating: None,
        frame_pair: asset.rating_state.frame_pair,
        jpeg_metadata: asset.rating_state.jpeg_metadata,
        raw_xmp: asset.rating_state.raw_xmp,
        rule_ids: seq![],
        rule_names: seq![],
        action: None,
        status: OperationPlanStatus::Conflict,
        members: seq![],
        missing: seq![],
        sync: seq![],
        issues: base,
    };
    match res {
        RatingResolution::Conflict => PlanItemView {
            issues: if base.len() == 0 {
                seq!["评分来源不一致，当前冲突策略不会覆盖"@]
            } else {
                base
            },
            ..blank
        },
        RatingResolution::Ready(r) => {
            let ms = matching(rules, r);
            let rated = PlanItemView {
                rating: Some(r),
                rule_ids: rule_ids_of(ms),
                rule_names: rule_names_of(ms),
                ..blank
            };
            if ms.len() == 0 {
                PlanItemView { status: OperationPlanStatus::Skipped, ..rated }
            } else if ms.len() > 1 {
                PlanItemView {
                    issues: base.push("照片组命中多条最终操作规则："@ + joined(rule_names_of(ms))),
                    ..rated
                }
            } else {
                let rule = ms[0];
                let selected = scoped_members(asset.members@, rule.member_scope@);
                let missing = missing_of(rule.member_scope@, selected);
                if selected.len() == 0 {
                    PlanItemView {
                        action: Some(rule.action),
                        status: OperationPlanStatus::Skipped,
                        missing,
                        issues: base.push("规则选择的格式在当前照片组中均不存在"@),
                        ..rated
                    }
                } else {
                    let placed = if moves_files(rule.action) {
                        placed_members(selected, rule, probes)
                    } else {
                        (selected, seq![])
                    };
                    let sync = sync_plan(root, asset, rule, placed.0, preference, r, probes);
                    let found = placed.1 + sync.1;
                    PlanItemView {
                        action: Some(rule.action),
                        status: if found.len() > 0 {
                            OperationPlanStatus::Conflict
                        } else if rule.action == RuleAction::Keep {
                            OperationPlanStatus::Keep
                        } else {
                            OperationPlanStatus::Ready
                        },
                        members: placed.0,
                        missing,
                        sync: sync.0,
                        issues: base + found,
                        ..rated
                    }
                }
            }
        },
    }
}

/// Positions of the enabled rules whose condition holds of the rating.
fn matching_rules(rules: &Vec<RatingRule>, rating: u8) -> (r: Vec<usize>)
    ensures
        r@.map_values(|i: usize| rules@[i as int]) == matching(rules@, rating),
        forall|k: int| 0 <= k < r@.len() ==> (#[trigger] r@[k]) < rules@.len(),
{
    let mut out: Vec<usize> = Vec::new();
    let mut i: usize = 0;
    while i < rules.len()
        invariant
            i <= rules@.len(),
            out@.map_values(|k: usize| rules@[k as int]) == matching(rules@.subrange(0, i as int), rating),
            forall|k: int| 0 <= k < out@.len() ==> (#[trigger] out@[k]) < i,
        decreases rules@.len() - i,
    {
        assert(rules@.subrange(0, i + 1).drop_last() =~= rules@.subrange(0, i as int));
        let ghost before = out@;
        if rules[i].enabled && rules[i].condition.matches(rating) {
            out.push(i);
            assert(out@.map_values(|k: usize| rules@[k as int]) =~= before.map_values(|k: usize| rules@[k as int]).push(rules@[i as int]));
        }
        i = i + 1;
    }
    assert(rules@.subrange(0, rules@.len() as int) =~= rules@);
    out
}

/// The names joined with `、`.
fn join_names(names: &Vec<String>) -> (r: String)
    ensures
        r@ == joined(texts(names@)),
{
    let ghost nv = texts(names@);
    if names.len() == 0 {
        return String::new();
    }
    let mut out = names[0].clone();
    let mut i: usize = 1;
    assert(nv.subrange(0, 1).len() == 1);
    while i < names.len()
        invariant
            1 <= i <= names@.len(),
            nv == texts(names@),
            out@ == joined(nv.subrange(0, i as int)),
        decreases names@.len() - i,
    {
        assert(nv.subrange(0, i + 1).drop_last() =~= nv.subrange(0, i as int));
        out.append("、");
        out.append(names[i].as_str());
        i = i + 1;
    }
    assert(nv.subrange(0, names@.len() as int) =~= nv);
    out
}

/// Plans one photo group against the rules (duplicate targets across groups
/// are marked afterwards).
pub fn plan_group(
    asset: &PhotoAsset,
    rules: &Vec<RatingRule>,
    policy: RatingConflictPolicy,
    preference: OperationSyncPreference,
    root: &str,
    probes: &Vec<TargetProbe>,
) -> (r: OperationPlanItem)
    ensures
        r.view() == plan_item(*asset, rules@, policy, preference, root@, probes@),
{
    let ghost expected = plan_item(*asset, rules@, policy, preference, root@, probes@);
    let mut issues = crate::safety::copy_strings(&asset.rating_issues);
    let ghost base = texts(issues@);
    let resolution = resolve_rating(&asset.rating_state, &issues, policy);
    let mut ids: Vec<String> = Vec::new();
    let mut names: Vec<String> = Vec::new();
    let rating = match resolution {
        RatingResolution::Ready(r) => r,
        RatingResolution::Conflict => {
            if issues.len() == 0 {
                issues.push("评分来源不一致，当前冲突策略不会覆盖".to_owned());
            }
            let item = OperationPlanItem {
                group_id: asset.id.clone(),
                relative_stem: asset.relative_stem.clone(),
                rating: None,
                frame_pair: asset.rating_state.frame_pair,
                jpeg_metadata: asset.rating_state.jpeg_metadata,
                raw_xmp: asset.rating_state.raw_xmp,
                matched_rule_ids: ids,
                matched_rule_names: names,
                terminal_action: None,
                status: OperationPlanStatus::Conflict,
                members: Vec::new(),
                missing_kinds: Vec::new(),
                sync_actions: Vec::new(),
                issues,
            };
            proof {
                assert(item.view().rule_ids =~= expected.rule_ids);
                assert(item.view().rule_names =~= expected.rule_names);
                assert(item.view().members =~= expected.members);
                assert(item.view().sync =~= expected.sync);
                assert(item.view().missing =~= expected.missing);
                assert(item.view().issues =~= expected.issues);
            }
            return item;
        },
    };
    let found = matching_rules(rules, rating);
    let ghost ms = matching(rules@, rating);
    let mut k: usize = 0;
    while k < found.len()
        invariant
            k <= found@.len(),
            found@.map_values(|i: usize| rules@[i as int]) == ms,
            forall|x: int| 0 <= x < found@.len() ==> (#[trigger] found@[x]) < rules@.len(),
            texts(ids@) == rule_ids_of(ms.subrange(0, k as int)),
            texts(names@) == rule_names_of(ms.subrange(0, k as int)),
        decreases found@.len() - k,
    {
        let idx = found[k];
        assert(ms[k as int] == rules@[idx as int]);
        let ghost bi = texts(ids@);
        let ghost bn = texts(names@);
        ids.push(rules[idx].id.clone());
        names.push(rules[idx].name.clone());
        assert(texts(ids@) =~= bi.push(rules@[idx as int].id@));
        assert(texts(names@) =~= bn.push(rules@[idx as int].name@));
        assert(rule_ids_of(ms.subrange(0, k + 1)) =~= rule_ids_of(ms.subrange(0, k as int)).push(ms[k as int].id@));
        assert(rule_names_of(ms.subrange(0, k + 1)) =~= rule_names_of(ms.subrange(0, k as int)).push(ms[k as int].name@));
        k = k + 1;
    }
    assert(ms.subrange(0, found@.len() as int) =~= ms);
    let mut action: Option<RuleAction> = None;
    let mut status = OperationPlanStatus::Skipped;
    let mut members: Vec<PlannedMember> = Vec::new();
    let mut missing: Vec<RuleMemberKind> = Vec::new();
    let mut sync_actions: Vec<PlannedSyncAction> = Vec::new();
    if found.len() == 0 {
    } else if found.len() > 1 {
        let joined_names = join_names(&names);
        issues.push(concat("照片组命中多条最终操作规则：", joined_names.as_str()));
        status = OperationPlanStatus::Conflict;
    } else {
        let rule = &rules[found[0]];
        assert(ms[0] == *rule);
        let (selected, lacking) = selected_members(asset, rule);
        missing = lacking;
        action = Some(rule.action);
        if selected.len() == 0 {
            issues.push("规则选择的格式在当前照片组中均不存在".to_owned());
            members = selected;
        } else {
            let ghost before = texts(issues@);
            let placed = assign_member_targets(rule, selected, &mut issues, probes);
            let ghost after_place = texts(issues@);
            let actions = build_sync_actions(root, asset, rule, &placed, preference, rating, &mut issues, probes);
            proof {
                assert(texts(issues@) =~= base + (after_place.subrange(base.len() as int, after_place.len() as int) + texts(issues@).subrange(after_place.len() as int, texts(issues@).len() as int)));
            }
            status = if issues.len() > asset.rating_issues.len() {
                OperationPlanStatus::Conflict
            } else if rule.action == RuleAction::Keep {
                OperationPlanStatus::Keep
            } else {
                OperationPlanStatus::Ready
            };
            members = placed;
            sync_actions = actions;
        }
    }
    let item = OperationPlanItem {
        group_id: asset.id.clone(),
        relative_stem: asset.relative_stem.clone(),
        rating: Some(rating),
        frame_pair: asset.rating_state.frame_pair,
        jpeg_metadata: asset.rating_state.jpeg_metadata,
        raw_xmp: asset.rating_state.raw_xmp,
        matched_rule_ids: ids,
        matched_rule_names: names,
        terminal_action: action,
        status,
        members,
        missing_kinds: missing,
        sync_actions,
        issues,
    };
    proof {
        assert(item.view().members =~= expected.members);
        assert(item.view().sync =~= expected.sync);
        assert(item.view().missing =~= expected.missing);
        assert(item.view().issues =~= expected.issues);
        assert(item.view().status == expected.status);
    }
    item
}

// ---------------------------------------------------------------------------
// Duplicate targets
// ---------------------------------------------------------------------------
/// Member `a` of item `i` and member `b` of item `j` go to the same target,
/// letters compared without case; both items are not in conflict already.
pub open spec fn same_target(items: Seq<PlanItemView>, i: int, a: int, j: int, b: int) -> bool {
    &&& 0 <= i < items.len()
    &&& 0 <= j < items.len()
    &&& items[i].status != OperationPlanStatus::Conflict
    &&& items[j].status != OperationPlanStatus::Conflict
    &&& 0 <= a < items[i].members.len()
    &&& 0 <= b < items[j].members.len()
    &&& items[i].members[a].target is Some
    &&& items[j].members[b].target is Some
    &&& crate::text::unicode_lowercase(items[i].members[a].target->0) == crate::text::unicode_lowercase(
        items[j].members[b].target->0,
    )
}

/// Item `i` shares a target with another member of the plan.
pub open spec fn clashes(items: Seq<PlanItemView>, i: int) -> bool {
    exists|a: int, j: int, b: int| #[trigger] same_target(items, i, a, j, b) && (j != i || b != a)
}

pub open spec fn has_text(s: Seq<char>, pattern: Seq<char>) -> bool {
    exists|o: int| 0 <= o && o + pattern.len() <= s.len() && #[trigger] s.subrange(o, o + pattern.len()) == pattern
}

pub open spec fn clash_pattern() -> Seq<char> {
    "多个成员映射到同一目标路径"@
}

/// An item after duplicate targets are marked.
pub open spec fn marked(items: Seq<PlanItemView>, i: int) -> PlanItemView {
    if clashes(items, i) {
        PlanItemView {
            status: OperationPlanStatus::Conflict,
            issues: if exists|k: int| 0 <= k < items[i].issues.len() && has_text(#[trigger] items[i].issues[k], clash_pattern()) {
                items[i].issues
            } else {
                items[i].issues.push("多个成员映射到同一目标路径，禁止覆盖或自动重命名"@)
            },
            ..items[i]
        }
    } else {
        items[i]
    }
}

struct TargetKey {
    item: usize,
    member: usize,
    key: Vec<char>,
}

fn target_keys(items: &Vec<OperationPlanItem>) -> (r: Vec<TargetKey>)
    ensures
        forall|k: int| 0 <= k < r@.len() ==> {
            let t = #[trigger] r@[k];
            &&& t.item < items@.len()
            &&& t.member < items@[t.item as int].members@.len()
            &&& items@[t.item as int].status != OperationPlanStatus::Conflict
            &&& items@[t.item as int].members@[t.member as int].target_path is Some
            &&& t.key@ == crate::text::unicode_lowercase(items@[t.item as int].members@[t.member as int].target_path->0@)
        },
        forall|j: int, b: int|
            0 <= j < items@.len() && items@[j].status != OperationPlanStatus::Conflict && 0 <= b
                < items@[j].members@.len() && (#[trigger] items@[j].members@[b]).target_path is Some ==> exists|k: int|
                0 <= k < r@.len() && (#[trigger] r@[k]).item == j && r@[k].member == b,
{
    let mut out: Vec<TargetKey> = Vec::new();
    let mut i: usize = 0;
    while i < items.len()
        invariant
            i <= items@.len(),
            forall|k: int| 0 <= k < out@.len() ==> {
                let t = #[trigger] out@[k];
                &&& t.item < i
                &&& t.member < items@[t.item as int].members@.len()
                &&& items@[t.item as int].status != OperationPlanStatus::Conflict
                &&& items@[t.item as int].members@[t.member as int].target_path is Some
                &&& t.key@ == crate::text::unicode_lowercase(items@[t.item as int].members@[t.member as int].target_path->0@)
            },
            forall|j: int, b: int|
                0 <= j < i && items@[j].status != OperationPlanStatus::Conflict && 0 <= b
                    < items@[j].members@.len() && (#[trigger] items@[j].members@[b]).target_path is Some ==> exists|k: int|
                    0 <= k < out@.len() && (#[trigger] out@[k]).item == j && out@[k].member == b,
        decreases items@.len() - i,
    {
        if items[i].status != OperationPlanStatus::Conflict {
            let mut m: usize = 0;
            while m < items[i].members.len()
                invariant
                    i < items@.len(),
                    m <= items@[i as int].members@.len(),
                    items@[i as int].status != OperationPlanStatus::Conflict,
                    forall|k: int| 0 <= k < out@.len() ==> {
                        let t = #[trigger] out@[k];
                        &&& t.item <= i
                        &&& t.member < items@[t.item as int].members@.len()
                        &&& items@[t.item as int].status != OperationPlanStatus::Conflict
                        &&& items@[t.item as int].members@[t.member as int].target_path is Some
                        &&& t.key@ == crate::text::unicode_lowercase(items@[t.item as int].members@[t.member as int].target_path->0@)
                    },
                    forall|j: int, b: int|
                        0 <= j < i && items@[j].status != OperationPlanStatus::Conflict && 0 <= b
                            < items@[j].members@.len() && (#[trigger] items@[j].members@[b]).target_path is Some ==> exists|k: int|
                            0 <= k < out@.len() && (#[trigger] out@[k]).item == j && out@[k].member == b,
                    forall|b: int|
                        0 <= b < m && (#[trigger] items@[i as int].members@[b]).target_path is Some ==> exists|k: int|
                            0 <= k < out@.len() && (#[trigger] out@[k]).item == i && out@[k].member == b,
                decreases items@[i as int].members@.len() - m,
            {
                if let Some(t) = &items[i].members[m].target_path {
                    let low = crate::text::lowercase(t.as_str());
                    let key = chars_of(low.as_str());
                    let ghost before = out@;
                    out.push(TargetKey { item: i, member: m, key });
                    proof {
                        assert(out@[before.len() as int].item == i && out@[before.len() as int].member == m);
                        assert forall|j: int, b: int|
                            0 <= j < i && items@[j].status != OperationPlanStatus::Conflict && 0 <= b
                                < items@[j].members@.len() && (#[trigger] items@[j].members@[b]).target_path is Some implies exists|k: int|
                                0 <= k < out@.len() && (#[trigger] out@[k]).item == j && out@[k].member == b by {
                            let k = choose|k: int| 0 <= k < before.len() && (#[trigger] before[k]).item == j && before[k].member == b;
                            assert(out@[k] == before[k]);
                        }
                        assert forall|b: int|
                            0 <= b < m + 1 && (#[trigger] items@[i as int].members@[b]).target_path is Some implies exists|k: int|
                                0 <= k < out@.len() && (#[trigger] out@[k]).item == i && out@[k].member == b by {
                            if b < m {
                                let k = choose|k: int| 0 <= k < before.len() && (#[trigger] before[k]).item == i && before[k].member == b;
                                assert(out@[k] == before[k]);
                            } else {
                                assert(out@[before.len() as int].item == i);
                            }
                        }
                    }
                }
                m = m + 1;
            }
        }
        i = i + 1;
    }
    out
}

/// Whether some issue contains the text `pattern`.
fn any_issue_has(issues: &Vec<String>, pattern: &str) -> (r: bool)
    ensures
        r == exists|k: int| 0 <= k < issues@.len() && has_text(#[trigger] texts(issues@)[k], pattern@),
{
    let p = chars_of(pattern);
    let mut k: usize = 0;
    while k < issues.len()
        invariant
            k <= issues@.len(),
            p@ == pattern@,
            forall|x: int| 0 <= x < k ==> !has_text(#[trigger] texts(issues@)[x], pattern@),
        decreases issues@.len() - k,
    {
        let s = chars_of(issues[k].as_str());
        assert(texts(issues@)[k as int] == s@);
        let mut o: usize = 0;
        while o <= s.len() && s.len() - o >= p.len()
            invariant
                p@ == pattern@,
                texts(issues@)[k as int] == s@,
                k < issues@.len(),
                forall|y: int| 0 <= y < o && y + p@.len() <= s@.len() ==> #[trigger] s@.subrange(y, y + p@.len()) != p@,
            decreases s@.len() - o,
        {
            let mut same = true;
            let mut c: usize = 0;
            let slen = s.len();
            while c < p.len()
                invariant
                    c <= p@.len(),
                    slen == s@.len(),
                    o + p@.len() <= s@.len(),
                    same == forall|z: int| 0 <= z < c ==> s@[o + z] == #[trigger] p@[z],
                decreases p@.len() - c,
            {
                if s[o + c] != p[c] {
                    same = false;
                }
                c = c + 1;
            }
            if same {
                assert(s@.subrange(o as int, o + p@.len()) =~= p@);
                assert(has_text(texts(issues@)[k as int], pattern@));
                return true;
            }
            proof {
                let z = choose|z: int| 0 <= z < p@.len() && s@[o + z] != #[trigger] p@[z];
                assert(s@.subrange(o as int, o + p@.len())[z] == s@[o + z]);
            }
            o = o + 1;
        }
        proof {
            assert forall|y: int| 0 <= y && y + p@.len() <= s@.len() implies #[trigger] s@.subrange(y, y + p@.len()) != p@ by {
                assert(y < o);
            }
        }
        k = k + 1;
    }
    false
}

spec fn keys_clash(keys: Seq<TargetKey>, i: int) -> bool {
    exists|k1: int, k2: int|
        0 <= k1 < keys.len() && 0 <= k2 < keys.len() && (#[trigger] keys[k1]).item == i && (keys[k2].item != i
            || keys[k2].member != keys[k1].member) && keys[k1].key@ == (#[trigger] keys[k2]).key@
}

fn item_clashes(keys: &Vec<TargetKey>, i: usize) -> (r: bool)
    ensures
        r == keys_clash(keys@, i as int),
{
    let mut k1: usize = 0;
    while k1 < keys.len()
        invariant
            k1 <= keys@.len(),
            forall|x: int, y: int|
                0 <= x < k1 && 0 <= y < keys@.len() && (#[trigger] keys@[x]).item == i ==> !((keys@[y].item != i
                    || keys@[y].member != keys@[x].member) && keys@[x].key@ == (#[trigger] keys@[y]).key@),
        decreases keys@.len() - k1,
    {
        if keys[k1].item == i {
            let mut k2: usize = 0;
            while k2 < keys.len()
                invariant
                    k1 < keys@.len(),
                    k2 <= keys@.len(),
                    keys@[k1 as int].item == i,
                    forall|y: int|
                        0 <= y < k2 ==> !((keys@[y].item != i || keys@[y].member != keys@[k1 as int].member)
                            && keys@[k1 as int].key@ == (#[trigger] keys@[y]).key@),
                decreases keys@.len() - k2,
            {
                if (keys[k2].item != i || keys[k2].member != keys[k1].member) && chars_eq(&keys[k1].key, &keys[k2].key) {
                    return true;
                }
                k2 = k2 + 1;
            }
        }
        k1 = k1 + 1;
    }
    false
}

proof fn lemma_clash_flag(items: Seq<OperationPlanItem>, keys: Seq<TargetKey>, i: int)
    requires
        0 <= i < items.len(),
        forall|k: int| 0 <= k < keys.len() ==> {
            let t = #[trigger] keys[k];
            &&& t.item < items.len()
            &&& t.member < items[t.item as int].members@.len()
            &&& items[t.item as int].status != OperationPlanStatus::Conflict
            &&& items[t.item as int].members@[t.member as int].target_path is Some
            &&& t.key@ == crate::text::unicode_lowercase(items[t.item as int].members@[t.member as int].target_path->0@)
        },
        forall|j: int, b: int|
            0 <= j < items.len() && items[j].status != OperationPlanStatus::Conflict && 0 <= b
                < items[j].members@.len() && (#[trigger] items[j].members@[b]).target_path is Some ==> exists|k: int|
                0 <= k < keys.len() && (#[trigger] keys[k]).item == j && keys[k].member == b,
    ensures
        keys_clash(keys, i) == clashes(plan_item_views(items), i),
{
    let v = plan_item_views(items);
    if keys_clash(keys, i) {
        let (k1, k2) = choose|k1: int, k2: int|
            0 <= k1 < keys.len() && 0 <= k2 < keys.len() && (#[trigger] keys[k1]).item == i && (keys[k2].item != i
                || keys[k2].member != keys[k1].member) && keys[k1].key@ == (#[trigger] keys[k2]).key@;
        let a = keys[k1].member as int;
        let j = keys[k2].item as int;
        let b = keys[k2].member as int;
        assert(v[i].members[a] == items[i].members@[a].view());
        assert(v[j].members[b] == items[j].members@[b].view());
        assert(same_target(v, i, a, j, b));
    }
    if clashes(v, i) {
        let (a, j, b) = choose|a: int, j: int, b: int| #[trigger] same_target(v, i, a, j, b) && (j != i || b != a);
        assert(v[i].members[a] == items[i].members@[a].view());
        assert(v[j].members[b] == items[j].members@[b].view());
        assert(items[i].members@[a].target_path is Some);
        assert(items[j].members@[b].target_path is Some);
        let k1 = choose|k: int| 0 <= k < keys.len() && (#[trigger] keys[k]).item == i && keys[k].member == a;
        let k2 = choose|k: int| 0 <= k < keys.len() && (#[trigger] keys[k]).item == j && keys[k].member == b;
        assert(keys[k1].key@ == keys[k2].key@);
    }
}

/// Marks every group that shares a target path (letters compared without
/// case) with another member of the plan as a conflict, with an issue that
/// says so (once).
pub fn mark_duplicate_targets(items: Vec<OperationPlanItem>) -> (r: Vec<OperationPlanItem>)
    ensures
        r@.len() == items@.len(),
        forall|i: int| 0 <= i < items@.len() ==> (#[trigger] r@[i]).view() == marked(plan_item_views(items@), i),
{
    let keys = target_keys(&items);
    let ghost iv = items@;
    let ghost views = plan_item_views(items@);
    let mut flags: Vec<bool> = Vec::new();
    let mut i: usize = 0;
    while i < items.len()
        invariant
            i <= items@.len(),
            iv == items@,
            views == plan_item_views(items@),
            flags@.len() == i,
            forall|k: int| 0 <= k < keys@.len() ==> {
                let t = #[trigger] keys@[k];
                &&& t.item < items@.len()
                &&& t.member < items@[t.item as int].members@.len()
                &&& items@[t.item as int].status != OperationPlanStatus::Conflict
                &&& items@[t.item as int].members@[t.member as int].target_path is Some
                &&& t.key@ == crate::text::unicode_lowercase(items@[t.item as int].members@[t.member as int].target_path->0@)
            },
            forall|j: int, b: int|
                0 <= j < items@.len() && items@[j].status != OperationPlanStatus::Conflict && 0 <= b
                    < items@[j].members@.len() && (#[trigger] items@[j].members@[b]).target_path is Some ==> exists|k: int|
                    0 <= k < keys@.len() && (#[trigger] keys@[k]).item == j && keys@[k].member == b,
            forall|k: int| 0 <= k < i ==> (#[trigger] flags@[k]) == clashes(views, k),
        decreases items@.len() - i,
    {
        let f = item_clashes(&keys, i);
        proof {
            lemma_clash_flag(items@, keys@, i as int);
        }
        flags.push(f);
        i = i + 1;
    }
    let mut input = items;
    let mut stack: Vec<OperationPlanItem> = Vec::new();
    while input.len() > 0
        invariant
            input@.len() + stack@.len() == iv.len(),
            input@ == iv.subrange(0, input@.len() as int),
            flags@.len() == iv.len(),
            views == plan_item_views(iv),
            forall|k: int| 0 <= k < iv.len() ==> (#[trigger] flags@[k]) == clashes(views, k),
            forall|k: int| 0 <= k < stack@.len() ==> (#[trigger] stack@[k]).view() == marked(views, iv.len() - 1 - k),
        decreases input@.len(),
    {
        let ghost before = input@;
        let n = input.len() - 1;
        let mut item = input.pop().unwrap();
        assert(input@ =~= iv.subrange(0, input@.len() as int));
        assert(item == iv[n as int]);
        assert(item.view() == views[n as int]);
        if flags[n] {
            item.status = OperationPlanStatus::Conflict;
            let ghost old_issues = texts(item.issues@);
            if !any_issue_has(&item.issues, "多个成员映射到同一目标路径") {
                item.issues.push("多个成员映射到同一目标路径，禁止覆盖或自动重命名".to_owned());
                assert(texts(item.issues@) =~= old_issues.push("多个成员映射到同一目标路径，禁止覆盖或自动重命名"@));
            }
        }
        stack.push(item);
    }
    let mut out: Vec<OperationPlanItem> = Vec::new();
    while stack.len() > 0
        invariant
            out@.len() + stack@.len() == iv.len(),
            views == plan_item_views(iv),
            forall|k: int| 0 <= k < stack@.len() ==> (#[trigger] stack@[k]).view() == marked(views, iv.len() - 1 - k),
            forall|k: int| 0 <= k < out@.len() ==> (#[trigger] out@[k]).view() == marked(views, k),
        decreases stack@.len(),
    {
        let item = stack.pop().unwrap();
        out.push(item);
    }
    out
}

// ---------------------------------------------------------------------------
// Summary
// ---------------------------------------------------------------------------
pub open spec fn count_status(items: Seq<PlanItemView>, status: OperationPlanStatus) -> nat
    decreases items.len(),
{
    if items.len() == 0 {
        0
    } else {
        count_status(items.drop_last(), status) + if items.last().status == status { 1nat } else { 0nat }
    }
}

/// Ready groups whose terminal action is `action`.
pub open spec fn count_action(items: Seq<PlanItemView>, action: RuleAction) -> nat
    decreases items.len(),
{
    if items.len() == 0 {
        0
    } else {
        count_action(items.drop_last(), action) + if items.last().status == OperationPlanStatus::Ready
            && items.last().action == Some(action) {
            1nat
        } else {
            0nat
        }
    }
}

pub open spec fn count_sync(items: Seq<PlanItemView>) -> nat
    decreases items.len(),
{
    if items.len() == 0 {
        0
    } else {
        count_sync(items.drop_last()) + if items.last().sync.len() > 0 { 1nat } else { 0nat }
    }
}

pub open spec fn kind_count(members: Seq<MemberView>, kind: RuleMemberKind) -> nat
    decreases members.len(),
{
    if members.len() == 0 {
        0
    } else {
        kind_count(members.drop_last(), kind) + if members.last().kind == kind { 1nat } else { 0nat }
    }
}

/// Members of a kind over all groups of the plan.
pub open spec fn count_kind(items: Seq<PlanItemView>, kind: RuleMemberKind) -> nat
    decreases items.len(),
{
    if items.len() == 0 {
        0
    } else {
        count_kind(items.drop_last(), kind) + kind_count(items.last().members, kind)
    }
}

pub open spec fn member_bytes(members: Seq<MemberView>) -> nat
    decreases members.len(),
{
    if members.len() == 0 {
        0
    } else {
        member_bytes(members.drop_last()) + members.last().size_bytes as nat
    }
}

/// Size of the members of the ready groups whose terminal action is `action`.
pub open spec fn action_bytes(items: Seq<PlanItemView>, action: RuleAction) -> nat
    decreases items.len(),
{
    if items.len() == 0 {
        0
    } else {
        action_bytes(items.drop_last(), action) + if items.last().status == OperationPlanStatus::Ready
            && items.last().action == Some(action) {
            member_bytes(items.last().members)
        } else {
            0nat
        }
    }
}

pub open spec fn capped_u64(n: int) -> u64 {
    if n > u64::MAX { u64::MAX } else { n as u64 }
}

pub open spec fn capped_usize(n: int) -> usize {
    if n > usize::MAX { usize::MAX } else { n as usize }
}

/// The totals of a plan over its items.
pub open spec fn summary_totals(s: OperationPlanSummary, items: Seq<PlanItemView>) -> bool {
    &&& s.total_items == items.len()
    &&& s.ready == count_status(items, OperationPlanStatus::Ready)
    &&& s.kept == count_status(items, OperationPlanStatus::Keep)
    &&& s.skipped == count_status(items, OperationPlanStatus::Skipped)
    &&& s.conflicts == count_status(items, OperationPlanStatus::Conflict)
    &&& s.move_groups == count_action(items, RuleAction::Move)
    &&& s.copy_groups == count_action(items, RuleAction::Copy)
    &&& s.cleanup_groups == count_action(items, RuleAction::Cleanup)
    &&& s.sync_groups == count_sync(items)
    &&& s.jpeg_files == capped_usize(0int + count_kind(items, RuleMemberKind::Jpeg))
    &&& s.raw_files == capped_usize(0int + count_kind(items, RuleMemberKind::Raw))
    &&& s.xmp_files == capped_usize(0int + count_kind(items, RuleMemberKind::Xmp))
    &&& s.copy_bytes == capped_u64(0int + action_bytes(items, RuleAction::Copy))
    &&& s.cleanup_bytes == capped_u64(0int + action_bytes(items, RuleAction::Cleanup))
}

fn member_tally(members: &Vec<PlannedMember>, jpeg: usize, raw: usize, xmp: usize, bytes: u64) -> (r: (usize, usize, usize, u64))
    ensures
        r.0 == capped_usize(jpeg + kind_count(member_views(members@), RuleMemberKind::Jpeg)),
        r.1 == capped_usize(raw + kind_count(member_views(members@), RuleMemberKind::Raw)),
        r.2 == capped_usize(xmp + kind_count(member_views(members@), RuleMemberKind::Xmp)),
        r.3 == capped_u64(bytes + member_bytes(member_views(members@))),
{
    let ghost mv = member_views(members@);
    let mut j = jpeg;
    let mut r = raw;
    let mut x = xmp;
    let mut b = bytes;
    let mut i: usize = 0;
    while i < members.len()
        invariant
            i <= members@.len(),
            mv == member_views(members@),
            j == capped_usize(jpeg + kind_count(mv.subrange(0, i as int), RuleMemberKind::Jpeg)),
            r == capped_usize(raw + kind_count(mv.subrange(0, i as int), RuleMemberKind::Raw)),
            x == capped_usize(xmp + kind_count(mv.subrange(0, i as int), RuleMemberKind::Xmp)),
            b == capped_u64(bytes + member_bytes(mv.subrange(0, i as int))),
        decreases members@.len() - i,
    {
        assert(mv.subrange(0, i + 1).drop_last() =~= mv.subrange(0, i as int));
        assert(mv.subrange(0, i + 1).last() == members@[i as int].view());
        match members[i].kind {
            RuleMemberKind::Jpeg => j = j.saturating_add(1),
            RuleMemberKind::Raw => r = r.saturating_add(1),
            RuleMemberKind::Xmp => x = x.saturating_add(1),
        }
        b = b.saturating_add(members[i].size_bytes);
        i = i + 1;
    }
    assert(mv.subrange(0, members@.len() as int) =~= mv);
    (j, r, x, b)
}

/// The summary of a plan's items.
pub fn summarize(plan_id: String, root: String, items: Vec<OperationPlanItem>) -> (r: OperationPlanSummary)
    ensures
        r.plan_id@ == plan_id@,
        r.root@ == root@,
        plan_item_views(r.items@) == plan_item_views(items@),
        summary_totals(r, plan_item_views(items@)),
{
    let ghost v = plan_item_views(items@);
    let mut ready: usize = 0;
    let mut kept: usize = 0;
    let mut skipped: usize = 0;
    let mut conflicts: usize = 0;
    let mut moves: usize = 0;
    let mut copies: usize = 0;
    let mut cleanups: usize = 0;
    let mut syncs: usize = 0;
    let mut jpeg: usize = 0;
    let mut raw: usize = 0;
    let mut xmp: usize = 0;
    let mut copy_bytes: u64 = 0;
    let mut cleanup_bytes: u64 = 0;
    let mut i: usize = 0;
    while i < items.len()
        invariant
            i <= items@.len(),
            v == plan_item_views(items@),
            ready == count_status(v.subrange(0, i as int), OperationPlanStatus::Ready),
            kept == count_status(v.subrange(0, i as int), OperationPlanStatus::Keep),
            skipped == count_status(v.subrange(0, i as int), OperationPlanStatus::Skipped),
            conflicts == count_status(v.subrange(0, i as int), OperationPlanStatus::Conflict),
            ready + kept + skipped + conflicts == i,
            moves == count_action(v.subrange(0, i as int), RuleAction::Move),
            copies == count_action(v.subrange(0, i as int), RuleAction::Copy),
            cleanups == count_action(v.subrange(0, i as int), RuleAction::Cleanup),
            moves <= i && copies <= i && cleanups <= i,
            syncs == count_sync(v.subrange(0, i as int)),
            syncs <= i,
            jpeg == capped_usize(0int + count_kind(v.subrange(0, i as int), RuleMemberKind::Jpeg)),
            raw == capped_usize(0int + count_kind(v.subrange(0, i as int), RuleMemberKind::Raw)),
            xmp == capped_usize(0int + count_kind(v.subrange(0, i as int), RuleMemberKind::Xmp)),
            copy_bytes == capped_u64(0int + action_bytes(v.subrange(0, i as int), RuleAction::Copy)),
            cleanup_bytes == capped_u64(0int + action_bytes(v.subrange(0, i as int), RuleAction::Cleanup)),
        decreases items@.len() - i,
    {
        let ghost pre = v.subrange(0, i as int);
        assert(v.subrange(0, i + 1).drop_last() =~= pre);
        let item = &items[i];
        assert(v.subrange(0, i + 1).last() == item.view());
        match item.status {
            OperationPlanStatus::Ready => ready = ready + 1,
            OperationPlanStatus::Keep => kept = kept + 1,
            OperationPlanStatus::Skipped => skipped = skipped + 1,
            OperationPlanStatus::Conflict => conflicts = conflicts + 1,
        }
        if item.sync_actions.len() > 0 {
            syncs = syncs + 1;
        }
        let (j, r, x, _b) = member_tally(&item.members, jpeg, raw, xmp, 0);
        jpeg = j;
        raw = r;
        xmp = x;
        if item.status == OperationPlanStatus::Ready {
            match item.terminal_action {
                Some(RuleAction::Move) => moves = moves + 1,
                Some(RuleAction::Copy) => {
                    copies = copies + 1;
                    let (_j, _r, _x, b) = member_tally(&item.members, 0, 0, 0, copy_bytes);
                    copy_bytes = b;
                },
                Some(RuleAction::Cleanup) => {
                    cleanups = cleanups + 1;
                    let (_j, _r, _x, b) = member_tally(&item.members, 0, 0, 0, cleanup_bytes);
                    cleanup_bytes = b;
                },
                _ => {},
            }
        }
        i = i + 1;
    }
    assert(v.subrange(0, items@.len() as int) =~= v);
    let total = items.len();
    OperationPlanSummary {
        plan_id,
        root,
        total_items: total,
        ready,
        kept,
        skipped,
        conflicts,
        move_groups: moves,
        copy_groups: copies,
        cleanup_groups: cleanups,
        sync_groups: syncs,
        jpeg_files: jpeg,
        raw_files: raw,
        xmp_files: xmp,
        copy_bytes,
        cleanup_bytes,
        items,
    }
}

// ---------------------------------------------------------------------------
// Building a plan
// ---------------------------------------------------------------------------
/// A rule that sends files to a destination directory.
pub open spec fn needs_destination(rule: RatingRule) -> bool {
    rule.enabled && moves_files(rule.action)
}

/// A destination may be neither the photo directory, nor inside it, nor around it.
pub open spec fn destination_overlaps(destination: Seq<char>, root: Seq<char>) -> bool {
    path_has_prefix(destination, root) || path_has_prefix(root, destination)
}

pub open spec fn overlap_message(rule: RatingRule) -> Seq<char> {
    "规则“"@ + rule.name@ + "”的目标目录与照片目录不能相同或互相嵌套"@
}

/// Checks the canonical destination of a copy or move rule against the
/// canonical photo directory.
pub fn check_destination(rule: &RatingRule, destination: &str, root: &str) -> (r: Result<(), String>)
    ensures
        destination_overlaps(destination@, root@) ==> (r matches Err(e) && e@ == overlap_message(*rule)),
        !destination_overlaps(destination@, root@) ==> r is Ok,
{
    if paths_same_or_nested(destination, root) {
        return Err(crate::text::concat3("规则“", rule.name.as_str(), "”的目标目录与照片目录不能相同或互相嵌套"));
    }
    Ok(())
}

fn paths_same_or_nested(destination: &str, root: &str) -> (r: bool)
    ensures
        r == destination_overlaps(destination@, root@),
{
    path_starts_with(destination, root) || path_starts_with(root, destination)
}

/// The first rule, in order, whose destination overlaps the photo directory.
pub open spec fn destination_error(rules: Seq<RatingRule>, destinations: Seq<Option<String>>, root: Seq<char>, n: nat) -> Option<Seq<char>>
    decreases n,
{
    if n == 0 {
        None
    } else {
        let rest = destination_error(rules, destinations, root, (n - 1) as nat);
        let rule = rules[n - 1];
        if rest is Some {
            rest
        } else if needs_destination(rule) && destinations[n - 1] is Some && destination_overlaps(
            destinations[n - 1]->0@,
            root,
        ) {
            Some(overlap_message(rule))
        } else {
            None
        }
    }
}

proof fn lemma_destination_error_prefix(rules: Seq<RatingRule>, destinations: Seq<Option<String>>, root: Seq<char>, n: nat, m: nat)
    requires
        n <= m,
        destination_error(rules, destinations, root, n) is Some,
    ensures
        destination_error(rules, destinations, root, m) == destination_error(rules, destinations, root, n),
    decreases m,
{
    if n < m {
        lemma_destination_error_prefix(rules, destinations, root, n, (m - 1) as nat);
    }
}

/// Why the rating-sync preference of a plan is unusable, if it is.
pub open spec fn plan_sync_error(preference: OperationSyncPreference) -> Option<Seq<char>> {
    if preference.enabled && !preference.targets.raw_xmp && !preference.targets.jpeg_metadata {
        Some("启用评分同步预览时必须至少选择一个目标"@)
    } else if preference.enabled && preference.targets.jpeg_metadata && !preference.jpeg_write_confirmed {
        Some("启用 JPG 元数据同步前必须明确确认"@)
    } else {
        None
    }
}

pub fn check_plan_sync(preference: OperationSyncPreference) -> (r: Result<(), String>)
    ensures
        match plan_sync_error(preference) {
            Some(e) => r matches Err(m) && m@ == e,
            None => r is Ok,
        },
{
    if preference.enabled {
        if !preference.targets.raw_xmp && !preference.targets.jpeg_metadata {
            return Err("启用评分同步预览时必须至少选择一个目标".to_owned());
        }
        if preference.targets.jpeg_metadata && !preference.jpeg_write_confirmed {
            return Err("启用 JPG 元数据同步前必须明确确认".to_owned());
        }
    }
    Ok(())
}

/// Why a plan request cannot be planned, if it cannot. `root` and
/// `index_root` are the canonical requested and indexed directories, and
/// `destinations[i]` the canonical destination of the `i`-th rule.
pub open spec fn plan_error(
    request: OperationPlanRequest,
    plan_id: Seq<char>,
    root: Seq<char>,
    index_root: Seq<char>,
    destinations: Seq<Option<String>>,
) -> Option<Seq<char>> {
    let rules = request.rules@;
    if crate::text::is_blank(plan_id) {
        Some("评分整理计划 ID 不能为空"@)
    } else if crate::rating_rules::rule_set_error(rules) is Some {
        crate::rating_rules::rule_set_error(rules)
    } else if rules.len() == 0 {
        Some("请至少创建一条评分规则"@)
    } else if !crate::paths::same_path(root, index_root) {
        Some("评分整理目录与照片索引不一致"@)
    } else if destination_error(rules, destinations, root, rules.len()) is Some {
        destination_error(rules, destinations, root, rules.len())
    } else {
        plan_sync_error(request.sync)
    }
}

/// The rule the plan uses: the requested rule, with the canonical
/// destination (shown with `/`) for a rule that sends files somewhere.
pub open spec fn prepared(p: RatingRule, r: RatingRule, destination: Option<String>) -> bool {
    &&& p.id@ == r.id@
    &&& p.name@ == r.name@
    &&& p.enabled == r.enabled
    &&& p.condition == r.condition
    &&& p.member_scope@ == r.member_scope@
    &&& p.action == r.action
    &&& p.preserve_relative_path == r.preserve_relative_path
    &&& opt_text(p.destination) == if needs_destination(r) {
        Some(forward_slashes(destination->0@))
    } else {
        opt_text(r.destination)
    }
}

pub open spec fn sorted_by_group(s: Seq<PlanItemView>) -> bool {
    forall|i: int, j: int| 0 <= i < j < s.len() ==> crate::text::text_le(#[trigger] s[i].group_id, #[trigger] s[j].group_id)
}

proof fn lemma_plan_views_multiset(a: Seq<OperationPlanItem>, b: Seq<OperationPlanItem>)
    requires
        a.to_multiset() == b.to_multiset(),
    ensures
        plan_item_views(a).to_multiset() == plan_item_views(b).to_multiset(),
{
    crate::sorting::lemma_map_multiset(a, b, |i: OperationPlanItem| i.view());
    assert(plan_item_views(a) =~= a.map_values(|i: OperationPlanItem| i.view()));
    assert(plan_item_views(b) =~= b.map_values(|i: OperationPlanItem| i.view()));
}

fn sort_by_group(items: Vec<OperationPlanItem>) -> (r: Vec<OperationPlanItem>)
    ensures
        plan_item_views(r@).to_multiset() == plan_item_views(items@).to_multiset(),
        sorted_by_group(plan_item_views(r@)),
{
    let mut keyed: Vec<Keyed<OperationPlanItem>> = Vec::new();
    let mut input = items;
    let ghost original = input@;
    while input.len() > 0
        invariant
            values_of(keyed@).to_multiset().add(input@.to_multiset()) == original.to_multiset(),
            forall|i: int| 0 <= i < keyed@.len() ==> (#[trigger] keyed@[i]).key@ == keyed@[i].value.group_id@,
        decreases input@.len(),
    {
        let ghost before = input@;
        let ghost kb = keyed@;
        let item = input.pop().unwrap();
        proof {
            assert(before =~= input@.push(item));
            vstd::seq_lib::to_multiset_build(input@, item);
        }
        let key = chars_of(item.group_id.as_str());
        keyed.push(Keyed { key, value: item });
        proof {
            assert(values_of(keyed@) =~= values_of(kb).push(item));
            vstd::seq_lib::to_multiset_build(values_of(kb), item);
        }
    }
    let ghost kv = keyed@;
    let sorted = sort_keyed(keyed);
    let ghost sv = sorted@;
    let out = into_values(sorted);
    proof {
        assert(input@.to_multiset() =~= vstd::multiset::Multiset::empty());
        assert(values_of(kv).to_multiset().add(input@.to_multiset()) =~= values_of(kv).to_multiset());
        lemma_plan_views_multiset(out@, original);
        assert forall|i: int, j: int| 0 <= i < j < out@.len() implies crate::text::text_le(
            #[trigger] plan_item_views(out@)[i].group_id,
            #[trigger] plan_item_views(out@)[j].group_id,
        ) by {
            assert(kv.contains(sv[i]));
            assert(kv.contains(sv[j]));
            assert(crate::text::text_le(sv[i].key@, sv[j].key@));
        }
    }
    out
}

/// The plan items of every group, in index order.
pub open spec fn planned_items(
    assets: Seq<PhotoAsset>,
    rules: Seq<RatingRule>,
    policy: RatingConflictPolicy,
    preference: OperationSyncPreference,
    root: Seq<char>,
    probes: Seq<TargetProbe>,
) -> Seq<PlanItemView> {
    Seq::new(assets.len(), |i: int| plan_item(assets[i], rules, policy, preference, root, probes))
}

/// Builds an organizer plan. `root` and `index_root` are the canonical
/// requested and indexed directories, `destinations[i]` the canonical
/// destination of the `i`-th rule (for the rules that send files
/// somewhere), and `probes` what the file system said of the target paths.
/// Items come out ordered by group id, groups sharing a target marked.
pub fn build_operation_plan(
    index: &PhotoIndex,
    request: &OperationPlanRequest,
    plan_id: String,
    root: &str,
    index_root: &str,
    destinations: &Vec<Option<String>>,
    probes: &Vec<TargetProbe>,
) -> (r: Result<OperationPlan, String>)
    requires
        destinations@.len() == request.rules@.len(),
        forall|i: int| 0 <= i < request.rules@.len() && needs_destination(#[trigger] request.rules@[i]) ==> destinations@[i] is Some,
    ensures
        match plan_error(*request, plan_id@, root@, index_root@, destinations@) {
            Some(e) => r matches Err(m) && m@ == e,
            None => r matches Ok(plan) && {
                let expected = planned_items(index.assets@, plan.rules@, request.conflict_policy, request.sync, root@, probes@);
                let shown = plan_item_views(plan.summary.items@);
                &&& plan.rules@.len() == request.rules@.len()
                &&& forall|i: int| 0 <= i < request.rules@.len() ==> prepared(#[trigger] plan.rules@[i], request.rules@[i], destinations@[i])
                &&& plan.sync == request.sync
                &&& plan.summary.plan_id@ == plan_id@
                &&& plan.summary.root@ == forward_slashes(root@)
                &&& summary_totals(plan.summary, shown)
                &&& exists|sorted: Seq<PlanItemView>| {
                    &&& sorted.to_multiset() == expected.to_multiset()
                    &&& sorted_by_group(sorted)
                    &&& shown == Seq::new(sorted.len(), |i: int| marked(sorted, i))
                }
            },
        },
{
    if crate::text::is_blank_str(plan_id.as_str()) {
        return Err("评分整理计划 ID 不能为空".to_owned());
    }
    let validated = crate::rating_rules::validate_rule_set(&request.rules)?;
    if validated.len() == 0 {
        return Err("请至少创建一条评分规则".to_owned());
    }
    if !crate::paths::paths_equal(root, index_root) {
        return Err("评分整理目录与照片索引不一致".to_owned());
    }
    let ghost rv = request.rules@;
    let ghost dv = destinations@;
    let mut rules: Vec<RatingRule> = Vec::new();
    let mut i: usize = 0;
    while i < validated.len()
        invariant
            i <= validated@.len(),
            validated@.len() == rv.len(),
            rv == request.rules@,
            dv == destinations@,
            dv.len() == rv.len(),
            forall|k: int| 0 <= k < rv.len() && needs_destination(#[trigger] rv[k]) ==> dv[k] is Some,
            forall|k: int| 0 <= k < rv.len() ==> crate::rating_rules::same_rule(#[trigger] validated@[k], rv[k]),
            destination_error(rv, dv, root@, i as nat) is None,
            !crate::text::is_blank(plan_id@),
            crate::rating_rules::rule_set_error(rv) is None,
            rv.len() > 0,
            crate::paths::same_path(root@, index_root@),
            rules@.len() == i,
            forall|k: int| 0 <= k < i ==> prepared(#[trigger] rules@[k], rv[k], dv[k]),
        decreases validated@.len() - i,
    {
        let mut rule = crate::rating_rules::copy_rule(&validated[i]);
        assert(crate::rating_rules::same_rule(validated@[i as int], rv[i as int]));
        if rule.enabled && (rule.action == RuleAction::Copy || rule.action == RuleAction::Move) {
            let destination = match &destinations[i] {
                Some(d) => d.clone(),
                None => String::new(),
            };
            if let Err(e) = check_destination(&rule, destination.as_str(), root) {
                proof {
                    assert(destination_error(rv, dv, root@, (i + 1) as nat) == Some(overlap_message(rv[i as int])));
                    lemma_destination_error_prefix(rv, dv, root@, (i + 1) as nat, rv.len());
                }
                return Err(e);
            }
            rule.destination = Some(forward_slash_string(destination.as_str()));
        }
        rules.push(rule);
        i = i + 1;
    }
    check_plan_sync(request.sync)?;
    let ghost av = index.assets@;
    let mut items: Vec<OperationPlanItem> = Vec::new();
    let mut n: usize = 0;
    while n < index.assets.len()
        invariant
            n <= av.len(),
            av == index.assets@,
            items@.len() == n,
            forall|k: int| 0 <= k < n ==> (#[trigger] items@[k]).view() == plan_item(av[k], rules@, request.conflict_policy, request.sync, root@, probes@),
        decreases av.len() - n,
    {
        let item = plan_group(&index.assets[n], &rules, request.conflict_policy, request.sync, root, probes);
        items.push(item);
        n = n + 1;
    }
    let ghost expected = planned_items(av, rules@, request.conflict_policy, request.sync, root@, probes@);
    assert(plan_item_views(items@) =~= expected);
    let sorted_items = sort_by_group(items);
    let ghost sorted = plan_item_views(sorted_items@);
    let marked_items = mark_duplicate_targets(sorted_items);
    assert(plan_item_views(marked_items@) =~= Seq::new(sorted.len(), |i: int| marked(sorted, i)));
    let summary = summarize(plan_id, forward_slash_string(root), marked_items);
    Ok(OperationPlan { summary, rules, sync: request.sync })
}

/// After duplicate targets are marked, two different members of groups that
/// were not in conflict never go to the same target (letters compared
/// without case): both groups are in conflict, so nothing is overwritten or
/// renamed.
pub proof fn shared_targets_block_both_groups(items: Seq<PlanItemView>, i: int, a: int, j: int, b: int)
    requires
        same_target(items, i, a, j, b),
        j != i || b != a,
    ensures
        marked(items, i).status == OperationPlanStatus::Conflict,
        marked(items, j).status == OperationPlanStatus::Conflict,
        marked(items, i).members == items[i].members,
        marked(items, j).members == items[j].members,
{
    assert(clashes(items, i));
    assert(same_target(items, j, b, i, a));
    assert(clashes(items, j));
}

} // verus!
