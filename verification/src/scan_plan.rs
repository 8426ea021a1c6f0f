//! The one plan a scan leaves behind. A scan replaces whatever plan was
//! there; a cleanup takes the plan out, so each plan is used at most once,
//! and only for the scan, RAW root and mode it was made for.

use vstd::prelude::*;
use crate::pair_scan::{FileKind, MatchStatus, ScanItem, ScanMode};
use crate::safety::{entries_map, CleanupPlan, FileSnapshot};
use crate::safety::texts;

verus! {

/// The plan of the latest scan: what a cleanup may remove, the scan's mode,
/// and, for an audit, the reference files without a RAW.
#[derive(Debug)]
pub struct CurrentScanPlan {
    pub cleanup: CleanupPlan,
    pub mode: ScanMode,
    pub audit_paths: Vec<String>,
}

/// The files a cleanup scan allows to be removed: its unmatched items, each
/// with the size and time the scan saw.
pub open spec fn scan_candidates(items: Seq<ScanItem>, mode: ScanMode) -> Seq<(String, FileSnapshot)>
    decreases items.len(),
{
    if items.len() == 0 {
        seq![]
    } else {
        let rest = scan_candidates(items.drop_last(), mode);
        let it = items.last();
        if mode == ScanMode::CleanupRaw && it.match_status == MatchStatus::Unmatched {
            rest.push((it.relative_path, FileSnapshot { size_bytes: it.size_bytes, modified_ms: it.modified_ms }))
        } else {
            rest
        }
    }
}

/// The reference files of an audit that have no RAW.
pub open spec fn scan_audit_paths(items: Seq<ScanItem>, mode: ScanMode) -> Seq<Seq<char>>
    decreases items.len(),
{
    if items.len() == 0 {
        seq![]
    } else {
        let rest = scan_audit_paths(items.drop_last(), mode);
        let it = items.last();
        if mode == ScanMode::AuditReference && it.match_status == MatchStatus::Unmatched && it.kind == FileKind::Reference {
            rest.push(it.relative_path@)
        } else {
            rest
        }
    }
}

pub open spec fn candidate_views(s: Seq<(String, FileSnapshot)>) -> Seq<(Seq<char>, FileSnapshot)> {
    s.map_values(|c: (String, FileSnapshot)| (c.0@, c.1))
}

/// The plan a scan leaves: made for `plan_id` and `raw_root`.
pub fn scan_plan(items: &Vec<ScanItem>, mode: ScanMode, plan_id: String, raw_root: String) -> (r: CurrentScanPlan)
    ensures
        r.cleanup.id_text() == plan_id@,
        r.cleanup.root_text() == raw_root@,
        exists|c: Seq<(String, FileSnapshot)>| candidate_views(c) == candidate_views(scan_candidates(items@, mode))
            && r.cleanup.candidate_map() == entries_map(c),
        r.mode == mode,
        texts(r.audit_paths@) == scan_audit_paths(items@, mode),
{
    let mut candidates: Vec<(String, FileSnapshot)> = Vec::new();
    let mut audit: Vec<String> = Vec::new();
    let mut i: usize = 0;
    while i < items.len()
        invariant
            i <= items@.len(),
            candidate_views(candidates@) == candidate_views(scan_candidates(items@.subrange(0, i as int), mode)),
            texts(audit@) == scan_audit_paths(items@.subrange(0, i as int), mode),
        decreases items@.len() - i,
    {
        assert(items@.subrange(0, i + 1).drop_last() =~= items@.subrange(0, i as int));
        let it = &items[i];
        let ghost before_c = candidates@;
        let ghost before_a = audit@;
        if mode == ScanMode::CleanupRaw && it.match_status == MatchStatus::Unmatched {
            let entry = (it.relative_path.clone(), FileSnapshot::new(it.size_bytes, it.modified_ms));
            candidates.push(entry);
            assert(candidate_views(candidates@) =~= candidate_views(before_c).push((entry.0@, entry.1)));
            assert(candidate_views(scan_candidates(items@.subrange(0, i + 1), mode)) =~= candidate_views(
                scan_candidates(items@.subrange(0, i as int), mode),
            ).push((it.relative_path@, FileSnapshot { size_bytes: it.size_bytes, modified_ms: it.modified_ms })));
        }
        if mode == ScanMode::AuditReference && it.match_status == MatchStatus::Unmatched && it.kind == FileKind::Reference {
            let path = it.relative_path.clone();
            audit.push(path);
            assert(texts(audit@) =~= texts(before_a).push(path@));
        }
        i = i + 1;
    }
    assert(items@.subrange(0, items@.len() as int) =~= items@);
    CurrentScanPlan { cleanup: CleanupPlan::new(plan_id, raw_root, candidates), mode, audit_paths: audit }
}

/// Holds the plan of the latest scan, if any.
pub struct ScanPlanSlot {
    current: Option<CurrentScanPlan>,
}

/// A cleanup request may take the slot's plan: there is one, it is a
/// cleanup scan's, and it was made for this plan id and RAW root.
pub open spec fn may_take(plan: Option<CurrentScanPlan>, plan_id: Seq<char>, raw_root: Seq<char>) -> bool {
    plan matches Some(p) && p.mode == ScanMode::CleanupRaw && p.cleanup.is_for(plan_id, raw_root)
}

impl ScanPlanSlot {
    /// The plan the slot holds.
    pub closed spec fn plan(&self) -> Option<CurrentScanPlan> {
        self.current
    }

    /// An empty slot.
    pub fn new() -> (r: ScanPlanSlot)
        ensures
            r.plan() is None,
    {
        ScanPlanSlot { current: None }
    }

    /// A scan starts: the plan of the previous scan is dropped.
    pub fn clear(&mut self)
        ensures
            final(self).plan() is None,
    {
        self.current = None;
    }

    /// A scan finished: its plan replaces whatever the slot held.
    pub fn replace(&mut self, plan: CurrentScanPlan)
        ensures
            final(self).plan() == Some(plan),
    {
        self.current = Some(plan);
    }

    /// Takes the cleanup plan for a request, which empties the slot; a
    /// request that may not take it leaves the slot as it was.
    pub fn take_cleanup(&mut self, plan_id: &str, raw_root: &str) -> (r: Result<CleanupPlan, String>)
        ensures
            r is Ok <==> may_take(old(self).plan(), plan_id@, raw_root@),
            r matches Ok(p) ==> old(self).plan() matches Some(q) && p == q.cleanup && final(self).plan() is None,
            r is Err ==> final(self).plan() == old(self).plan(),
            old(self).plan() is None ==> (r matches Err(e) && e@ == "清理计划不存在，请重新扫描"@),
            old(self).plan() matches Some(q) && q.mode != ScanMode::CleanupRaw ==> (r matches Err(e) && e@
                == "当前是只读审计计划，不能执行清理"@),
            old(self).plan() matches Some(q) && q.mode == ScanMode::CleanupRaw && !q.cleanup.is_for(plan_id@, raw_root@)
                ==> (r matches Err(e) && e@ == "清理计划已失效或 RAW 源目录不匹配，请重新扫描"@),
    {
        let ok = match &self.current {
            None => return Err("清理计划不存在，请重新扫描".to_owned()),
            Some(p) => {
                if p.mode != ScanMode::CleanupRaw {
                    return Err("当前是只读审计计划，不能执行清理".to_owned());
                }
                p.cleanup.matches(plan_id, raw_root)
            },
        };
        if !ok {
            return Err("清理计划已失效或 RAW 源目录不匹配，请重新扫描".to_owned());
        }
        match self.current.take() {
            Some(p) => Ok(p.cleanup),
            None => Err("清理计划不存在，请重新扫描".to_owned()),
        }
    }

    /// The audit paths of the slot's plan, for an audit made for this plan
    /// id and RAW root.
    pub fn audit_paths(&self, plan_id: &str, raw_root: &str) -> (r: Result<Vec<String>, String>)
        ensures
            self.plan() is None ==> (r matches Err(e) && e@ == "审计计划不存在，请重新扫描"@),
            self.plan() matches Some(q) && q.mode != ScanMode::AuditReference ==> (r matches Err(e) && e@
                == "当前计划不是反向审计计划"@),
            self.plan() matches Some(q) && q.mode == ScanMode::AuditReference && !q.cleanup.is_for(plan_id@, raw_root@)
                ==> (r matches Err(e) && e@ == "审计计划已失效或 RAW 源目录不匹配，请重新扫描"@),
            self.plan() matches Some(q) && q.mode == ScanMode::AuditReference && q.cleanup.is_for(plan_id@, raw_root@)
                ==> (r matches Ok(v) && texts(v@) == texts(self.plan()->0.audit_paths@)),
    {
        match &self.current {
            None => Err("审计计划不存在，请重新扫描".to_owned()),
            Some(p) => {
                if p.mode != ScanMode::AuditReference {
                    return Err("当前计划不是反向审计计划".to_owned());
                }
                if !p.cleanup.matches(plan_id, raw_root) {
                    return Err("审计计划已失效或 RAW 源目录不匹配，请重新扫描".to_owned());
                }
                Ok(crate::safety::copy_strings(&p.audit_paths))
            },
        }
    }
}

/// A new scan invalidates the plan of the previous one: once a scan's plan
/// for another plan id has replaced it, a cleanup request for the old plan
/// id cannot take a plan, and once a cleanup took a plan, no second request
/// can take it.
pub proof fn new_scan_invalidates_old_plan(
    newer: CurrentScanPlan,
    old_plan_id: Seq<char>,
    raw_root: Seq<char>,
)
    requires
        newer.cleanup.id_text() != old_plan_id,
    ensures
        !may_take(Some(newer), old_plan_id, raw_root),
        !may_take(None, old_plan_id, raw_root),
{
}

} // verus!
