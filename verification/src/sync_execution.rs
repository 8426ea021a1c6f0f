//! Executing a rating synchronisation plan: which writes a request may
//! run, where each may write, and whether its target is still what the plan
//! saw. The writes themselves happen outside.

use vstd::prelude::*;
use crate::formats::{ext_key, extension_of};
use crate::paths::{is_safe_relative, safe_relative_path};
use crate::rating_sync::{contains_text, texts_distinct, PlannedRatingWrite, RatingSyncPlan, RatingSyncTarget, TargetSnapshot};
use crate::safety::texts;
use crate::text::{chars_eq_str, chars_of};

verus! {

/// The request must name the plan that is current.
pub fn check_sync_plan_id(plan: &RatingSyncPlan, plan_id: &str) -> (r: Result<(), String>)
    ensures
        r is Ok <==> plan.summary.plan_id@ == plan_id@,
        r matches Err(e) ==> e@ == "评分同步计划已失效，请重新生成"@,
{
    let a = chars_of(plan.summary.plan_id.as_str());
    if !chars_eq_str(&a, plan_id) {
        return Err("评分同步计划已失效，请重新生成".to_owned());
    }
    Ok(())
}

pub open spec fn write_assets(writes: Seq<PlannedRatingWrite>) -> Seq<Seq<char>> {
    writes.map_values(|w: PlannedRatingWrite| w.asset_id@)
}

/// Why a selection of groups cannot run, if it cannot: it must be
/// non-empty, without repeats, and hold only groups the plan writes to.
pub open spec fn selection_error(writes: Seq<PlannedRatingWrite>, selected: Seq<Seq<char>>) -> Option<Seq<char>> {
    if selected.len() == 0 {
        Some("请至少选择一个可执行照片组"@)
    } else if !selected.no_duplicates() {
        Some("评分同步执行范围包含重复照片组"@)
    } else if exists|i: int| 0 <= i < selected.len() && !write_assets(writes).contains(#[trigger] selected[i]) {
        Some("执行范围包含未被当前计划授权的照片组"@)
    } else {
        None
    }
}

fn planned_asset(writes: &Vec<PlannedRatingWrite>, id: &String) -> (r: bool)
    ensures
        r == write_assets(writes@).contains(id@),
{
    let ghost wa = write_assets(writes@);
    let mut i: usize = 0;
    while i < writes.len()
        invariant
            i <= writes@.len(),
            wa == write_assets(writes@),
            forall|k: int| 0 <= k < i ==> wa[k] != id@,
        decreases writes@.len() - i,
    {
        if writes[i].asset_id == *id {
            assert(wa[i as int] == id@);
            return true;
        }
        i = i + 1;
    }
    false
}

/// Checks the groups a request selects.
pub fn check_sync_selection(plan: &RatingSyncPlan, asset_ids: &Vec<String>) -> (r: Result<(), String>)
    ensures
        match selection_error(plan.writes@, texts(asset_ids@)) {
            Some(e) => r matches Err(m) && m@ == e,
            None => r is Ok,
        },
{
    let ghost sel = texts(asset_ids@);
    if asset_ids.len() == 0 {
        return Err("请至少选择一个可执行照片组".to_owned());
    }
    if !texts_distinct(asset_ids) {
        return Err("评分同步执行范围包含重复照片组".to_owned());
    }
    let mut i: usize = 0;
    while i < asset_ids.len()
        invariant
            i <= asset_ids@.len(),
            sel == texts(asset_ids@),
            sel.len() > 0,
            sel.no_duplicates(),
            forall|k: int| 0 <= k < i ==> write_assets(plan.writes@).contains(#[trigger] sel[k]),
        decreases asset_ids@.len() - i,
    {
        if !planned_asset(&plan.writes, &asset_ids[i]) {
            assert(!write_assets(plan.writes@).contains(sel[i as int]));
            return Err("执行范围包含未被当前计划授权的照片组".to_owned());
        }
        i = i + 1;
    }
    Ok(())
}

/// The positions of the planned writes whose group is selected, in order.
pub fn selected_writes(plan: &RatingSyncPlan, asset_ids: &Vec<String>) -> (r: Vec<usize>)
    ensures
        forall|k: int| 0 <= k < r@.len() ==> r@[k] < plan.writes@.len(),
        forall|k: int, l: int| 0 <= k < l < r@.len() ==> r@[k] < r@[l],
        forall|i: int| 0 <= i < plan.writes@.len() ==> (r@.contains(i as usize) <==> texts(asset_ids@).contains(
            #[trigger] plan.writes@[i].asset_id@,
        )),
{
    let mut out: Vec<usize> = Vec::new();
    let mut i: usize = 0;
    while i < plan.writes.len()
        invariant
            i <= plan.writes@.len(),
            forall|k: int| 0 <= k < out@.len() ==> out@[k] < i,
            forall|k: int, l: int| 0 <= k < l < out@.len() ==> out@[k] < out@[l],
            forall|j: int| 0 <= j < i ==> (out@.contains(j as usize) <==> texts(asset_ids@).contains(
                #[trigger] plan.writes@[j].asset_id@,
            )),
        decreases plan.writes@.len() - i,
    {
        let ghost before = out@;
        if contains_text(asset_ids, plan.writes[i].asset_id.as_str()) {
            out.push(i);
        }
        proof {
            assert forall|j: int| 0 <= j < i + 1 implies (out@.contains(j as usize) <==> texts(asset_ids@).contains(
                #[trigger] plan.writes@[j].asset_id@,
            )) by {
                if j < i {
                    if out@.contains(j as usize) {
                        let k = choose|k: int| 0 <= k < out@.len() && out@[k] == j as usize;
                        if k == before.len() {
                            assert(out@[k] == i);
                        } else {
                            assert(before[k] == j as usize);
                        }
                    }
                    if before.contains(j as usize) {
                        let k = choose|k: int| 0 <= k < before.len() && before[k] == j as usize;
                        assert(out@[k] == j as usize);
                    }
                } else {
                    if out@.contains(j as usize) {
                        let k = choose|k: int| 0 <= k < out@.len() && out@[k] == j as usize;
                        if k < before.len() {
                            assert(before[k] < i);
                        }
                    }
                    if texts(asset_ids@).contains(plan.writes@[j].asset_id@) {
                        assert(out@[before.len() as int] == i);
                    }
                }
            }
        }
        i = i + 1;
    }
    out
}

// ---------------------------------------------------------------------------
// Targets
// ---------------------------------------------------------------------------
/// Why a write may not go to `relative_path`, if it may not: the path must
/// be a safe relative path with the extension of its kind of target.
pub open spec fn target_path_error(relative_path: Seq<char>, target: RatingSyncTarget) -> Option<Seq<char>> {
    if !is_safe_relative(relative_path) {
        Some("评分同步目标必须是安全相对路径"@)
    } else if !(match target {
        RatingSyncTarget::RawXmp => ext_key(relative_path) == "xmp"@,
        RatingSyncTarget::JpegMetadata => ext_key(relative_path) == "jpg"@ || ext_key(relative_path) == "jpeg"@,
    }) {
        Some("评分同步目标扩展名与计划类型不一致"@)
    } else {
        None
    }
}

/// Checks where a planned write goes.
pub fn check_sync_target(relative_path: &str, target: RatingSyncTarget) -> (r: Result<(), String>)
    ensures
        match target_path_error(relative_path@, target) {
            Some(e) => r matches Err(m) && m@ == e,
            None => r is Ok,
        },
{
    if safe_relative_path(relative_path, "").is_err() {
        return Err("评分同步目标必须是安全相对路径".to_owned());
    }
    let extension = extension_of(relative_path);
    let e = chars_of(extension.as_str());
    let fits = match target {
        RatingSyncTarget::RawXmp => chars_eq_str(&e, "xmp"),
        RatingSyncTarget::JpegMetadata => chars_eq_str(&e, "jpg") || chars_eq_str(&e, "jpeg"),
    };
    if !fits {
        return Err("评分同步目标扩展名与计划类型不一致".to_owned());
    }
    Ok(())
}

/// What the file system says of a write target now.
#[derive(Debug, Clone, Copy, PartialEq, Eq, Structural)]
pub enum TargetState {
    /// Nothing is there.
    Missing,
    /// It cannot be inspected.
    Unreadable,
    /// Something is there; `regular` when it is a regular file, not a link.
    Found { regular: bool, size_bytes: u64, modified_ms: Option<u64> },
}

/// Why a target no longer fits the plan, if it does not: an absent target
/// must still be missing; an existing one must be the same regular file.
pub open spec fn snapshot_error(expected: TargetSnapshot, now: TargetState) -> Option<Seq<char>> {
    match expected {
        TargetSnapshot::Absent => match now {
            TargetState::Missing => None,
            _ => Some("同步目标在计划生成后发生变化"@),
        },
        TargetSnapshot::Existing { size_bytes, modified_ms } => match now {
            TargetState::Found { regular, size_bytes: s, modified_ms: m } => if !regular {
                Some("同步目标在计划生成后发生变化或不再是普通文件"@)
            } else if s != size_bytes || m != modified_ms {
                Some("同步目标在计划生成后发生变化"@)
            } else {
                None
            },
            _ => Some("同步目标在计划生成后发生变化或已不存在"@),
        },
    }
}

/// Checks that a target is still in the state the plan saw.
pub fn revalidate_snapshot(expected: &TargetSnapshot, now: TargetState) -> (r: Result<(), String>)
    ensures
        match snapshot_error(*expected, now) {
            Some(e) => r matches Err(m) && m@ == e,
            None => r is Ok,
        },
{
    match expected {
        TargetSnapshot::Absent => match now {
            TargetState::Missing => Ok(()),
            _ => Err("同步目标在计划生成后发生变化".to_owned()),
        },
        TargetSnapshot::Existing { size_bytes, modified_ms } => match now {
            TargetState::Found { regular, size_bytes: s, modified_ms: m } => {
                if !regular {
                    Err("同步目标在计划生成后发生变化或不再是普通文件".to_owned())
                } else if s != *size_bytes || m != *modified_ms {
                    Err("同步目标在计划生成后发生变化".to_owned())
                } else {
                    Ok(())
                }
            },
            _ => Err("同步目标在计划生成后发生变化或已不存在".to_owned()),
        },
    }
}

} // verus!
