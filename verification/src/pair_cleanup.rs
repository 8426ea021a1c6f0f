//! Pair cleanup: turning a scan's authorised plan into the removal of RAW
//! files and sidecars, to the system trash or to the FramePair quarantine.
//!
//! The interface only ever sends a plan id and the chosen items; paths and
//! actions come from the authorised plan.

use vstd::prelude::*;
use crate::formats::{ext_key, extension_of, is_raw, is_raw_path, is_sidecar, is_sidecar_path};
use crate::paths::{is_absolute, is_safe_relative, path_has_prefix, path_starts_with, safe_relative_path};
use crate::safety::{CleanupPlan, FileSnapshot};
use crate::text::{concat, concat3, is_blank};

verus! {

/// One file the user chose to remove, with the facts the scan showed.
#[derive(Debug)]
pub struct CleanupCandidate {
    pub relative_path: String,
    pub expected_size_bytes: u64,
    pub expected_modified_ms: Option<u64>,
}

/// Where removed files go.
#[derive(Debug, Clone, Copy, PartialEq, Eq, Structural)]
pub enum CleanupDestination {
    Trash,
    Quarantine,
}

#[derive(Debug)]
pub struct CleanupRequest {
    pub plan_id: String,
    pub raw_root: String,
    pub destination: CleanupDestination,
    pub items: Vec<CleanupCandidate>,
}

#[derive(Debug)]
pub struct CleanupResult {
    pub relative_path: String,
    pub success: bool,
    pub message: String,
}

#[derive(Debug)]
pub struct CleanupSummary {
    pub succeeded: usize,
    pub failed: usize,
    pub destination: CleanupDestination,
    pub operation_id: Option<String>,
    pub quarantine_path: Option<String>,
    pub results: Vec<CleanupResult>,
    pub log_path: Option<String>,
    pub log_warning: Option<String>,
}

#[derive(Debug)]
pub struct RestoreSummary {
    pub succeeded: usize,
    pub failed: usize,
    pub results: Vec<CleanupResult>,
}

/// What the file system says of a regular file.
#[derive(Debug, Clone, Copy, PartialEq, Eq, Structural)]
pub struct FileState {
    pub is_file: bool,
    pub size_bytes: u64,
    pub modified_ms: Option<u64>,
}

/// What the file system said of a candidate under the RAW root: its
/// canonical path (or why it has none), and its state (or why it cannot be
/// read).
#[derive(Debug)]
pub struct CandidateProbe {
    pub canonical: Result<String, String>,
    pub state: Result<FileState, String>,
}

/// Why a candidate's relative path cannot be removed, if it cannot: it must
/// be a safe relative path naming a RAW file or an XMP sidecar.
pub open spec fn candidate_name_error(path: Seq<char>) -> Option<Seq<char>> {
    if !is_safe_relative(path) {
        Some("文件路径"@ + if is_blank(path) || is_absolute(path) {
            "必须是安全相对路径"@
        } else {
            "包含不安全片段"@
        })
    } else if !is_raw_path(path) && !is_sidecar_path(path) {
        Some("不允许处理 ."@ + ext_key(path) + " 文件"@)
    } else {
        None
    }
}

pub fn check_candidate_name(relative_path: &str) -> (r: Result<(), String>)
    ensures
        match candidate_name_error(relative_path@) {
            Some(e) => r matches Err(m) && m@ == e,
            None => r is Ok,
        },
{
    safe_relative_path(relative_path, "文件路径")?;
    if !is_raw(relative_path) && !is_sidecar(relative_path) {
        let extension = extension_of(relative_path);
        return Err(concat3("不允许处理 .", extension.as_str(), " 文件"));
    }
    Ok(())
}

/// Why a resolved candidate cannot be removed, if it cannot: it must stay
/// under the RAW root and still be the regular file the scan saw (the
/// modification time must be known to the scan and unchanged: an unknown
/// time cannot show that the file is unchanged).
pub open spec fn candidate_file_error(raw_root: Seq<char>, c: CleanupCandidate, probe: CandidateProbe) -> Option<Seq<char>> {
    match probe.canonical {
        Err(e) => Some(e@),
        Ok(path) => if !path_has_prefix(path@, raw_root) {
            Some("文件解析后超出了 RAW 源目录"@)
        } else {
            match probe.state {
                Err(e) => Some(e@),
                Ok(s) => if !s.is_file {
                    Some("目标不是普通文件"@)
                } else if s.size_bytes != c.expected_size_bytes {
                    Some("文件大小在扫描后发生变化，请重新扫描"@)
                } else if c.expected_modified_ms is None {
                    Some("无法确认文件在扫描后未被改动，请重新扫描"@)
                } else if s.modified_ms != c.expected_modified_ms {
                    Some("文件修改时间在扫描后发生变化，请重新扫描"@)
                } else {
                    None
                },
            }
        },
    }
}

/// Checks a candidate and gives the canonical path to remove.
pub fn validate_delete_candidate(raw_root: &str, candidate: &CleanupCandidate, probe: &CandidateProbe) -> (r: Result<String, String>)
    ensures
        match candidate_name_error(candidate.relative_path@) {
            Some(e) => r matches Err(m) && m@ == e,
            None => match candidate_file_error(raw_root@, *candidate, *probe) {
                Some(e) => r matches Err(m) && m@ == e,
                None => r matches Ok(p) && probe.canonical matches Ok(c) && p@ == c@,
            },
        },
{
    check_candidate_name(candidate.relative_path.as_str())?;
    let path = match &probe.canonical {
        Ok(p) => p.clone(),
        Err(e) => return Err(e.clone()),
    };
    if !path_starts_with(path.as_str(), raw_root) {
        return Err("文件解析后超出了 RAW 源目录".to_owned());
    }
    let state = match &probe.state {
        Ok(s) => *s,
        Err(e) => return Err(e.clone()),
    };
    if !state.is_file {
        return Err("目标不是普通文件".to_owned());
    }
    if state.size_bytes != candidate.expected_size_bytes {
        return Err("文件大小在扫描后发生变化，请重新扫描".to_owned());
    }
    let expected = match candidate.expected_modified_ms {
        Some(t) => t,
        None => return Err("无法确认文件在扫描后未被改动，请重新扫描".to_owned()),
    };
    if state.modified_ms != Some(expected) {
        return Err("文件修改时间在扫描后发生变化，请重新扫描".to_owned());
    }
    Ok(path)
}

/// Decides whether a candidate may be removed: it must be authorised by
/// the plan and still be the file the scan saw. Gives the path to remove.
pub fn cleanup_target(
    plan: &CleanupPlan,
    plan_id: &str,
    raw_root: &str,
    candidate: &CleanupCandidate,
    probe: &CandidateProbe,
) -> (r: Result<String, String>)
    ensures
        !plan.covers(
            plan_id@,
            raw_root@,
            candidate.relative_path@,
            FileSnapshot { size_bytes: candidate.expected_size_bytes, modified_ms: candidate.expected_modified_ms },
        ) ==> r is Err,
        plan.covers(
            plan_id@,
            raw_root@,
            candidate.relative_path@,
            FileSnapshot { size_bytes: candidate.expected_size_bytes, modified_ms: candidate.expected_modified_ms },
        ) ==> match candidate_name_error(candidate.relative_path@) {
            Some(e) => r matches Err(m) && m@ == e,
            None => match candidate_file_error(raw_root@, *candidate, *probe) {
                Some(e) => r matches Err(m) && m@ == e,
                None => r matches Ok(p) && probe.canonical matches Ok(c) && p@ == c@,
            },
        },
{
    let snapshot = FileSnapshot::new(candidate.expected_size_bytes, candidate.expected_modified_ms);
    plan.authorize(plan_id, raw_root, candidate.relative_path.as_str(), &snapshot)?;
    validate_delete_candidate(raw_root, candidate, probe)
}

/// The message of a removal: the action's success text, or its failure
/// (a trash failure says so; a quarantine failure is already worded).
pub open spec fn removal_message(destination: CleanupDestination, outcome: Result<(), Seq<char>>) -> Result<Seq<char>, Seq<char>> {
    match (destination, outcome) {
        (CleanupDestination::Trash, Ok(())) => Ok("已移入系统回收站/废纸篓"@),
        (CleanupDestination::Trash, Err(e)) => Err("移入系统回收站/废纸篓失败："@ + e),
        (CleanupDestination::Quarantine, Ok(())) => Ok("已移入 FramePair 隔离区"@),
        (CleanupDestination::Quarantine, Err(e)) => Err(e),
    }
}

pub open spec fn error_view(r: Result<(), String>) -> Result<(), Seq<char>> {
    match r {
        Ok(()) => Ok(()),
        Err(e) => Err(e@),
    }
}

/// The result of one candidate: its decision error, or the outcome of the removal.
pub fn cleanup_result(
    candidate: &CleanupCandidate,
    destination: CleanupDestination,
    outcome: Result<(), String>,
) -> (r: CleanupResult)
    ensures
        r.relative_path@ == candidate.relative_path@,
        match removal_message(destination, error_view(outcome)) {
            Ok(m) => r.success && r.message@ == m,
            Err(m) => !r.success && r.message@ == m,
        },
{
    let (success, message) = match (destination, outcome) {
        (CleanupDestination::Trash, Ok(())) => (true, "已移入系统回收站/废纸篓".to_owned()),
        (CleanupDestination::Trash, Err(e)) => (false, concat("移入系统回收站/废纸篓失败：", e.as_str())),
        (CleanupDestination::Quarantine, Ok(())) => (true, "已移入 FramePair 隔离区".to_owned()),
        (CleanupDestination::Quarantine, Err(e)) => (false, e),
    };
    CleanupResult { relative_path: candidate.relative_path.clone(), success, message }
}

/// The result of a candidate that was refused before any removal.
pub fn refused_result(candidate: &CleanupCandidate, error: String) -> (r: CleanupResult)
    ensures
        r.relative_path@ == candidate.relative_path@,
        !r.success,
        r.message == error,
{
    CleanupResult { relative_path: candidate.relative_path.clone(), success: false, message: error }
}

pub open spec fn successes(results: Seq<CleanupResult>) -> nat
    decreases results.len(),
{
    if results.len() == 0 {
        0
    } else {
        successes(results.drop_last()) + if results.last().success { 1nat } else { 0nat }
    }
}

pub fn count_successes(results: &Vec<CleanupResult>) -> (r: usize)
    ensures
        r == successes(results@),
        r <= results@.len(),
{
    let mut n: usize = 0;
    let mut i: usize = 0;
    while i < results.len()
        invariant
            i <= results@.len(),
            n == successes(results@.subrange(0, i as int)),
            n <= i,
        decreases results@.len() - i,
    {
        assert(results@.subrange(0, i + 1).drop_last() =~= results@.subrange(0, i as int));
        if results[i].success {
            n = n + 1;
        }
        i = i + 1;
    }
    assert(results@.subrange(0, results@.len() as int) =~= results@);
    n
}

/// Files went to the quarantine, which then holds an operation named by the plan id.
pub open spec fn quarantined(destination: CleanupDestination, results: Seq<CleanupResult>) -> bool {
    destination == CleanupDestination::Quarantine && successes(results) > 0
}

pub fn is_quarantined(destination: CleanupDestination, results: &Vec<CleanupResult>) -> (r: bool)
    ensures
        r == quarantined(destination, results@),
{
    destination == CleanupDestination::Quarantine && count_successes(results) > 0
}

/// Summarises a cleanup run. `quarantine_path` is the quarantine operation
/// directory (used only when files were quarantined); `log_path` and
/// `log_warning` say how the operation log was written.
pub fn cleanup_summary(
    request: &CleanupRequest,
    results: Vec<CleanupResult>,
    quarantine_path: Option<String>,
    log_path: Option<String>,
    log_warning: Option<String>,
) -> (r: CleanupSummary)
    ensures
        r.succeeded == successes(results@),
        r.failed == results@.len() - successes(results@),
        r.destination == request.destination,
        quarantined(request.destination, results@) ==> (r.operation_id matches Some(id) && id@
            == request.plan_id@ && r.quarantine_path == quarantine_path),
        !quarantined(request.destination, results@) ==> r.operation_id is None && r.quarantine_path is None,
        r.results == results,
        r.log_path == log_path,
        r.log_warning == log_warning,
{
    let succeeded = count_successes(&results);
    let failed = results.len() - succeeded;
    let q = is_quarantined(request.destination, &results);
    CleanupSummary {
        succeeded,
        failed,
        destination: request.destination,
        operation_id: if q { Some(request.plan_id.clone()) } else { None },
        quarantine_path: if q { quarantine_path } else { None },
        results,
        log_path,
        log_warning,
    }
}

/// Summarises a restore run.
pub fn restore_summary(results: Vec<CleanupResult>) -> (r: RestoreSummary)
    ensures
        r.succeeded == successes(results@),
        r.failed == results@.len() - successes(results@),
        r.results == results,
{
    let succeeded = count_successes(&results);
    let failed = results.len() - succeeded;
    RestoreSummary { succeeded, failed, results }
}

} // verus!
