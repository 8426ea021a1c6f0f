//! One-shot cleanup authorization.
//!
//! A scan produces a plan that names, for each file it offers for cleanup, the
//! size and modification time seen at scan time. A cleanup request is honoured
//! only for the current plan, the same RAW root, a file the plan lists, and
//! unchanged file facts.

use vstd::prelude::*;
use crate::paths::{paths_equal, same_path};
use crate::text::chars_eq;
use crate::text::chars_of;

verus! {

/// Size and modification time of a file at scan time.
#[derive(Debug, Clone, Copy, PartialEq, Eq, Structural)]
pub struct FileSnapshot {
    pub size_bytes: u64,
    pub modified_ms: Option<u64>,
}

impl FileSnapshot {
    pub fn new(size_bytes: u64, modified_ms: Option<u64>) -> (r: Self)
        ensures
            r.size_bytes == size_bytes,
            r.modified_ms == modified_ms,
    {
        FileSnapshot { size_bytes, modified_ms }
    }
}

/// The candidates of a plan as a map; a later entry for the same path replaces
/// an earlier one, as collecting into a `HashMap` does.
pub open spec fn entries_map(s: Seq<(String, FileSnapshot)>) -> Map<Seq<char>, FileSnapshot>
    decreases s.len(),
{
    if s.len() == 0 {
        Map::empty()
    } else {
        entries_map(s.drop_last()).insert(s.last().0@, s.last().1)
    }
}

proof fn lemma_entries_map_tail(s: Seq<(String, FileSnapshot)>, i: int, k: Seq<char>)
    requires
        0 <= i <= s.len(),
        forall|j: int| i <= j < s.len() ==> (#[trigger] s[j]).0@ != k,
    ensures
        entries_map(s).contains_key(k) == entries_map(s.subrange(0, i)).contains_key(k),
        entries_map(s).contains_key(k) ==> entries_map(s)[k] == entries_map(
            s.subrange(0, i),
        )[k],
    decreases s.len() - i,
{
    if i < s.len() {
        let t = s.drop_last();
        assert(t.subrange(0, i) =~= s.subrange(0, i));
        lemma_entries_map_tail(t, i, k);
    } else {
        assert(s.subrange(0, i) =~= s);
    }
}

/// The authorization record of one scan.
#[derive(Debug)]
pub struct CleanupPlan {
    id: String,
    raw_root: String,
    candidates: Vec<(String, FileSnapshot)>,
}

impl CleanupPlan {
    pub closed spec fn id_text(&self) -> Seq<char> {
        self.id@
    }

    pub closed spec fn root_text(&self) -> Seq<char> {
        self.raw_root@
    }

    pub closed spec fn candidate_map(&self) -> Map<Seq<char>, FileSnapshot> {
        entries_map(self.candidates@)
    }

    /// The plan belongs to `plan_id` and to the RAW root `raw_root`.
    pub open spec fn is_for(&self, plan_id: Seq<char>, raw_root: Seq<char>) -> bool {
        self.id_text() == plan_id && same_path(raw_root, self.root_text())
    }

    /// A request for `relative_path` with `snapshot` is covered by this plan.
    pub open spec fn covers(
        &self,
        plan_id: Seq<char>,
        raw_root: Seq<char>,
        relative_path: Seq<char>,
        snapshot: FileSnapshot,
    ) -> bool {
        &&& self.is_for(plan_id, raw_root)
        &&& self.candidate_map().contains_key(relative_path)
        &&& self.candidate_map()[relative_path] == snapshot
    }

    pub fn new(id: String, raw_root: String, candidates: Vec<(String, FileSnapshot)>) -> (r: Self)
        ensures
            r.id_text() == id@,
            r.root_text() == raw_root@,
            r.candidate_map() == entries_map(candidates@),
    {
        CleanupPlan { id, raw_root, candidates }
    }

    /// Looks up the snapshot recorded for `relative_path`.
    fn lookup(&self, relative_path: &str) -> (r: Option<FileSnapshot>)
        ensures
            r.is_some() == self.candidate_map().contains_key(relative_path@),
            r matches Some(s) ==> s == self.candidate_map()[relative_path@],
    {
        let key = chars_of(relative_path);
        let mut i: usize = self.candidates.len();
        while i > 0
            invariant
                i <= self.candidates@.len(),
                key@ == relative_path@,
                forall|j: int|
                    i <= j < self.candidates@.len() ==> (#[trigger] self.candidates@[j]).0@
                        != relative_path@,
            decreases i,
        {
            let candidate = chars_of(self.candidates[i - 1].0.as_str());
            if chars_eq(&candidate, &key) {
                proof {
                    let s = self.candidates@;
                    lemma_entries_map_tail(s, i as int, relative_path@);
                    let t = s.subrange(0, i as int);
                    assert(t.drop_last() =~= s.subrange(0, i - 1));
                    assert(t.last() == s[i - 1]);
                }
                return Some(self.candidates[i - 1].1);
            }
            i = i - 1;
        }
        proof {
            lemma_entries_map_tail(self.candidates@, 0, relative_path@);
            assert(self.candidates@.subrange(0, 0) =~= Seq::<(String, FileSnapshot)>::empty());
        }
        None
    }

    /// Checks that a cleanup request for `relative_path` is covered by this
    /// plan; each failure names the first rule it breaks.
    pub fn authorize(
        &self,
        plan_id: &str,
        raw_root: &str,
        relative_path: &str,
        snapshot: &FileSnapshot,
    ) -> (r: Result<(), String>)
        ensures
            r is Ok <==> self.covers(plan_id@, raw_root@, relative_path@, *snapshot),
            r matches Err(e) ==> e@ == (if self.id_text() != plan_id@ {
                "清理计划已失效，请重新扫描"@
            } else if !same_path(raw_root@, self.root_text()) {
                "RAW 源目录与当前扫描计划不一致"@
            } else if !self.candidate_map().contains_key(relative_path@) {
                "文件不在当前扫描的清理计划中"@
            } else {
                "文件信息与当前扫描计划不一致，请重新扫描"@
            }),
    {
        let requested = chars_of(plan_id);
        let own = chars_of(self.id.as_str());
        if !chars_eq(&requested, &own) {
            return Err("清理计划已失效，请重新扫描".to_owned());
        }
        if !paths_equal(raw_root, self.raw_root.as_str()) {
            return Err("RAW 源目录与当前扫描计划不一致".to_owned());
        }
        let expected = match self.lookup(relative_path) {
            Some(expected) => expected,
            None => return Err("文件不在当前扫描的清理计划中".to_owned()),
        };
        if *snapshot != expected {
            return Err("文件信息与当前扫描计划不一致，请重新扫描".to_owned());
        }
        Ok(())
    }

    /// Whether this plan belongs to `plan_id` and `raw_root`.
    pub fn matches(&self, plan_id: &str, raw_root: &str) -> (r: bool)
        ensures
            r == self.is_for(plan_id@, raw_root@),
    {
        let requested = chars_of(plan_id);
        let own = chars_of(self.id.as_str());
        chars_eq(&own, &requested) && paths_equal(raw_root, self.raw_root.as_str())
    }
}

/// An authorized request always concerns the plan it was checked against.
pub proof fn authorized_request_matches_plan(
    plan: &CleanupPlan,
    plan_id: Seq<char>,
    raw_root: Seq<char>,
    relative_path: Seq<char>,
    snapshot: FileSnapshot,
)
    requires
        plan.covers(plan_id, raw_root, relative_path, snapshot),
    ensures
        plan.is_for(plan_id, raw_root),
{
}

/// The texts of a list of strings.
pub open spec fn texts(s: Seq<String>) -> Seq<Seq<char>> {
    s.map_values(|k: String| k@)
}

/// A copy of a list of strings.
pub fn copy_strings(v: &Vec<String>) -> (r: Vec<String>)
    ensures
        texts(r@) == texts(v@),
{
    let mut out: Vec<String> = Vec::new();
    let mut i: usize = 0;
    while i < v.len()
        invariant
            i <= v@.len(),
            texts(out@) == texts(v@.subrange(0, i as int)),
        decreases v@.len() - i,
    {
        let ghost before = out@;
        out.push(v[i].clone());
        assert(texts(out@) =~= texts(before).push(v@[i as int]@));
        assert(texts(v@.subrange(0, i + 1)) =~= texts(v@.subrange(0, i as int)).push(v@[i as int]@));
        i = i + 1;
    }
    assert(v@.subrange(0, v@.len() as int) =~= v@);
    out
}

/// The distinct texts of `keys`, each once, in order of first occurrence.
pub fn unique_keys(keys: Vec<String>) -> (r: Vec<String>)
    ensures
        texts(r@).no_duplicates(),
        forall|t: Seq<char>| texts(r@).contains(t) <==> texts(keys@).contains(t),
{
    let ghost kv = texts(keys@);
    let mut out: Vec<String> = Vec::new();
    let mut i: usize = 0;
    while i < keys.len()
        invariant
            i <= keys@.len(),
            kv == texts(keys@),
            texts(out@).no_duplicates(),
            forall|t: Seq<char>| texts(out@).contains(t) <==> kv.subrange(0, i as int).contains(t),
        decreases keys@.len() - i,
    {
        let key = chars_of(keys[i].as_str());
        let mut found = false;
        let mut j: usize = 0;
        while j < out.len()
            invariant
                j <= out@.len(),
                key@ == kv[i as int],
                found == texts(out@).subrange(0, j as int).contains(key@),
            decreases out@.len() - j,
        {
            let other = chars_of(out[j].as_str());
            proof {
                assert(texts(out@).subrange(0, j + 1) =~= texts(out@).subrange(0, j as int).push(out@[j as int]@));
            }
            let same = chars_eq(&other, &key);
            proof {
                let pre = texts(out@).subrange(0, j as int);
                let post = texts(out@).subrange(0, j + 1);
                if same {
                    assert(post[j as int] == key@);
                } else if pre.contains(key@) {
                    let m = choose|m: int| 0 <= m < pre.len() && pre[m] == key@;
                    assert(post[m] == key@);
                } else {
                    assert forall|m: int| 0 <= m < post.len() implies post[m] != key@ by {
                        if m < j {
                            assert(post[m] == pre[m]);
                        }
                    }
                }
            }
            if same {
                found = true;
            }
            j = j + 1;
        }
        assert(texts(out@).subrange(0, out@.len() as int) =~= texts(out@));
        let ghost old_out = texts(out@);
        if !found {
            out.push(keys[i].clone());
            assert(texts(out@) =~= old_out.push(kv[i as int]));
        }
        proof {
            assert(kv.subrange(0, i + 1) =~= kv.subrange(0, i as int).push(kv[i as int]));
            assert forall|t: Seq<char>| texts(out@).contains(t) <==> kv.subrange(0, i + 1).contains(t) by {
                if texts(out@).contains(t) {
                    let m = choose|m: int| 0 <= m < texts(out@).len() && texts(out@)[m] == t;
                    if m < old_out.len() {
                        assert(old_out[m] == t);
                        assert(old_out.contains(t));
                        let a = choose|a: int| 0 <= a < i && #[trigger] kv.subrange(0, i as int)[a] == t;
                        assert(kv.subrange(0, i + 1)[a] == t);
                    } else {
                        assert(kv.subrange(0, i + 1)[i as int] == t);
                    }
                }
                if kv.subrange(0, i + 1).contains(t) {
                    let a = choose|a: int| 0 <= a < i + 1 && #[trigger] kv.subrange(0, i + 1)[a] == t;
                    if a < i {
                        assert(kv.subrange(0, i as int)[a] == t);
                        assert(old_out.contains(t));
                        let m = choose|m: int| 0 <= m < old_out.len() && old_out[m] == t;
                        assert(texts(out@)[m] == t);
                    } else if found {
                        let m = choose|m: int| 0 <= m < old_out.len() && old_out[m] == key@;
                        assert(texts(out@)[m] == t);
                    } else {
                        assert(texts(out@)[old_out.len() as int] == t);
                    }
                }
            }
        }
        i = i + 1;
    }
    assert(kv.subrange(0, kv.len() as int) =~= kv);
    out
}

} // verus!
