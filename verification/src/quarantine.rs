//! The quarantine of a RAW directory: files removed by a cleanup are kept
//! under `.framepair-quarantine/<operation id>/` with their relative paths,
//! so that they can be put back.

use vstd::prelude::*;
use crate::paths::{components, components_of, is_safe_relative, safe_relative_path};
use crate::text::{chars_eq_str, chars_of, is_blank};
use crate::paths::is_absolute;

verus! {

/// The quarantine directory at the top of a RAW root.
pub const QUARANTINE_DIR: &'static str = ".framepair-quarantine";

/// Characters of a quarantine operation id.
pub open spec fn quarantine_id_char(c: char) -> bool {
    ('a' <= c <= 'z') || ('A' <= c <= 'Z') || ('0' <= c <= '9') || c == '-'
}

pub open spec fn is_quarantine_id(s: Seq<char>) -> bool {
    s.len() > 0 && forall|i: int| 0 <= i < s.len() ==> quarantine_id_char(#[trigger] s[i])
}

/// Checks an operation id: one or more ASCII letters, digits or dashes.
pub fn check_quarantine_id(operation_id: &str) -> (r: Result<(), String>)
    ensures
        r is Ok <==> is_quarantine_id(operation_id@),
        r matches Err(e) ==> e@ == "隔离操作编号不合法"@,
{
    let v = chars_of(operation_id);
    if v.len() == 0 {
        return Err("隔离操作编号不合法".to_owned());
    }
    let mut i: usize = 0;
    while i < v.len()
        invariant
            i <= v@.len(),
            v@ == operation_id@,
            forall|k: int| 0 <= k < i ==> quarantine_id_char(#[trigger] v@[k]),
        decreases v@.len() - i,
    {
        let c = v[i];
        if !(('a' <= c && c <= 'z') || ('A' <= c && c <= 'Z') || ('0' <= c && c <= '9') || c == '-') {
            return Err("隔离操作编号不合法".to_owned());
        }
        i = i + 1;
    }
    Ok(())
}

/// Whether a relative path lies in the quarantine directory at the top of
/// its root (or is that directory).
pub open spec fn in_quarantine_dir(p: Seq<char>) -> bool {
    components(p).len() > 0 && components(p)[0] == ".framepair-quarantine"@
}

/// Whether a relative path lies in the quarantine directory at the top of
/// its root; listings leave such files out.
pub fn is_in_quarantine_dir(path: &str) -> (r: bool)
    ensures
        r == in_quarantine_dir(path@),
{
    let parts = components_of(path);
    proof {
        reveal_strlit(".framepair-quarantine");
        if parts@.len() > 0 {
            assert(parts@.map_values(|x: Vec<char>| x@)[0] == parts@[0]@);
        }
    }
    parts.len() > 0 && chars_eq_str(&parts[0], QUARANTINE_DIR)
}

/// Why a relative path cannot be quarantined or restored, if it cannot: it
/// must be a safe relative path outside the quarantine directory itself.
pub open spec fn quarantine_path_error(p: Seq<char>) -> Option<Seq<char>> {
    if !is_safe_relative(p) {
        Some("隔离文件路径"@ + if is_blank(p) || is_absolute(p) { "必须是安全相对路径"@ } else { "包含不安全片段"@ })
    } else if components(p).len() > 0 && components(p)[0] == ".framepair-quarantine"@ {
        Some("不能把隔离目录自身作为处理目标"@)
    } else {
        None
    }
}

/// Checks the relative path of a file to quarantine or restore.
pub fn quarantine_relative_path(value: &str) -> (r: Result<String, String>)
    ensures
        match quarantine_path_error(value@) {
            Some(e) => r matches Err(m) && m@ == e,
            None => r matches Ok(p) && p@ == value@,
        },
{
    let path = safe_relative_path(value, "隔离文件路径")?;
    let parts = components_of(value);
    if parts.len() > 0 && chars_eq_str(&parts[0], QUARANTINE_DIR) {
        proof {
            reveal_strlit(".framepair-quarantine");
        }
        return Err("不能把隔离目录自身作为处理目标".to_owned());
    }
    proof {
        reveal_strlit(".framepair-quarantine");
        if parts@.len() > 0 {
            assert(parts@.map_values(|x: Vec<char>| x@)[0] == parts@[0]@);
        }
    }
    Ok(path)
}

// ---------------------------------------------------------------------------
// Operations
// ---------------------------------------------------------------------------
/// The text before the first dash (all of it when there is none).
pub open spec fn first_field(s: Seq<char>, n: nat) -> Seq<char>
    decreases n,
{
    if n == 0 {
        seq![]
    } else if s.subrange(0, n as int).contains('-') {
        first_field(s, (n - 1) as nat)
    } else {
        s.subrange(0, n as int)
    }
}

pub open spec fn is_digit(c: char) -> bool {
    '0' <= c <= '9'
}

pub open spec fn digits_value(s: Seq<char>) -> nat
    decreases s.len(),
{
    if s.len() == 0 {
        0
    } else {
        digits_value(s.drop_last()) * 10 + ((s.last() as u32) - 48) as nat
    }
}

/// `str::parse::<u64>`: an optional `+`, then one or more decimal digits,
/// with a value that fits in 64 bits.
pub open spec fn parsed_u64(s: Seq<char>) -> Option<u64> {
    parsed_digits(unsigned_body(s))
}

/// The text after an optional leading `+`.
pub open spec fn unsigned_body(s: Seq<char>) -> Seq<char> {
    if s.len() > 0 && s[0] == '+' { s.drop_first() } else { s }
}

pub open spec fn all_digits(s: Seq<char>) -> bool {
    forall|i: int| 0 <= i < s.len() ==> is_digit(#[trigger] s[i])
}

/// One or more decimal digits with a value that fits in 64 bits.
pub open spec fn parsed_digits(body: Seq<char>) -> Option<u64> {
    if body.len() == 0 || !all_digits(body) {
        None
    } else if digits_value(body) > u64::MAX {
        None
    } else {
        Some(digits_value(body) as u64)
    }
}

/// The creation time an operation id carries: its leading number, or 0.
pub open spec fn id_created_at(id: Seq<char>) -> u64 {
    match parsed_u64(first_field(id, id.len())) {
        Some(v) => v,
        None => 0,
    }
}

proof fn lemma_digits_value_grows(s: Seq<char>, k: int)
    requires
        0 <= k <= s.len(),
        forall|i: int| 0 <= i < s.len() ==> is_digit(#[trigger] s[i]),
    ensures
        digits_value(s.subrange(0, k)) <= digits_value(s),
    decreases s.len(),
{
    if k < s.len() {
        lemma_digits_value_grows(s.drop_last(), k);
        assert(s.drop_last().subrange(0, k) =~= s.subrange(0, k));
    } else {
        assert(s.subrange(0, k) =~= s);
    }
}

/// The leading number of an operation id (milliseconds at creation), or 0.
pub fn operation_created_at(operation_id: &str) -> (r: u64)
    ensures
        r == id_created_at(operation_id@),
{
    let v = chars_of(operation_id);
    let ghost s = v@;
    let mut end: usize = 0;
    while end < v.len()
        invariant
            end <= v@.len(),
            !v@.subrange(0, end as int).contains('-'),
        ensures
            end <= v@.len(),
            !v@.subrange(0, end as int).contains('-'),
            end < v@.len() ==> v@[end as int] == '-',
        decreases v@.len() - end,
    {
        if v[end] == '-' {
            break;
        }
        assert(v@.subrange(0, end as int + 1) =~= v@.subrange(0, end as int).push(v@[end as int]));
        end = end + 1;
    }
    proof {
        lemma_first_field(s, end as nat, s.len());
    }
    let ghost f = s.subrange(0, end as int);
    let mut start: usize = 0;
    if end > 0 && v[0] == '+' {
        start = 1;
    }
    if start == end {
        proof {
            let f = s.subrange(0, end as int);
            if start == 1 {
                assert(f.drop_first().len() == 0);
            }
        }
        return 0;
    }
    let ghost body = s.subrange(start as int, end as int);
    proof {
        if start == 1 {
            assert(f.drop_first() =~= body);
        } else {
            assert(f =~= body);
        }
    }
    let mut value: u64 = 0;
    let mut i: usize = start;
    while i < end
        invariant
            start <= i <= end <= v@.len(),
            s == v@,
            v@ == operation_id@,
            body == s.subrange(start as int, end as int),
            forall|k: int| start <= k < i ==> is_digit(#[trigger] v@[k]),
            value == digits_value(s.subrange(start as int, i as int)),
            first_field(s, s.len()) == f,
            f == s.subrange(0, end as int),
            start <= 1,
            unsigned_body(f) == body,
            body.len() > 0,
        decreases end - i,
    {
        let c = v[i];
        if !('0' <= c && c <= '9') {
            proof {
                assert(!is_digit(body[i - start]));
                assert(!(forall|k: int| 0 <= k < body.len() ==> is_digit(#[trigger] body[k])));
                lemma_parsed_none(f, body);
                assert(id_created_at(operation_id@) == 0);
            }
            return 0;
        }
        let d: u64 = ((c as u32) - 48) as u64;
        assert(s.subrange(start as int, i as int + 1).drop_last() =~= s.subrange(start as int, i as int));
        let next = match value.checked_mul(10) {
            Some(t) => t.checked_add(d),
            None => None,
        };
        match next {
            Some(n) => {
                value = n;
            },
            None => {
                proof {
                    assert(digits_value(s.subrange(start as int, i as int + 1)) > u64::MAX);
                    if forall|k: int| 0 <= k < body.len() ==> is_digit(#[trigger] body[k]) {
                        lemma_digits_value_grows(body, i + 1 - start);
                        assert(body.subrange(0, i + 1 - start) =~= s.subrange(start as int, i as int + 1));
                        assert(digits_value(body) > u64::MAX);
                    }
                    lemma_parsed_none(f, body);
                    assert(id_created_at(operation_id@) == 0);
                }
                return 0;
            },
        }
        i = i + 1;
    }
    proof {
        assert(body =~= s.subrange(start as int, i as int));
        let f = s.subrange(0, end as int);
        if start == 1 {
            assert(f.drop_first() =~= body);
        } else {
            assert(f =~= body);
        }
    }
    value
}

proof fn lemma_parsed_none(f: Seq<char>, body: Seq<char>)
    requires
        unsigned_body(f) == body,
        !all_digits(body) || digits_value(body) > u64::MAX,
    ensures
        parsed_u64(f) is None,
{
}

proof fn lemma_first_field(s: Seq<char>, end: nat, n: nat)
    requires
        end <= n <= s.len(),
        !s.subrange(0, end as int).contains('-'),
        end < n ==> s[end as int] == '-',
    ensures
        first_field(s, n) == s.subrange(0, end as int),
    decreases n,
{
    if n > end {
        assert(s.subrange(0, n as int)[end as int] == '-');
        assert(s.subrange(0, n as int).contains('-'));
        lemma_first_field(s, end, (n - 1) as nat);
    } else {
        if n > 0 {
        }
    }
}

/// A quarantine operation as listed: how many files it moved, how many can
/// still be restored and how many were.
#[derive(Debug)]
pub struct QuarantineOperation {
    pub operation_id: String,
    pub created_at_ms: u64,
    pub moved: usize,
    pub recoverable: usize,
    pub restored: usize,
    pub manifest_path: String,
}

/// A listed operation; its creation time is the leading number of its id.
pub fn quarantine_operation(
    operation_id: String,
    moved: usize,
    recoverable: usize,
    restored: usize,
    manifest_path: String,
) -> (r: QuarantineOperation)
    ensures
        r.operation_id == operation_id,
        r.created_at_ms == id_created_at(operation_id@),
        r.moved == moved,
        r.recoverable == recoverable,
        r.restored == restored,
        r.manifest_path == manifest_path,
{
    let created_at_ms = operation_created_at(operation_id.as_str());
    QuarantineOperation { operation_id, created_at_ms, moved, recoverable, restored, manifest_path }
}

pub open spec fn operations_newest_first(s: Seq<QuarantineOperation>) -> bool {
    forall|i: int, j: int| 0 <= i < j < s.len() ==> (#[trigger] s[i]).created_at_ms >= (#[trigger] s[j]).created_at_ms
}

/// Orders operations newest first.
pub fn order_quarantine_operations(operations: Vec<QuarantineOperation>) -> (r: Vec<QuarantineOperation>)
    ensures
        r@.to_multiset() == operations@.to_multiset(),
        operations_newest_first(r@),
{
    broadcast use vstd::seq_lib::group_to_multiset_ensures;
    let ghost original = operations@;
    let mut rest = operations;
    let mut out: Vec<QuarantineOperation> = Vec::new();
    while rest.len() > 0
        invariant
            out@.to_multiset().add(rest@.to_multiset()) == original.to_multiset(),
            operations_newest_first(out@),
        decreases rest@.len(),
    {
        let ghost before_rest = rest@;
        let ghost before_out = out@;
        let x = rest.pop().unwrap();
        proof {
            assert(before_rest =~= rest@.push(x));
        }
        let mut p: usize = 0;
        while p < out.len()
            invariant
                p <= out@.len(),
                out@ == before_out,
                forall|k: int| 0 <= k < p ==> (#[trigger] out@[k]).created_at_ms > x.created_at_ms,
            ensures
                p <= out@.len(),
                out@ == before_out,
                forall|k: int| 0 <= k < p ==> (#[trigger] out@[k]).created_at_ms > x.created_at_ms,
                p < out@.len() ==> out@[p as int].created_at_ms <= x.created_at_ms,
            decreases out@.len() - p,
        {
            if out[p].created_at_ms <= x.created_at_ms {
                break;
            }
            p = p + 1;
        }
        out.insert(p, x);
        proof {
            broadcast use vstd::multiset::group_multiset_axioms;
            vstd::seq_lib::to_multiset_insert(before_out, p as int, x);
            vstd::seq_lib::to_multiset_build(rest@, x);
            assert(out@.to_multiset().add(rest@.to_multiset()) =~= before_out.to_multiset().add(before_rest.to_multiset()));
            assert forall|i: int, j: int| 0 <= i < j < out@.len() implies (#[trigger] out@[i]).created_at_ms >= (#[trigger] out@[j]).created_at_ms by {
                if j < p {
                } else if i < p && j == p {
                } else if i < p && j > p {
                    assert(out@[j] == before_out[j - 1]);
                } else if i == p {
                    assert(out@[j] == before_out[j - 1]);
                    if j - 1 > p {
                        assert(before_out[p as int].created_at_ms >= before_out[j - 1].created_at_ms);
                    }
                } else {
                    assert(out@[i] == before_out[i - 1]);
                    assert(out@[j] == before_out[j - 1]);
                }
            }
        }
    }
    out
}

} // verus!
