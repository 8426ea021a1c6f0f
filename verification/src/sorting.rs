//! Ordering values by a text key.
//!
//! Listings and plans are shown in a reproducible order: by a text key compared
//! code point by code point, as `String`'s `Ord` does.

use vstd::prelude::*;
use crate::text::{
    lemma_text_lt_irreflexive, lemma_text_lt_total, lemma_text_lt_transitive, text_le, text_less,
    text_lt,
};

verus! {

broadcast use vstd::seq_lib::group_to_multiset_ensures;

/// A value carried with the text it is ordered by.
pub struct Keyed<T> {
    pub key: Vec<char>,
    pub value: T,
}

/// Keys never decrease along the sequence.
pub open spec fn keys_sorted<T>(s: Seq<Keyed<T>>) -> bool {
    forall|i: int, j: int| 0 <= i < j < s.len() ==> text_le(#[trigger] s[i].key@, #[trigger] s[j].key@)
}

proof fn lemma_text_le_transitive(a: Seq<char>, b: Seq<char>, c: Seq<char>)
    requires
        text_le(a, b),
        text_le(b, c),
    ensures
        text_le(a, c),
{
    lemma_text_lt_total(a, b);
    lemma_text_lt_total(b, c);
    lemma_text_lt_total(a, c);
    if text_lt(c, a) {
        if a == b {
            assert(text_lt(c, b));
        } else if b == c {
            assert(text_lt(b, a));
        } else {
            assert(text_lt(a, b));
            assert(text_lt(b, c));
            lemma_text_lt_transitive(a, b, c);
        }
    }
}

/// First position whose key is greater than `key`, in a sorted sequence.
fn upper_bound<T>(sorted: &Vec<Keyed<T>>, key: &Vec<char>) -> (p: usize)
    requires
        keys_sorted(sorted@),
    ensures
        p <= sorted@.len(),
        forall|i: int| 0 <= i < p ==> text_le(#[trigger] sorted@[i].key@, key@),
        forall|i: int| p <= i < sorted@.len() ==> text_lt(key@, #[trigger] sorted@[i].key@),
{
    let mut lo: usize = 0;
    let mut hi: usize = sorted.len();
    while lo < hi
        invariant
            lo <= hi <= sorted@.len(),
            keys_sorted(sorted@),
            forall|i: int| 0 <= i < lo ==> text_le(#[trigger] sorted@[i].key@, key@),
            forall|i: int| hi <= i < sorted@.len() ==> text_lt(key@, #[trigger] sorted@[i].key@),
        decreases hi - lo,
    {
        let mid = lo + (hi - lo) / 2;
        if text_less(key, &sorted[mid].key) {
            proof {
                assert forall|i: int| mid <= i < sorted@.len() implies text_lt(
                    key@,
                    #[trigger] sorted@[i].key@,
                ) by {
                    if i > mid {
                        assert(text_le(sorted@[mid as int].key@, sorted@[i].key@));
                        lemma_text_lt_total(sorted@[mid as int].key@, sorted@[i].key@);
                        if sorted@[mid as int].key@ != sorted@[i].key@ {
                            lemma_text_lt_transitive(
                                key@,
                                sorted@[mid as int].key@,
                                sorted@[i].key@,
                            );
                        }
                    }
                }
            }
            hi = mid;
        } else {
            proof {
                assert forall|i: int| 0 <= i < mid + 1 implies text_le(
                    #[trigger] sorted@[i].key@,
                    key@,
                ) by {
                    if i < mid {
                        assert(text_le(sorted@[i].key@, sorted@[mid as int].key@));
                        lemma_text_le_transitive(
                            sorted@[i].key@,
                            sorted@[mid as int].key@,
                            key@,
                        );
                    }
                }
            }
            lo = mid + 1;
        }
    }
    lo
}

/// Sorts `items` by key. The result holds exactly the same values (as a
/// multiset) with keys in non-decreasing order.
pub fn sort_keyed<T>(items: Vec<Keyed<T>>) -> (r: Vec<Keyed<T>>)
    ensures
        r@.to_multiset() == items@.to_multiset(),
        values_of(r@).to_multiset() == values_of(items@).to_multiset(),
        r@.len() == items@.len(),
        keys_sorted(r@),
        forall|i: int| 0 <= i < r@.len() ==> items@.contains(#[trigger] r@[i]),
{
    let mut input = items;
    let mut out: Vec<Keyed<T>> = Vec::new();
    while input.len() > 0
        invariant
            out@.to_multiset().add(input@.to_multiset()) == items@.to_multiset(),
            values_of(out@).to_multiset().add(values_of(input@).to_multiset()) == values_of(
                items@,
            ).to_multiset(),
            out@.len() + input@.len() == items@.len(),
            keys_sorted(out@),
        decreases input@.len(),
    {
        let ghost before_in = input@;
        let ghost before_out = out@;
        let item = input.pop().unwrap();
        proof {
            assert(before_in =~= input@.push(item));
            vstd::seq_lib::to_multiset_build(input@, item);
            assert(values_of(before_in) =~= values_of(input@).push(item.value));
            vstd::seq_lib::to_multiset_build(values_of(input@), item.value);
        }
        let p = upper_bound(&out, &item.key);
        let ghost k = item.key@;
        out.insert(p, item);
        proof {
            vstd::seq_lib::to_multiset_insert(before_out, p as int, item);
            assert(out@.to_multiset() =~= before_out.to_multiset().insert(item));
            assert(values_of(out@) =~= values_of(before_out).insert(p as int, item.value));
            vstd::seq_lib::to_multiset_insert(values_of(before_out), p as int, item.value);
            assert forall|i: int, j: int| 0 <= i < j < out@.len() implies text_le(
                #[trigger] out@[i].key@,
                #[trigger] out@[j].key@,
            ) by {
                if j < p {
                    assert(out@[i] == before_out[i]);
                    assert(out@[j] == before_out[j]);
                } else if j == p {
                    assert(out@[i] == before_out[i]);
                } else if i == p {
                    assert(out@[j] == before_out[j - 1]);
                    lemma_text_lt_total(k, before_out[j - 1].key@);
                } else if i < p {
                    assert(out@[i] == before_out[i]);
                    assert(out@[j] == before_out[j - 1]);
                } else {
                    assert(out@[i] == before_out[i - 1]);
                    assert(out@[j] == before_out[j - 1]);
                }
            }
            assert(out@.to_multiset().add(input@.to_multiset()) =~= items@.to_multiset());
            assert(values_of(out@).to_multiset().add(values_of(input@).to_multiset())
                =~= values_of(items@).to_multiset());
        }
    }
    proof {
        lemma_text_lt_irreflexive(seq![]);
        assert(input@.to_multiset() =~= vstd::multiset::Multiset::empty());
        assert(out@.to_multiset().add(input@.to_multiset()) =~= out@.to_multiset());
        assert(values_of(input@).to_multiset() =~= vstd::multiset::Multiset::empty());
        assert(values_of(out@).to_multiset().add(values_of(input@).to_multiset())
            =~= values_of(out@).to_multiset());
        assert forall|i: int| 0 <= i < out@.len() implies items@.contains(#[trigger] out@[i]) by {
            assert(out@.to_multiset().count(out@[i]) > 0);
            assert(items@.to_multiset().count(out@[i]) > 0);
        }
    }
    out
}

/// Two sequences with the same elements keep the same elements under any map.
pub proof fn lemma_map_multiset<A, B>(s1: Seq<A>, s2: Seq<A>, f: spec_fn(A) -> B)
    requires
        s1.to_multiset() == s2.to_multiset(),
    ensures
        s1.map_values(f).to_multiset() == s2.map_values(f).to_multiset(),
    decreases s1.len(),
{
    broadcast use vstd::multiset::group_multiset_axioms;
    vstd::seq_lib::to_multiset_len(s1);
    vstd::seq_lib::to_multiset_len(s2);
    if s1.len() == 0 {
        assert(s1.map_values(f) =~= Seq::<B>::empty());
        assert(s2.map_values(f) =~= Seq::<B>::empty());
    } else {
        let x = s1.last();
        let rest = s1.drop_last();
        assert(s1 =~= rest.push(x));
        vstd::seq_lib::to_multiset_build(rest, x);
        vstd::seq_lib::to_multiset_contains(s2, x);
        assert(s2.to_multiset().count(x) > 0);
        let k = choose|k: int| 0 <= k < s2.len() && s2[k] == x;
        let s2r = s2.remove(k);
        vstd::seq_lib::to_multiset_remove(s2, k);
        assert(s2r.to_multiset() =~= rest.to_multiset());
        lemma_map_multiset(rest, s2r, f);
        assert(s1.map_values(f) =~= rest.map_values(f).push(f(x)));
        vstd::seq_lib::to_multiset_build(rest.map_values(f), f(x));
        assert(s2.map_values(f) =~= s2r.map_values(f).insert(k, f(x)));
        vstd::seq_lib::to_multiset_insert(s2r.map_values(f), k, f(x));
    }
}

/// The values carried by a keyed sequence.
pub open spec fn values_of<T>(s: Seq<Keyed<T>>) -> Seq<T> {
    s.map_values(|k: Keyed<T>| k.value)
}

/// Takes the values out of a keyed vector, keeping their order.
pub fn into_values<T>(items: Vec<Keyed<T>>) -> (r: Vec<T>)
    ensures
        r@ == values_of(items@),
{
    let ghost iv = items@;
    let mut rest = items;
    let mut stack: Vec<T> = Vec::new();
    while rest.len() > 0
        invariant
            stack@.len() + rest@.len() == iv.len(),
            rest@ == iv.subrange(0, rest@.len() as int),
            forall|i: int| 0 <= i < stack@.len() ==> #[trigger] stack@[i] == iv[iv.len() - 1 - i].value,
        decreases rest@.len(),
    {
        let ghost before = rest@;
        let k = rest.pop().unwrap();
        proof {
            assert(k == before.last());
            assert(rest@ =~= iv.subrange(0, rest@.len() as int));
        }
        stack.push(k.value);
    }
    let mut out: Vec<T> = Vec::new();
    while stack.len() > 0
        invariant
            stack@.len() + out@.len() == iv.len(),
            forall|i: int| 0 <= i < stack@.len() ==> #[trigger] stack@[i] == iv[iv.len() - 1 - i].value,
            forall|i: int| 0 <= i < out@.len() ==> #[trigger] out@[i] == iv[i].value,
        decreases stack@.len(),
    {
        let v = stack.pop().unwrap();
        out.push(v);
    }
    assert(out@ =~= values_of(iv));
    out
}

} // verus!
