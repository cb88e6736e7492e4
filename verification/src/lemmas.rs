//! Facts about the registry model that the proofs of the registry rest on.

use vstd::prelude::*;
use vstd::seq_lib::{to_multiset_build, to_multiset_insert};
use crate::model::{
    by_length, distinct_namespaces, has_namespace, insert_by_length, label_of, longest_first,
    longest_match, Entries, Entry,
};

verus! {

/// Where `insert_by_length` puts an entry whose namespace has `len` bytes.
pub open spec fn insertion_point(m: Entries, len: nat) -> int
    decreases m.len(),
{
    if m.len() == 0 {
        0
    } else if m.last().0.len() >= len {
        m.len() as int
    } else {
        insertion_point(m.drop_last(), len)
    }
}

/// `insert_by_length` is an insertion at the insertion point, which lies
/// behind every entry that is long enough and before a run of shorter ones.
pub proof fn lemma_insert_by_length(m: Entries, e: Entry)
    ensures
        0 <= insertion_point(m, e.0.len()) <= m.len(),
        insert_by_length(m, e) == m.insert(insertion_point(m, e.0.len()), e),
        forall|k: int|
            insertion_point(m, e.0.len()) <= k < m.len() ==> (#[trigger] m[k]).0.len() < e.0.len(),
        insertion_point(m, e.0.len()) > 0 ==> m[insertion_point(m, e.0.len()) - 1].0.len()
            >= e.0.len(),
    decreases m.len(),
{
    let p = insertion_point(m, e.0.len());
    if m.len() == 0 {
        assert(insert_by_length(m, e) =~= m.insert(p, e));
    } else if m.last().0.len() >= e.0.len() {
        assert(insert_by_length(m, e) =~= m.insert(p, e));
    } else {
        lemma_insert_by_length(m.drop_last(), e);
        assert(insert_by_length(m, e) =~= m.insert(p, e));
        assert forall|k: int| p <= k < m.len() implies (#[trigger] m[k]).0.len() < e.0.len() by {
            if k < m.len() - 1 {
                assert(m.drop_last()[k] == m[k]);
            }
        }
        if p > 0 {
            assert(m.drop_last()[p - 1] == m[p - 1]);
        }
    }
}

/// The insertion point is the only index that splits `m` in this way.
pub proof fn lemma_insertion_point_is(m: Entries, len: nat, p: int)
    requires
        0 <= p <= m.len(),
        forall|k: int| p <= k < m.len() ==> (#[trigger] m[k]).0.len() < len,
        p > 0 ==> m[p - 1].0.len() >= len,
    ensures
        insertion_point(m, len) == p,
    decreases m.len(),
{
    if m.len() > 0 && m.last().0.len() < len {
        assert(p < m.len()) by {
            if p == m.len() {
                assert(m[p - 1] == m.last());
            }
        }
        assert forall|k: int| p <= k < m.drop_last().len() implies (#[trigger] m.drop_last()[k]).0.len()
            < len by {
            assert(m.drop_last()[k] == m[k]);
        }
        if p > 0 {
            assert(m.drop_last()[p - 1] == m[p - 1]);
        }
        lemma_insertion_point_is(m.drop_last(), len, p);
    } else if m.len() > 0 {
        if p < m.len() {
            assert(m[m.len() - 1] == m.last());
        }
    }
}

/// What an insertion by length keeps: the entries, their distinctness and
/// their order by length.
pub proof fn lemma_insert_by_length_keeps(m: Entries, e: Entry)
    ensures
        insert_by_length(m, e).len() == m.len() + 1,
        insert_by_length(m, e).to_multiset() == m.to_multiset().insert(e),
        forall|x: Entry| insert_by_length(m, e).contains(x) <==> m.contains(x) || x == e,
        distinct_namespaces(m) && !has_namespace(m, e.0) ==> distinct_namespaces(
            insert_by_length(m, e),
        ),
        longest_first(m) ==> longest_first(insert_by_length(m, e)),
{
    let p = insertion_point(m, e.0.len());
    let r = insert_by_length(m, e);
    lemma_insert_by_length(m, e);
    to_multiset_insert(m, p, e);
    assert forall|i: int| 0 <= i < r.len() implies #[trigger] r[i] == (if i < p {
        m[i]
    } else if i == p {
        e
    } else {
        m[i - 1]
    }) by {}
    assert forall|x: Entry| r.contains(x) <==> m.contains(x) || x == e by {
        if r.contains(x) {
            let i = choose|i: int| 0 <= i < r.len() && r[i] == x;
            if i < p {
                assert(m[i] == x);
            } else if i > p {
                assert(m[i - 1] == x);
            }
        }
        if m.contains(x) {
            let j = choose|j: int| 0 <= j < m.len() && m[j] == x;
            if j < p {
                assert(r[j] == x);
            } else {
                assert(r[j + 1] == x);
            }
        }
        if x == e {
            assert(r[p] == x);
        }
    }
    if distinct_namespaces(m) && !has_namespace(m, e.0) {
        assert forall|i: int, j: int| 0 <= i < j < r.len() implies (#[trigger] r[i]).0 != (
        #[trigger] r[j]).0 by {
            let a = if i < p { i } else { i - 1 };
            let b = if j < p { j } else { j - 1 };
            if i != p && j != p {
                assert(m[a].0 != m[b].0);
            } else if i == p {
                assert(m[b].0 != e.0);
            } else {
                assert(m[a].0 != e.0);
            }
        }
    }
    if longest_first(m) {
        assert forall|i: int, j: int| 0 <= i < j < r.len() implies (#[trigger] r[i]).0.len() >= (
        #[trigger] r[j]).0.len() by {
            let a = if i < p { i } else { i - 1 };
            let b = if j < p { j } else { j - 1 };
            if i != p && j != p {
                assert(m[a].0.len() >= m[b].0.len());
            } else if i == p {
                assert(m[b].0.len() < e.0.len());
            } else {
                if a < p - 1 {
                    assert(m[a].0.len() >= m[p - 1].0.len());
                }
            }
        }
    }
}

/// Sorting by length rearranges the entries and nothing else: the result
/// holds each entry as often as the input does, longest namespace first, and
/// namespaces that were distinct stay so.
pub proof fn lemma_by_length_sorts(m: Entries)
    ensures
        by_length(m).len() == m.len(),
        by_length(m).to_multiset() == m.to_multiset(),
        forall|x: Entry| by_length(m).contains(x) <==> m.contains(x),
        forall|ns: Seq<u8>| has_namespace(by_length(m), ns) <==> has_namespace(m, ns),
        longest_first(by_length(m)),
        distinct_namespaces(m) ==> distinct_namespaces(by_length(m)),
    decreases m.len(),
{
    if m.len() == 0 {
        assert(by_length(m) =~= m);
    } else {
        let head = m.drop_last();
        let e = m.last();
        let sorted_head = by_length(head);
        lemma_by_length_sorts(head);
        lemma_insert_by_length_keeps(sorted_head, e);
        assert(m =~= head.push(e));
        to_multiset_build(head, e);
        assert forall|x: Entry| by_length(m).contains(x) <==> m.contains(x) by {
            if m.contains(x) {
                let j = choose|j: int| 0 <= j < m.len() && m[j] == x;
                if j < head.len() {
                    assert(head[j] == x);
                }
            }
            if head.contains(x) {
                let j = choose|j: int| 0 <= j < head.len() && head[j] == x;
                assert(m[j] == x);
            }
            if x == e {
                assert(m[m.len() - 1] == x);
            }
        }
        lemma_namespaces_of_same_entries(by_length(m), m);
        if distinct_namespaces(m) {
            assert(distinct_namespaces(head)) by {
                assert forall|i: int, j: int| 0 <= i < j < head.len() implies (#[trigger] head[i]).0
                    != (#[trigger] head[j]).0 by {
                    assert(m[i].0 != m[j].0);
                }
            }
            assert(!has_namespace(sorted_head, e.0)) by {
                lemma_namespaces_of_same_entries(sorted_head, head);
                if has_namespace(head, e.0) {
                    let j = choose|j: int| 0 <= j < head.len() && (#[trigger] head[j]).0 == e.0;
                    assert(m[j].0 != m[m.len() - 1].0);
                }
            }
        }
    }
}

/// Sequences that hold the same entries know the same namespaces.
pub proof fn lemma_namespaces_of_same_entries(a: Entries, b: Entries)
    requires
        forall|x: Entry| a.contains(x) <==> b.contains(x),
    ensures
        forall|ns: Seq<u8>| has_namespace(a, ns) <==> has_namespace(b, ns),
{
    assert forall|ns: Seq<u8>| has_namespace(a, ns) <==> has_namespace(b, ns) by {
        if has_namespace(a, ns) {
            let i = choose|i: int| 0 <= i < a.len() && (#[trigger] a[i]).0 == ns;
            assert(a.contains(a[i]));
            let j = choose|j: int| 0 <= j < b.len() && b[j] == a[i];
            assert(b[j].0 == ns);
        }
        if has_namespace(b, ns) {
            let i = choose|i: int| 0 <= i < b.len() && (#[trigger] b[i]).0 == ns;
            assert(b.contains(b[i]));
            let j = choose|j: int| 0 <= j < a.len() && a[j] == b[i];
            assert(a[j].0 == ns);
        }
    }
}

/// A sequence that is ordered by length already is its own sorting.
pub proof fn lemma_by_length_of_sorted(m: Entries)
    requires
        longest_first(m),
    ensures
        by_length(m) == m,
    decreases m.len(),
{
    if m.len() > 0 {
        let head = m.drop_last();
        assert(longest_first(head)) by {
            assert forall|i: int, j: int| 0 <= i < j < head.len() implies (#[trigger] head[i]).0.len()
                >= (#[trigger] head[j]).0.len() by {
                assert(m[i].0.len() >= m[j].0.len());
            }
        }
        lemma_by_length_of_sorted(head);
        if head.len() > 0 {
            assert(head.last() == m[m.len() - 2]);
            assert(m[m.len() - 2].0.len() >= m[m.len() - 1].0.len());
        }
        assert(insert_by_length(head, m.last()) =~= head.push(m.last()));
        assert(head.push(m.last()) =~= m);
    } else {
        assert(by_length(m) =~= m);
    }
}

/// The label of a namespace is that of the first entry that carries it.
pub proof fn lemma_label_of_first(m: Entries, ns: Seq<u8>, i: int)
    requires
        0 <= i < m.len(),
        m[i].0 == ns,
        forall|j: int| 0 <= j < i ==> (#[trigger] m[j]).0 != ns,
    ensures
        label_of(m, ns) == Some(m[i].1),
    decreases m.len(),
{
    if i > 0 {
        assert(m[0].0 != ns);
        let rest = m.drop_first();
        assert(rest[i - 1] == m[i]);
        assert forall|j: int| 0 <= j < i - 1 implies (#[trigger] rest[j]).0 != ns by {
            assert(rest[j] == m[j + 1]);
        }
        lemma_label_of_first(rest, ns, i - 1);
    }
}

/// A namespace has a label exactly where it is registered, and the pair is
/// then an entry.
pub proof fn lemma_label_of(m: Entries, ns: Seq<u8>)
    ensures
        label_of(m, ns) is Some <==> has_namespace(m, ns),
        label_of(m, ns) matches Some(l) ==> m.contains((ns, l)),
    decreases m.len(),
{
    if m.len() > 0 {
        let rest = m.drop_first();
        lemma_label_of(rest, ns);
        if m[0].0 == ns {
            assert(m[0] == (ns, m[0].1));
        } else {
            if has_namespace(m, ns) {
                let i = choose|i: int| 0 <= i < m.len() && (#[trigger] m[i]).0 == ns;
                assert(rest[i - 1] == m[i]);
            }
            if has_namespace(rest, ns) {
                let i = choose|i: int| 0 <= i < rest.len() && (#[trigger] rest[i]).0 == ns;
                assert(m[i + 1] == rest[i]);
            }
            if let Some(l) = label_of(rest, ns) {
                let i = choose|i: int| 0 <= i < rest.len() && rest[i] == (ns, l);
                assert(m[i + 1] == (ns, l));
            }
        }
    }
}

/// What `longest_match` finds: a matching entry that no matching entry
/// exceeds in length, the first of its length, or nothing where nothing
/// matches.
pub proof fn lemma_longest_match(m: Entries, text: Seq<u8>)
    ensures
        match longest_match(m, text) {
            Some(k) => {
                &&& 0 <= k < m.len()
                &&& m[k].0.is_prefix_of(text)
                &&& forall|j: int|
                    0 <= j < m.len() && (#[trigger] m[j]).0.is_prefix_of(text) ==> m[j].0.len()
                        <= m[k].0.len()
                &&& forall|j: int|
                    0 <= j < k && (#[trigger] m[j]).0.is_prefix_of(text) ==> m[j].0.len()
                        < m[k].0.len()
            },
            None => forall|j: int| 0 <= j < m.len() ==> !(#[trigger] m[j]).0.is_prefix_of(text),
        },
    decreases m.len(),
{
    if m.len() > 0 {
        let head = m.drop_last();
        lemma_longest_match(head, text);
        assert forall|j: int| 0 <= j < head.len() implies head[j] == m[j] by {}
        match longest_match(m, text) {
            Some(k) => {
                assert forall|j: int|
                    0 <= j < m.len() && (#[trigger] m[j]).0.is_prefix_of(text) implies m[j].0.len()
                    <= m[k].0.len() by {
                    if j < head.len() {
                        assert(head[j] == m[j]);
                    }
                }
                assert forall|j: int|
                    0 <= j < k && (#[trigger] m[j]).0.is_prefix_of(text) implies m[j].0.len()
                    < m[k].0.len() by {
                    assert(head[j] == m[j]);
                }
            },
            None => {
                assert forall|j: int| 0 <= j < m.len() implies !(#[trigger] m[j]).0.is_prefix_of(
                    text,
                ) by {
                    if j < head.len() {
                        assert(head[j] == m[j]);
                    }
                }
            },
        }
    }
}

/// Two prefixes of one text that have the same length are the same bytes.
pub proof fn lemma_prefixes_of_equal_length(a: Seq<u8>, b: Seq<u8>, text: Seq<u8>)
    requires
        a.is_prefix_of(text),
        b.is_prefix_of(text),
        a.len() == b.len(),
    ensures
        a == b,
{
    assert(a =~= b);
}

/// An index is the longest match as soon as its entry matches and is longer
/// than every other matching entry.
pub proof fn lemma_longest_match_is(m: Entries, text: Seq<u8>, k: int)
    requires
        0 <= k < m.len(),
        m[k].0.is_prefix_of(text),
        forall|j: int|
            0 <= j < m.len() && j != k && (#[trigger] m[j]).0.is_prefix_of(text) ==> m[j].0.len()
                < m[k].0.len(),
    ensures
        longest_match(m, text) == Some(k),
{
    lemma_longest_match(m, text);
    let found = longest_match(m, text);
    assert(found is Some) by {
        if found is None {
            assert(!m[k].0.is_prefix_of(text));
        }
    }
    let f = found->0;
    if f != k {
        assert(m[f].0.len() < m[k].0.len());
        assert(m[k].0.len() <= m[f].0.len());
    }
}

/// Where namespaces are distinct, the first match in an order by length is
/// the longest match.
pub proof fn lemma_first_match_is_longest(m: Entries, text: Seq<u8>, k: int)
    requires
        distinct_namespaces(m),
        longest_first(m),
        0 <= k < m.len(),
        m[k].0.is_prefix_of(text),
        forall|j: int| 0 <= j < k ==> !(#[trigger] m[j]).0.is_prefix_of(text),
    ensures
        longest_match(m, text) == Some(k),
{
    assert forall|j: int|
        0 <= j < m.len() && j != k && (#[trigger] m[j]).0.is_prefix_of(text) implies m[j].0.len()
        < m[k].0.len() by {
        assert(j > k);
        assert(m[k].0.len() >= m[j].0.len());
        if m[j].0.len() == m[k].0.len() {
            lemma_prefixes_of_equal_length(m[j].0, m[k].0, text);
            assert(m[k].0 != m[j].0);
        }
    }
    lemma_longest_match_is(m, text, k);
}

/// Where namespaces are distinct, the longest match does not depend on the
/// order of the entries: sorting leaves the matched entry the same.
pub proof fn lemma_longest_match_of_sorted(m: Entries, text: Seq<u8>)
    requires
        distinct_namespaces(m),
    ensures
        longest_match(by_length(m), text) is Some <==> longest_match(m, text) is Some,
        longest_match(m, text) matches Some(k) ==> by_length(m)[longest_match(
            by_length(m),
            text,
        )->0] == m[k],
{
    let s = by_length(m);
    lemma_by_length_sorts(m);
    lemma_longest_match(m, text);
    lemma_longest_match(s, text);
    match longest_match(m, text) {
        Some(k) => {
            assert(m.contains(m[k]));
            assert(s.contains(m[k]));
            let i = choose|i: int| 0 <= i < s.len() && s[i] == m[k];
            assert(s[i].0.is_prefix_of(text));
            assert(longest_match(s, text) is Some);
            let f = longest_match(s, text)->0;
            assert(s.contains(s[f]));
            assert(m.contains(s[f]));
            let g = choose|g: int| 0 <= g < m.len() && m[g] == s[f];
            assert(m[g].0.is_prefix_of(text));
            assert(m[g].0.len() <= m[k].0.len());
            assert(s[i].0.len() <= s[f].0.len());
            lemma_prefixes_of_equal_length(m[g].0, m[k].0, text);
            if g < k {
                assert(m[g].0 != m[k].0);
            } else if k < g {
                assert(m[k].0 != m[g].0);
            }
        },
        None => {
            if let Some(f) = longest_match(s, text) {
                assert(s.contains(s[f]));
                assert(m.contains(s[f]));
                let g = choose|g: int| 0 <= g < m.len() && m[g] == s[f];
                assert(!m[g].0.is_prefix_of(text));
            }
        },
    }
}

} // verus!
