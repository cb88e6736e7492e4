//! What holds of the registry as a whole, stated over its model and proved.

use vstd::prelude::*;
use vstd::string::StringSliceAdditionalSpecFns;
use vstd::utf8::{
    decode_utf8, encode_utf8, encode_utf8_decode_utf8, encode_utf8_valid_utf8, valid_utf8,
};
use crate::lemmas::{
    insertion_point, lemma_by_length_of_sorted, lemma_by_length_sorts, lemma_insert_by_length,
    lemma_label_of, lemma_label_of_first,
    lemma_longest_match, lemma_longest_match_is, lemma_longest_match_of_sorted,
    lemma_prefixes_of_equal_length,
};
use crate::model::{
    by_length, compact, distinct_namespaces, has_namespace, joined_lines, label_of, of_length,
    query_header, register, register_all, shortened, Entries, Entry,
};
use crate::store::{
    declaration, declarations, selected, subject_of, ObjectModel, Predicate, StatementModel,
    SUBJECT_STEM,
};
use crate::text::{
    ascii_text, lemma_ascii_decodes, lemma_decode_concat, lemma_encode_concat, strip_quotes,
    COLON, NEWLINE,
};

verus! {

/// Registering keeps the namespaces distinct.
pub proof fn law_register_keeps_distinct(m: Entries, ns: Seq<u8>, label: Seq<u8>)
    requires
        distinct_namespaces(m),
    ensures
        distinct_namespaces(register(m, ns, label)),
        has_namespace(register(m, ns, label), ns),
{
    let r = register(m, ns, label);
    if has_namespace(m, ns) {
    } else {
        assert(r[m.len() as int].0 == ns);
        assert forall|i: int, j: int| 0 <= i < j < r.len() implies (#[trigger] r[i]).0 != (
        #[trigger] r[j]).0 by {
            if j < m.len() {
                assert(m[i].0 != m[j].0);
            } else {
                assert(m[i].0 != ns);
            }
        }
    }
}

/// A uri that starts with a registered namespace is shortened to the label
/// of that namespace, a colon, and the rest of the uri, where the uri has no
/// quote to strip and no longer registered namespace matches it as well.
pub proof fn law_shorten_registered(m: Entries, ns: Seq<u8>, label: Seq<u8>, uri: Seq<u8>)
    requires
        distinct_namespaces(m),
        m.contains((ns, label)),
        ns.is_prefix_of(uri),
        strip_quotes(uri) == uri,
        forall|j: int|
            0 <= j < m.len() && (#[trigger] m[j]).0.is_prefix_of(uri) ==> m[j].0.len() <= ns.len(),
    ensures
        shortened(m, uri) == label + seq![COLON] + uri.skip(ns.len() as int),
{
    let k = choose|k: int| 0 <= k < m.len() && m[k] == (ns, label);
    assert forall|j: int|
        0 <= j < m.len() && j != k && (#[trigger] m[j]).0.is_prefix_of(uri) implies m[j].0.len()
        < m[k].0.len() by {
        if m[j].0.len() == ns.len() {
            lemma_prefixes_of_equal_length(m[j].0, ns, uri);
            if j < k {
                assert(m[j].0 != m[k].0);
            } else {
                assert(m[k].0 != m[j].0);
            }
        }
    }
    lemma_longest_match_is(m, uri, k);
}

/// The same in text: a uri that is a registered namespace followed by a
/// local name is shortened to the label, a colon and the local name, where
/// the uri has no quote to strip and no longer registered namespace matches
/// it as well.
pub proof fn law_shorten_registered_text(
    m: Entries,
    namespace: Seq<char>,
    label: Seq<char>,
    local: Seq<char>,
)
    requires
        distinct_namespaces(m),
        m.contains((encode_utf8(namespace), encode_utf8(label))),
        strip_quotes(encode_utf8(namespace + local)) == encode_utf8(namespace + local),
        forall|j: int|
            0 <= j < m.len() && (#[trigger] m[j]).0.is_prefix_of(encode_utf8(namespace + local))
                ==> m[j].0.len() <= encode_utf8(namespace).len(),
    ensures
        valid_utf8(shortened(m, encode_utf8(namespace + local))),
        decode_utf8(shortened(m, encode_utf8(namespace + local))) == label + seq![':'] + local,
{
    let ns = encode_utf8(namespace);
    let rest = encode_utf8(local);
    let uri = encode_utf8(namespace + local);
    let colon = seq![COLON];
    lemma_encode_concat(namespace, local);
    assert(ns.is_prefix_of(uri));
    assert(uri.skip(ns.len() as int) =~= rest);
    law_shorten_registered(m, ns, encode_utf8(label), uri);
    encode_utf8_valid_utf8(label);
    encode_utf8_valid_utf8(local);
    encode_utf8_decode_utf8(label);
    encode_utf8_decode_utf8(local);
    lemma_ascii_decodes(colon);
    assert(ascii_text(colon) =~= seq![':']);
    lemma_decode_concat(encode_utf8(label), colon);
    lemma_decode_concat(encode_utf8(label) + colon, rest);
}

/// A namespace that is registered a second time, with whatever label, keeps
/// the label of its first registration.
pub proof fn law_first_label_wins(m: Entries, ns: Seq<u8>, first: Seq<u8>, second: Seq<u8>)
    ensures
        register(register(m, ns, first), ns, second) == register(m, ns, first),
        !has_namespace(m, ns) ==> label_of(register(register(m, ns, first), ns, second), ns)
            == Some(first),
        has_namespace(m, ns) ==> label_of(register(register(m, ns, first), ns, second), ns)
            == label_of(m, ns),
{
    let once = register(m, ns, first);
    if !has_namespace(m, ns) {
        assert(once[m.len() as int].0 == ns);
        assert forall|j: int| 0 <= j < m.len() implies (#[trigger] once[j]).0 != ns by {
            assert(m[j].0 != ns);
        }
        lemma_label_of_first(once, ns, m.len() as int);
    }
}

/// Of the registered namespaces that a uri starts with, once its quotes are
/// stripped, the longest is the one that shortens it, whatever the order of
/// registration.
pub proof fn law_longest_namespace_wins(m: Entries, uri: Seq<u8>, k: int)
    requires
        distinct_namespaces(m),
        0 <= k < m.len(),
        m[k].0.is_prefix_of(strip_quotes(uri)),
        forall|j: int|
            0 <= j < m.len() && (#[trigger] m[j]).0.is_prefix_of(strip_quotes(uri)) ==> m[j].0.len()
                <= m[k].0.len(),
    ensures
        shortened(m, uri) == compact(m[k], strip_quotes(uri)),
{
    let text = strip_quotes(uri);
    assert forall|j: int|
        0 <= j < m.len() && j != k && (#[trigger] m[j]).0.is_prefix_of(text) implies m[j].0.len()
        < m[k].0.len() by {
        if m[j].0.len() == m[k].0.len() {
            lemma_prefixes_of_equal_length(m[j].0, m[k].0, text);
            if j < k {
                assert(m[j].0 != m[k].0);
            } else {
                assert(m[k].0 != m[j].0);
            }
        }
    }
    lemma_longest_match_is(m, text, k);
}

/// Where one registered namespace is a prefix of another and a uri starts
/// with both, the uri is shortened with the longer of the two, unless a
/// third registered namespace that is longer still matches as well.
pub proof fn law_longer_of_two_wins(
    m: Entries,
    shorter: Entry,
    longer: Entry,
    uri: Seq<u8>,
)
    requires
        distinct_namespaces(m),
        m.contains(shorter),
        m.contains(longer),
        shorter.0.is_prefix_of(longer.0),
        longer.0.is_prefix_of(strip_quotes(uri)),
        forall|j: int|
            0 <= j < m.len() && (#[trigger] m[j]).0.is_prefix_of(strip_quotes(uri)) ==> m[j].0.len()
                <= longer.0.len(),
    ensures
        shortened(m, uri) == compact(longer, strip_quotes(uri)),
{
    let k = choose|k: int| 0 <= k < m.len() && m[k] == longer;
    law_longest_namespace_wins(m, uri, k);
}

/// What a uri is shortened to does not depend on whether the registry has
/// been sorted.
pub proof fn law_sorting_keeps_short_forms(m: Entries, uri: Seq<u8>)
    requires
        distinct_namespaces(m),
    ensures
        shortened(by_length(m), uri) == shortened(m, uri),
{
    lemma_longest_match_of_sorted(m, strip_quotes(uri));
    lemma_longest_match(m, strip_quotes(uri));
    lemma_longest_match(by_length(m), strip_quotes(uri));
}

/// Sorting a second time changes nothing, and sorting changes neither the
/// entries nor the label of any namespace.
pub proof fn law_sorting_is_stable(m: Entries, ns: Seq<u8>)
    requires
        distinct_namespaces(m),
    ensures
        by_length(by_length(m)) == by_length(m),
        by_length(m).to_multiset() == m.to_multiset(),
        label_of(by_length(m), ns) == label_of(m, ns),
{
    let s = by_length(m);
    lemma_by_length_sorts(m);
    lemma_by_length_of_sorted(s);
    lemma_label_of(m, ns);
    lemma_label_of(s, ns);
    if let Some(a) = label_of(m, ns) {
        let b = label_of(s, ns)->0;
        assert(m.contains((ns, b)));
        let i = choose|i: int| 0 <= i < m.len() && m[i] == (ns, a);
        let j = choose|j: int| 0 <= j < m.len() && m[j] == (ns, b);
        if i < j {
            assert(m[i].0 != m[j].0);
        } else if j < i {
            assert(m[j].0 != m[i].0);
        }
    }
}

/// Sorting keeps entries whose namespaces are equally long in the order in
/// which they stood: for every length, the entries of that length are the
/// same sequence before and after.
pub proof fn law_sorting_keeps_equals_in_order(m: Entries, len: nat)
    ensures
        of_length(by_length(m), len) == of_length(m, len),
    decreases m.len(),
{
    let pred = |e: Entry| e.0.len() == len;
    reveal(Seq::filter);
    if m.len() == 0 {
        assert(by_length(m) =~= m);
    } else {
        let head = m.drop_last();
        let e = m.last();
        let s = by_length(head);
        let p = insertion_point(s, e.0.len());
        law_sorting_keeps_equals_in_order(head, len);
        lemma_insert_by_length(s, e);
        let front = s.subrange(0, p);
        let back = s.subrange(p, s.len() as int);
        assert(s =~= front + back);
        assert(s.insert(p, e) =~= front.push(e) + back);
        Seq::filter_distributes_over_add(front, back, pred);
        Seq::filter_distributes_over_add(front.push(e), back, pred);
        assert(front.push(e).drop_last() =~= front);
        if pred(e) {
            assert(back.filter(pred) =~= Entries::empty()) by {
                if back.filter(pred).len() > 0 {
                    let x = back.filter(pred)[0];
                    back.lemma_filter_pred(pred, 0);
                    back.lemma_filter_contains_rev(pred, x);
                    let k = choose|k: int| 0 <= k < back.len() && back[k] == x;
                    assert(s[p + k] == x);
                }
            }
            assert(of_length(by_length(m), len) =~= of_length(m, len));
        } else {
            assert(of_length(by_length(m), len) =~= of_length(m, len));
        }
    }
}

/// The header of an empty registry is two line feeds and nothing else, as
/// bytes and as text.
pub proof fn law_empty_header()
    ensures
        query_header(Entries::empty()) == seq![NEWLINE, NEWLINE],
        valid_utf8(query_header(Entries::empty())),
        decode_utf8(query_header(Entries::empty())) == seq!['\n', '\n'],
{
    let header = query_header(Entries::empty());
    assert(joined_lines(Entries::empty()) =~= Seq::<u8>::empty());
    assert(header =~= seq![NEWLINE, NEWLINE]);
    lemma_ascii_decodes(header);
    assert(ascii_text(header) =~= seq!['\n', '\n']);
}

/// A statement is among the declarations of `m` exactly where it is one of
/// the three statements of some entry of `m`.
pub proof fn lemma_declarations_contain(m: Entries, x: StatementModel)
    ensures
        declarations(m).contains(x) <==> exists|i: int|
            0 <= i < m.len() && #[trigger] declaration(m[i]).contains(x),
    decreases m.len(),
{
    let each = |e: Entry| declaration(e);
    if m.len() == 0 {
        assert(m.map_values(each) =~= Seq::<Seq<StatementModel>>::empty());
        assert(declarations(m) =~= Seq::<StatementModel>::empty());
    } else {
        let head = m.drop_last();
        let e = m.last();
        lemma_declarations_contain(head, x);
        assert(m =~= head.push(e));
        head.lemma_flat_map_push(each, e);
        let all = declarations(m);
        let before = declarations(head);
        assert(all =~= before + declaration(e));
        if all.contains(x) {
            let i = choose|i: int| 0 <= i < all.len() && all[i] == x;
            if i < before.len() {
                assert(before[i] == x);
                let j = choose|j: int| 0 <= j < head.len() && #[trigger] declaration(
                    head[j],
                ).contains(x);
                assert(declaration(m[j]).contains(x));
            } else {
                assert(declaration(e)[i - before.len()] == x);
                assert(declaration(m[m.len() - 1]).contains(x));
            }
        }
        if exists|i: int| 0 <= i < m.len() && #[trigger] declaration(m[i]).contains(x) {
            let i = choose|i: int| 0 <= i < m.len() && #[trigger] declaration(m[i]).contains(x);
            if i < head.len() {
                assert(declaration(head[i]).contains(x));
                let j = choose|j: int| 0 <= j < before.len() && before[j] == x;
                assert(all[j] == x);
            } else {
                let j = choose|j: int| 0 <= j < declaration(e).len() && declaration(e)[j] == x;
                assert(all[before.len() + j] == x);
            }
        }
    }
}

/// Different labels have different subjects.
pub proof fn lemma_subject_names_label(a: Seq<u8>, b: Seq<u8>)
    requires
        subject_of(a) == subject_of(b),
    ensures
        a == b,
{
    let stem = SUBJECT_STEM.spec_bytes();
    assert(subject_of(a).skip(stem.len() as int) =~= a);
    assert(subject_of(b).skip(stem.len() as int) =~= b);
}

/// What the reload query selects from the declarations of a registry is the
/// set of its entries.
pub proof fn law_declarations_select_entries(m: Entries)
    ensures
        selected(declarations(m).to_set()) == m.to_set(),
{
    let stored = declarations(m).to_set();
    assert forall|e: Entry| selected(stored).contains(e) <==> m.to_set().contains(e) by {
        if m.to_set().contains(e) {
            let i = choose|i: int| 0 <= i < m.len() && m[i] == e;
            let d = declaration(e);
            assert(declaration(m[i]).contains(d[0]));
            assert(declaration(m[i]).contains(d[1]));
            assert(declaration(m[i]).contains(d[2]));
            lemma_declarations_contain(m, d[0]);
            lemma_declarations_contain(m, d[1]);
            lemma_declarations_contain(m, d[2]);
            assert(stored.contains(d[0]));
            assert(stored.contains(d[1]));
            assert(stored.contains(d[2]));
        }
        if selected(stored).contains(e) {
            let subject = choose|subject: Seq<u8>|
                {
                    &&& #[trigger] stored.contains(
                        StatementModel {
                            subject,
                            predicate: Predicate::Type,
                            object: ObjectModel::Declaration,
                        },
                    )
                    &&& stored.contains(
                        StatementModel {
                            subject,
                            predicate: Predicate::Prefix,
                            object: ObjectModel::Text(e.1),
                        },
                    )
                    &&& stored.contains(
                        StatementModel {
                            subject,
                            predicate: Predicate::Namespace,
                            object: ObjectModel::Text(e.0),
                        },
                    )
                };
            let labelled = StatementModel {
                subject,
                predicate: Predicate::Prefix,
                object: ObjectModel::Text(e.1),
            };
            let placed = StatementModel {
                subject,
                predicate: Predicate::Namespace,
                object: ObjectModel::Text(e.0),
            };
            lemma_declarations_contain(m, labelled);
            lemma_declarations_contain(m, placed);
            let i = choose|i: int| 0 <= i < m.len() && #[trigger] declaration(m[i]).contains(labelled);
            let j = choose|j: int| 0 <= j < m.len() && #[trigger] declaration(m[j]).contains(placed);
            let a = choose|a: int| 0 <= a < 3 && declaration(m[i])[a] == labelled;
            let b = choose|b: int| 0 <= b < 3 && declaration(m[j])[b] == placed;
            assert(a == 1);
            assert(b == 2);
            assert(subject == subject_of(m[i].1));
            assert(subject == subject_of(m[j].1));
            lemma_subject_names_label(m[i].1, m[j].1);
            assert(m[j] == e);
        }
    }
    assert(selected(stored) =~= m.to_set());
}

/// Registering rows of which no two give one namespace different labels
/// yields the rows as a set, whatever their order.
pub proof fn lemma_register_all_rows(rows: Entries)
    requires
        forall|i: int, j: int|
            0 <= i < rows.len() && 0 <= j < rows.len() && (#[trigger] rows[i]).0 == (
            #[trigger] rows[j]).0 ==> rows[i] == rows[j],
    ensures
        register_all(Entries::empty(), rows).to_set() == rows.to_set(),
        distinct_namespaces(register_all(Entries::empty(), rows)),
    decreases rows.len(),
{
    let start = Entries::empty();
    if rows.len() == 0 {
        assert(register_all(start, rows).to_set() =~= rows.to_set());
    } else {
        let head = rows.drop_last();
        let e = rows.last();
        assert forall|i: int, j: int|
            0 <= i < head.len() && 0 <= j < head.len() && (#[trigger] head[i]).0 == (
            #[trigger] head[j]).0 implies head[i] == head[j] by {
            assert(rows[i].0 == rows[j].0);
        }
        lemma_register_all_rows(head);
        let before = register_all(start, head);
        let after = register(before, e.0, e.1);
        law_register_keeps_distinct(before, e.0, e.1);
        assert forall|x: Entry| after.to_set().contains(x) <==> rows.to_set().contains(x) by {
            if after.contains(x) {
                let i = choose|i: int| 0 <= i < after.len() && after[i] == x;
                if i < before.len() {
                    assert(before[i] == x);
                    assert(before.to_set().contains(x));
                    assert(head.contains(x));
                    let j = choose|j: int| 0 <= j < head.len() && head[j] == x;
                    assert(rows[j] == x);
                } else {
                    assert(x == e);
                    assert(rows[rows.len() - 1] == x);
                }
            }
            if rows.contains(x) {
                let j = choose|j: int| 0 <= j < rows.len() && rows[j] == x;
                if j < head.len() {
                    assert(head[j] == x);
                    assert(head.to_set().contains(x));
                    assert(before.contains(x));
                    let i = choose|i: int| 0 <= i < before.len() && before[i] == x;
                    assert(after[i] == x);
                } else {
                    assert(x == e);
                    if has_namespace(before, e.0) {
                        let i = choose|i: int| 0 <= i < before.len() && (#[trigger] before[i]).0 == e.0;
                        assert(before.contains(before[i]));
                        assert(before.to_set().contains(before[i]));
                        assert(head.contains(before[i]));
                        let h = choose|h: int| 0 <= h < head.len() && head[h] == before[i];
                        assert(rows[h].0 == rows[rows.len() - 1].0);
                        assert(after[i] == x);
                    } else {
                        assert(after[before.len() as int] == x);
                    }
                }
            }
        }
        assert(after.to_set() =~= rows.to_set());
    }
}

/// Saving a registry and reading the saved declarations back into an empty
/// registry gives the same entries, in whatever order the store hands the
/// rows out.
pub proof fn law_round_trip(m: Entries, rows: Entries)
    requires
        distinct_namespaces(m),
        rows.to_set() == selected(declarations(m).to_set()),
    ensures
        register_all(Entries::empty(), rows).to_set() == m.to_set(),
        distinct_namespaces(register_all(Entries::empty(), rows)),
{
    law_declarations_select_entries(m);
    assert forall|i: int, j: int|
        0 <= i < rows.len() && 0 <= j < rows.len() && (#[trigger] rows[i]).0 == (
        #[trigger] rows[j]).0 implies rows[i] == rows[j] by {
        assert(rows.contains(rows[i]));
        assert(rows.contains(rows[j]));
        assert(rows.to_set().contains(rows[i]));
        assert(rows.to_set().contains(rows[j]));
        assert(m.contains(rows[i]));
        assert(m.contains(rows[j]));
        let a = choose|a: int| 0 <= a < m.len() && m[a] == rows[i];
        let b = choose|b: int| 0 <= b < m.len() && m[b] == rows[j];
        if a < b {
            assert(m[a].0 != m[b].0);
        } else if b < a {
            assert(m[b].0 != m[a].0);
        }
    }
    lemma_register_all_rows(rows);
}

} // verus!
