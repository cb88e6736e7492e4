//! The mathematical model of the prefix registry: a sequence of
//! (namespace, label) pairs in lookup order, and the functions that the
//! registry's contracts are stated over.

use vstd::prelude::*;
use crate::text::{strip_quotes, COLON, NEWLINE};

verus! {

/// One registration: the namespace bytes, then the label bytes.
pub type Entry = (Seq<u8>, Seq<u8>);

/// Registrations in lookup order.
pub type Entries = Seq<Entry>;

/// No namespace is registered twice.
pub open spec fn distinct_namespaces(m: Entries) -> bool {
    forall|i: int, j: int| 0 <= i < j < m.len() ==> (#[trigger] m[i]).0 != (#[trigger] m[j]).0
}

/// Longer namespaces come before shorter ones.
pub open spec fn longest_first(m: Entries) -> bool {
    forall|i: int, j: int|
        0 <= i < j < m.len() ==> (#[trigger] m[i]).0.len() >= (#[trigger] m[j]).0.len()
}

/// Some registration has the namespace `ns`.
pub open spec fn has_namespace(m: Entries, ns: Seq<u8>) -> bool {
    exists|i: int| 0 <= i < m.len() && (#[trigger] m[i]).0 == ns
}

/// The label registered for `ns`, if any: that of the first registration
/// with this namespace.
pub open spec fn label_of(m: Entries, ns: Seq<u8>) -> Option<Seq<u8>>
    decreases m.len(),
{
    if m.len() == 0 {
        None
    } else if m[0].0 == ns {
        Some(m[0].1)
    } else {
        label_of(m.drop_first(), ns)
    }
}

/// The registry after `ns` is registered with `label`: unchanged where `ns`
/// is known already, else with the new pair at the end.
pub open spec fn register(m: Entries, ns: Seq<u8>, label: Seq<u8>) -> Entries {
    if has_namespace(m, ns) {
        m
    } else {
        m.push((ns, label))
    }
}

/// The registry after each pair of `more` is registered, first to last.
pub open spec fn register_all(m: Entries, more: Entries) -> Entries
    decreases more.len(),
{
    if more.len() == 0 {
        m
    } else {
        register(register_all(m, more.drop_last()), more.last().0, more.last().1)
    }
}

/// `m` with `e` put behind every entry whose namespace is at least as long
/// as that of `e`, and before the shorter ones that end `m`.
pub open spec fn insert_by_length(m: Entries, e: Entry) -> Entries
    decreases m.len(),
{
    if m.len() == 0 {
        seq![e]
    } else if m.last().0.len() >= e.0.len() {
        m.push(e)
    } else {
        insert_by_length(m.drop_last(), e).push(m.last())
    }
}

/// The entries of `m` by descending namespace length, entries of equal
/// length in the order they have in `m`.
pub open spec fn by_length(m: Entries) -> Entries
    decreases m.len(),
{
    if m.len() == 0 {
        Seq::empty()
    } else {
        insert_by_length(by_length(m.drop_last()), m.last())
    }
}

/// The entries of `m` whose namespace has `len` bytes, in the order they
/// have in `m`.
pub open spec fn of_length(m: Entries, len: nat) -> Entries {
    m.filter(|e: Entry| e.0.len() == len)
}

/// The index of the entry with the longest namespace that `text` starts
/// with.
pub open spec fn longest_match(m: Entries, text: Seq<u8>) -> Option<int>
    decreases m.len(),
{
    if m.len() == 0 {
        None
    } else {
        let k = m.len() - 1;
        let before = longest_match(m.drop_last(), text);
        if m[k].0.is_prefix_of(text) && (before matches Some(b) ==> m[b].0.len() < m[k].0.len()) {
            Some(k)
        } else {
            before
        }
    }
}

/// The label of `e`, a colon, and what follows the namespace of `e` in
/// `text`.
pub open spec fn compact(e: Entry, text: Seq<u8>) -> Seq<u8> {
    e.1 + seq![COLON] + text.skip(e.0.len() as int)
}

/// The short form of `uri`: quotes stripped and the longest matching
/// namespace replaced by its label. Without a match, `uri` as it was given.
pub open spec fn shortened(m: Entries, uri: Seq<u8>) -> Seq<u8> {
    let text = strip_quotes(uri);
    match longest_match(m, text) {
        Some(k) => compact(m[k], text),
        None => uri,
    }
}

/// `PREFIX label: <namespace>`, in bytes.
pub open spec fn prefix_line(e: Entry) -> Seq<u8> {
    seq![80u8, 82u8, 69u8, 70u8, 73u8, 88u8, 32u8] + e.1 + seq![COLON, 32u8, 60u8] + e.0
        + seq![62u8]
}

/// The lines of `m`, each followed by a line feed but for the last.
pub open spec fn joined_lines(m: Entries) -> Seq<u8>
    decreases m.len(),
{
    if m.len() == 0 {
        Seq::empty()
    } else if m.len() == 1 {
        prefix_line(m[0])
    } else {
        joined_lines(m.drop_last()) + seq![NEWLINE] + prefix_line(m.last())
    }
}

/// The header for a query: the lines of `m` joined by line feeds, with one
/// line feed before and one after.
pub open spec fn query_header(m: Entries) -> Seq<u8> {
    seq![NEWLINE] + joined_lines(m) + seq![NEWLINE]
}

} // verus!
