//! The namespace prefix registry.

use vstd::prelude::*;
use vstd::slice::{slice_subrange, slice_to_vec};
use vstd::string::StringSliceAdditionalSpecFns;
use vstd::utf8::{decode_utf8, encode_utf8_decode_utf8, encode_utf8_valid_utf8, valid_utf8};
use crate::lemmas::{
    lemma_by_length_of_sorted, lemma_by_length_sorts, lemma_first_match_is_longest,
    lemma_insert_by_length, lemma_insertion_point_is, lemma_label_of, lemma_label_of_first,
    lemma_longest_match, lemma_longest_match_of_sorted,
};
use crate::model::{
    by_length, compact, distinct_namespaces, has_namespace, joined_lines, label_of, longest_first,
    longest_match, prefix_line, query_header, register, shortened, Entries, Entry,
};
use crate::text::{
    append_bytes, decode_lossy, match_namespace, strip_quote_bytes, strip_quotes, utf8_lossy,
    COLON, NEWLINE,
};

verus! {

/// A table of namespaces and the labels that abbreviate them.
///
/// A namespace has at most one label: the one it was first registered with.
/// The table keeps a lookup order, which starts as the order of registration
/// and becomes longest-namespace-first when the table is sorted.
pub struct Prefix {
    entries: Vec<(Vec<u8>, Vec<u8>)>,
    sorted: bool,
}

/// The model of one stored pair.
pub open spec fn entry_view(e: (Vec<u8>, Vec<u8>)) -> Entry {
    (e.0@, e.1@)
}

/// The model of a vector of stored pairs.
pub open spec fn entries_view(v: Seq<(Vec<u8>, Vec<u8>)>) -> Entries {
    v.map_values(|e: (Vec<u8>, Vec<u8>)| entry_view(e))
}

impl View for Prefix {
    type V = Entries;

    closed spec fn view(&self) -> Entries {
        entries_view(self.entries@)
    }
}

impl Prefix {
    /// What holds of every registry: no namespace is registered twice, and a
    /// registry that counts as sorted is in order.
    #[verifier::type_invariant]
    pub closed spec fn well_formed(&self) -> bool {
        &&& distinct_namespaces(self@)
        &&& self.sorted ==> longest_first(self@)
    }

    /// The namespaces of a well-formed registry are distinct.
    pub proof fn lemma_distinct(&self)
        requires
            self.well_formed(),
        ensures
            distinct_namespaces(self@),
    {
    }

    /// An empty registry.
    pub fn new() -> (registry: Prefix)
        ensures
            registry@ == Entries::empty(),
    {
        let registry = Prefix { entries: Vec::new(), sorted: false };
        assert(registry@ =~= Entries::empty());
        registry
    }

    /// The position of `namespace` in the lookup order.
    fn position(&self, namespace: &[u8]) -> (at: Option<usize>)
        ensures
            at matches Some(i) ==> {
                &&& i < self@.len()
                &&& self@[i as int].0 == namespace@
                &&& forall|j: int| 0 <= j < i ==> (#[trigger] self@[j]).0 != namespace@
            },
            at is None ==> !has_namespace(self@, namespace@),
    {
        let mut i: usize = 0;
        while i < self.entries.len()
            invariant
                i <= self.entries@.len(),
                self@ == entries_view(self.entries@),
                forall|j: int| 0 <= j < i ==> (#[trigger] self@[j]).0 != namespace@,
            decreases self.entries@.len() - i,
        {
            let found = match_namespace(namespace, &self.entries[i].0);
            if found.is_some() && self.entries[i].0.len() == namespace.len() {
                assert(self@[i as int].0 =~= namespace@);
                return Some(i);
            }
            i = i + 1;
        }
        None
    }

    /// Registers `namespace` with the label `prefix`. A namespace that is
    /// registered already keeps its label.
    pub fn add(&mut self, namespace: &[u8], prefix: &[u8])
        ensures
            final(self)@ == register(old(self)@, namespace@, prefix@),
            distinct_namespaces(final(self)@),
    {
        proof {
            use_type_invariant(&*self);
        }
        if self.position(namespace).is_some() {
            return;
        }
        let ghost before = self@;
        let mut entries = Vec::new();
        self.sorted = false;
        core::mem::swap(&mut entries, &mut self.entries);
        assert(self@ =~= Entries::empty());
        entries.push((slice_to_vec(namespace), slice_to_vec(prefix)));
        assert(entries_view(entries@) =~= before.push((namespace@, prefix@)));
        self.entries = entries;
    }

    /// The label registered for `namespace`.
    pub fn get(&self, namespace: &[u8]) -> (label: Option<Vec<u8>>)
        ensures
            match label {
                Some(l) => label_of(self@, namespace@) == Some(l@),
                None => label_of(self@, namespace@) is None,
            },
    {
        proof {
            lemma_label_of(self@, namespace@);
        }
        match self.position(namespace) {
            Some(i) => {
                proof {
                    lemma_label_of_first(self@, namespace@, i as int);
                }
                Some(slice_to_vec(&self.entries[i].1))
            },
            None => None,
        }
    }

    /// Puts the lookup order by descending namespace length. Namespaces of
    /// equal length keep the order they had.
    pub fn sort(&mut self)
        ensures
            final(self)@ == by_length(old(self)@),
            longest_first(final(self)@),
            distinct_namespaces(final(self)@),
    {
        proof {
            use_type_invariant(&*self);
        }
        let ghost before = self@;
        let mut entries: Vec<(Vec<u8>, Vec<u8>)> = Vec::new();
        core::mem::swap(&mut entries, &mut self.entries);
        assert(self@ =~= Entries::empty());
        let mut out: Vec<(Vec<u8>, Vec<u8>)> = Vec::new();
        assert(entries_view(out@) =~= by_length(before.take(0)));
        let mut i: usize = 0;
        while i < entries.len()
            invariant
                i <= entries@.len(),
                entries_view(entries@) == before,
                entries_view(out@) == by_length(before.take(i as int)),
            decreases entries@.len() - i,
        {
            let e = (slice_to_vec(&entries[i].0), slice_to_vec(&entries[i].1));
            let ghost sorted_part = entries_view(out@);
            let mut j: usize = out.len();
            while j > 0 && out[j - 1].0.len() < e.0.len()
                invariant
                    j <= out@.len(),
                    sorted_part == entries_view(out@),
                    forall|k: int| j <= k < out@.len() ==> (#[trigger] sorted_part[k]).0.len() < e.0@.len(),
                decreases j,
            {
                j = j - 1;
            }
            proof {
                let next = before.take(i + 1);
                assert(next.drop_last() =~= before.take(i as int));
                assert(next.last() == entry_view(e));
                if j > 0 {
                    assert(sorted_part[j - 1].0.len() >= e.0@.len());
                }
                lemma_insertion_point_is(sorted_part, e.0@.len(), j as int);
                lemma_insert_by_length(sorted_part, entry_view(e));
            }
            out.insert(j, e);
            assert(entries_view(out@) =~= sorted_part.insert(j as int, entry_view(e)));
            i = i + 1;
        }
        proof {
            assert(before.take(i as int) =~= before);
            lemma_by_length_sorts(before);
        }
        self.entries = out;
        self.sorted = true;
    }

    /// The short form of `uri`, in bytes: surrounding double quotes are
    /// dropped, and the longest registered namespace that the rest starts
    /// with is replaced by its label and a colon. Where no namespace matches,
    /// `uri` comes back as it was given. The lookup order is sorted on the
    /// way.
    #[verifier::loop_isolation(false)]
    pub fn shorten(&mut self, uri: &[u8]) -> (short: Vec<u8>)
        ensures
            short@ == shortened(old(self)@, uri@),
            final(self)@ == by_length(old(self)@),
            distinct_namespaces(final(self)@),
    {
        proof {
            use_type_invariant(&*self);
        }
        let ghost before = self@;
        if !self.sorted {
            self.sort();
        } else {
            proof {
                lemma_by_length_of_sorted(before);
            }
        }
        let ghost now = self@;
        let text = strip_quote_bytes(uri);
        proof {
            use_type_invariant(&*self);
            lemma_by_length_sorts(before);
            lemma_longest_match_of_sorted(before, text@);
        }
        let mut i: usize = 0;
        while i < self.entries.len()
            invariant
                i <= self.entries@.len(),
                now == entries_view(self.entries@),
                forall|j: int| 0 <= j < i ==> !(#[trigger] now[j]).0.is_prefix_of(text@),
            decreases self.entries@.len() - i,
        {
            if let Some((_, at)) = match_namespace(text, &self.entries[i].0) {
                let mut short = slice_to_vec(&self.entries[i].1);
                short.push(COLON);
                append_bytes(&mut short, slice_subrange(text, at, text.len()));
                proof {
                    lemma_first_match_is_longest(now, text@, i as int);
                    assert(short@ =~= compact(now[i as int], text@));
                }
                return short;
            }
            i = i + 1;
        }
        proof {
            lemma_longest_match(now, text@);
        }
        slice_to_vec(uri)
    }

    /// The short form of `uri` as text: `shorten` on its bytes, decoded.
    pub fn shorten_uri(&mut self, uri: &str) -> (short: String)
        ensures
            short@ == utf8_lossy(shortened(old(self)@, uri.spec_bytes())),
            valid_utf8(shortened(old(self)@, uri.spec_bytes())) ==> short@ == decode_utf8(
                shortened(old(self)@, uri.spec_bytes()),
            ),
            longest_match(old(self)@, strip_quotes(uri.spec_bytes())) is None ==> short@ == uri@,
            final(self)@ == by_length(old(self)@),
            distinct_namespaces(final(self)@),
    {
        proof {
            encode_utf8_valid_utf8(uri@);
            encode_utf8_decode_utf8(uri@);
        }
        let bytes = self.shorten(uri.as_bytes());
        decode_lossy(bytes.as_slice())
    }

    /// The query header in bytes: one `PREFIX label: <namespace>` line for
    /// each entry in lookup order, joined by line feeds, between a leading
    /// and a trailing line feed.
    pub fn header_bytes(&self) -> (header: Vec<u8>)
        ensures
            header@ == query_header(self@),
    {
        let mut header: Vec<u8> = Vec::new();
        header.push(NEWLINE);
        let mut i: usize = 0;
        while i < self.entries.len()
            invariant
                i <= self.entries@.len(),
                self@ == entries_view(self.entries@),
                header@ == seq![NEWLINE] + joined_lines(self@.take(i as int)),
            decreases self.entries@.len() - i,
        {
            let ghost done = header@;
            if i > 0 {
                header.push(NEWLINE);
            }
            push_line(&mut header, &self.entries[i].0, &self.entries[i].1);
            proof {
                let next = self@.take(i + 1);
                assert(next.drop_last() =~= self@.take(i as int));
                assert(next.last() == self@[i as int]);
                assert(next[0] == self@[0]);
                assert(header@ =~= seq![NEWLINE] + joined_lines(next));
            }
            i = i + 1;
        }
        assert(self@.take(i as int) =~= self@);
        header.push(NEWLINE);
        header
    }

    /// Every label with its namespace, in lookup order.
    pub fn fetch_namespace_prefix(&self) -> (pairs: Vec<(Vec<u8>, Vec<u8>)>)
        ensures
            pairs@.len() == self@.len(),
            forall|k: int|
                0 <= k < pairs@.len() ==> (#[trigger] pairs@[k]).0@ == self@[k].1 && pairs@[k].1@
                    == self@[k].0,
    {
        let mut pairs: Vec<(Vec<u8>, Vec<u8>)> = Vec::new();
        let mut i: usize = 0;
        while i < self.entries.len()
            invariant
                i <= self.entries@.len(),
                self@ == entries_view(self.entries@),
                pairs@.len() == i,
                forall|k: int|
                    0 <= k < i ==> (#[trigger] pairs@[k]).0@ == self@[k].1 && pairs@[k].1@
                        == self@[k].0,
            decreases self.entries@.len() - i,
        {
            pairs.push((slice_to_vec(&self.entries[i].1), slice_to_vec(&self.entries[i].0)));
            i = i + 1;
        }
        pairs
    }

    /// The query header as text: `header_bytes`, decoded.
    pub fn format_for_query(&self) -> (header: String)
        ensures
            header@ == utf8_lossy(query_header(self@)),
            valid_utf8(query_header(self@)) ==> header@ == decode_utf8(query_header(self@)),
    {
        let bytes = self.header_bytes();
        decode_lossy(bytes.as_slice())
    }
}

/// Appends `PREFIX label: <namespace>` to `out`.
fn push_line(out: &mut Vec<u8>, namespace: &[u8], label: &[u8])
    ensures
        final(out)@ == old(out)@ + prefix_line((namespace@, label@)),
{
    out.push(80);
    out.push(82);
    out.push(69);
    out.push(70);
    out.push(73);
    out.push(88);
    out.push(32);
    append_bytes(out, label);
    out.push(COLON);
    out.push(32);
    out.push(60);
    append_bytes(out, namespace);
    out.push(62);
    assert(out@ =~= old(out)@ + prefix_line((namespace@, label@)));
}

} // verus!
