//! Putting a query together, and turning the bindings of a result row into
//! the cells of a table.

use vstd::prelude::*;
use vstd::string::StringExecFns;
use vstd::utf8::encode_utf8;
use crate::laws::{law_sorting_is_stable, law_sorting_keeps_short_forms};
use crate::model::{by_length, distinct_namespaces, query_header, shortened, Entries};
use crate::prefix::Prefix;
use crate::text::utf8_lossy;

verus! {

/// `query` behind `header` and an empty line, or `query` alone.
pub open spec fn with_header(header: Seq<char>, query: Seq<char>, inject: bool) -> Seq<char> {
    if inject {
        header + seq!['\n', '\n'] + query
    } else {
        query
    }
}

/// The text to run for `query`: with the registry's header in front where
/// `is_prefix_injected` says so, else as it stands.
pub fn formatted_query(ns_dict: &Prefix, query: &str, is_prefix_injected: bool) -> (text: String)
    ensures
        text@ == with_header(utf8_lossy(query_header(ns_dict@)), query@, is_prefix_injected),
{
    if is_prefix_injected {
        proof {
            reveal_strlit("\n\n");
            assert("\n\n"@ =~= seq!['\n', '\n']);
        }
        ns_dict.format_for_query().concat("\n\n").concat(query)
    } else {
        String::from_str(query)
    }
}

/// What one variable is bound to in one row of a result.
#[derive(Debug)]
pub enum Binding {
    /// An IRI; the text may stand in double quotes.
    Uri(String),
    /// A literal, as the text to show.
    Literal(String),
    /// A blank node, as the text to show.
    BlankNode(String),
    /// A quoted triple: subject, predicate, object, each as the text to show.
    Triple(String, String, String),
    /// A term of a kind that has no cell.
    Other,
    /// The variable has no value in this row.
    Unbound,
}

/// The model of a `Binding`.
pub enum BindingModel {
    Uri(Seq<char>),
    Literal(Seq<char>),
    BlankNode(Seq<char>),
    Triple(Seq<char>, Seq<char>, Seq<char>),
    Other,
    Unbound,
}

impl View for Binding {
    type V = BindingModel;

    open spec fn view(&self) -> BindingModel {
        match self {
            Binding::Uri(v) => BindingModel::Uri(v@),
            Binding::Literal(v) => BindingModel::Literal(v@),
            Binding::BlankNode(v) => BindingModel::BlankNode(v@),
            Binding::Triple(s, p, o) => BindingModel::Triple(s@, p@, o@),
            Binding::Other => BindingModel::Other,
            Binding::Unbound => BindingModel::Unbound,
        }
    }
}

/// The models of a vector of bindings.
pub open spec fn bindings_view(v: Seq<Binding>) -> Seq<BindingModel> {
    v.map_values(|b: Binding| b@)
}

/// The texts of a vector of strings.
pub open spec fn texts_view(v: Seq<String>) -> Seq<Seq<char>> {
    v.map_values(|s: String| s@)
}

/// The cell for a binding: an IRI in its short form, a literal or a blank
/// node as it is, a triple with tabs between its parts, an empty cell for a
/// variable without value, and no cell for any other term.
pub open spec fn cell_text(m: Entries, binding: BindingModel) -> Option<Seq<char>> {
    match binding {
        BindingModel::Uri(v) => Some(utf8_lossy(shortened(m, encode_utf8(v)))),
        BindingModel::Literal(v) => Some(v),
        BindingModel::BlankNode(v) => Some(v),
        BindingModel::Triple(s, p, o) => Some(s + seq!['\t'] + p + seq!['\t'] + o),
        BindingModel::Other => None,
        BindingModel::Unbound => Some(Seq::empty()),
    }
}

/// The cells of a row: those of its bindings that have one, in order.
pub open spec fn row_cells(m: Entries, bindings: Seq<BindingModel>) -> Seq<Seq<char>>
    decreases bindings.len(),
{
    if bindings.len() == 0 {
        Seq::empty()
    } else {
        let before = row_cells(m, bindings.drop_last());
        match cell_text(m, bindings.last()) {
            Some(text) => before.push(text),
            None => before,
        }
    }
}

/// Some binding is an IRI.
pub open spec fn has_uri(bindings: Seq<BindingModel>) -> bool {
    exists|i: int| 0 <= i < bindings.len() && #[trigger] bindings[i] is Uri
}

/// The cell for `binding`. Shortening an IRI sorts the registry.
pub fn cell(ns_dict: &mut Prefix, binding: &Binding) -> (text: Option<String>)
    ensures
        text.deep_view() == cell_text(old(ns_dict)@, binding@),
        final(ns_dict)@ == if binding@ is Uri {
            by_length(old(ns_dict)@)
        } else {
            old(ns_dict)@
        },
{
    match binding {
        Binding::Uri(v) => Some(ns_dict.shorten_uri(v.as_str())),
        Binding::Literal(v) => Some(v.clone()),
        Binding::BlankNode(v) => Some(v.clone()),
        Binding::Triple(s, p, o) => {
            proof {
                reveal_strlit("\t");
                assert("\t"@ =~= seq!['\t']);
            }
            Some(s.clone().concat("\t").concat(p.as_str()).concat("\t").concat(o.as_str()))
        },
        Binding::Other => None,
        Binding::Unbound => Some(String::new()),
    }
}

/// The cells of one row of a result. The registry is sorted where the row
/// holds an IRI.
pub fn row(ns_dict: &mut Prefix, bindings: &Vec<Binding>) -> (cells: Vec<String>)
    ensures
        texts_view(cells@) == row_cells(old(ns_dict)@, bindings_view(bindings@)),
        final(ns_dict)@ == if has_uri(bindings_view(bindings@)) {
            by_length(old(ns_dict)@)
        } else {
            old(ns_dict)@
        },
{
    let ghost start = ns_dict@;
    let ghost all = bindings_view(bindings@);
    proof {
        use_type_invariant(&*ns_dict);
        ns_dict.lemma_distinct();
    }
    let mut cells: Vec<String> = Vec::new();
    assert(texts_view(cells@) =~= row_cells(start, all.take(0)));
    let mut i: usize = 0;
    while i < bindings.len()
        invariant
            i <= bindings@.len(),
            all == bindings_view(bindings@),
            distinct_namespaces(start),
            texts_view(cells@) == row_cells(start, all.take(i as int)),
            ns_dict@ == if has_uri(all.take(i as int)) {
                by_length(start)
            } else {
                start
            },
        decreases bindings@.len() - i,
    {
        let ghost done = texts_view(cells@);
        let ghost before = ns_dict@;
        let text = cell(ns_dict, &bindings[i]);
        proof {
            let seen = all.take(i as int);
            let next = all.take(i + 1);
            assert(next.drop_last() =~= seen);
            assert(next.last() == all[i as int]);
            if let BindingModel::Uri(v) = all[i as int] {
                law_sorting_keeps_short_forms(start, encode_utf8(v));
                law_sorting_is_stable(start, Seq::empty());
                assert(next[i as int] is Uri);
            }
            if has_uri(seen) {
                let k = choose|k: int| 0 <= k < seen.len() && #[trigger] seen[k] is Uri;
                assert(next[k] is Uri);
            }
            if has_uri(next) && !(all[i as int] is Uri) {
                let k = choose|k: int| 0 <= k < next.len() && #[trigger] next[k] is Uri;
                assert(seen[k] is Uri);
            }
        }
        match text {
            Some(t) => {
                cells.push(t);
                assert(texts_view(cells@) =~= done.push(t@));
            },
            None => {},
        }
        i = i + 1;
    }
    assert(all.take(i as int) =~= all);
    cells
}

} // verus!
