//! The shape in which prefix declarations are kept in an RDF store, and the
//! way back from stored rows to a registry.

use vstd::prelude::*;
use vstd::slice::slice_to_vec;
use vstd::string::StringSliceAdditionalSpecFns;
use crate::model::{register_all, Entries, Entry};
use crate::prefix::{entries_view, Prefix};
use crate::text::append_bytes;

verus! {

/// The IRI of `rdf:type`.
pub const RDF_TYPE: &'static str = "http://www.w3.org/1999/02/22-rdf-syntax-ns#type";

/// The IRI of `sh:PrefixDeclaration`.
pub const SH_DECLARATION: &'static str = "http://www.w3.org/ns/shacl#PrefixDeclaration";

/// The IRI of `sh:prefix`.
pub const SH_PREFIX: &'static str = "http://www.w3.org/ns/shacl#prefix";

/// The IRI of `sh:namespace`.
pub const SH_NAMESPACE: &'static str = "http://www.w3.org/ns/shacl#namespace";

/// The IRI of `xsd:string`, the datatype of both literals of a declaration.
pub const XSD_STRING: &'static str = "http://www.w3.org/2001/XMLSchema#string";

/// What the subject of a declaration starts with; the label follows.
pub const SUBJECT_STEM: &'static str = "https://sparqlite.github.io/_";

/// The query that reads the declarations back.
pub const RELOAD_QUERY: &'static str = "
PREFIX sh: <http://www.w3.org/ns/shacl#>

SELECT ?prefix ?namespace
WHERE {
    ?declaration
        a sh:PrefixDeclaration ;
        sh:prefix ?prefix ;
        sh:namespace ?namespace ;
    .
}
        ";

/// The predicate of a stored statement.
#[derive(Clone, Copy, Debug, PartialEq, Eq, Structural)]
pub enum Predicate {
    /// `rdf:type`
    Type,
    /// `sh:prefix`
    Prefix,
    /// `sh:namespace`
    Namespace,
}

/// The object of a stored statement.
#[derive(Debug)]
pub enum Object {
    /// The class `sh:PrefixDeclaration`.
    Declaration,
    /// A literal of type `xsd:string` with these bytes as its lexical form.
    Text(Vec<u8>),
}

/// One statement of the default graph.
#[derive(Debug)]
pub struct Statement {
    /// The bytes of the subject's IRI.
    pub subject: Vec<u8>,
    pub predicate: Predicate,
    pub object: Object,
}

/// The model of an `Object`.
pub enum ObjectModel {
    Declaration,
    Text(Seq<u8>),
}

/// The model of a `Statement`.
pub struct StatementModel {
    pub subject: Seq<u8>,
    pub predicate: Predicate,
    pub object: ObjectModel,
}

impl View for Object {
    type V = ObjectModel;

    open spec fn view(&self) -> ObjectModel {
        match self {
            Object::Declaration => ObjectModel::Declaration,
            Object::Text(bytes) => ObjectModel::Text(bytes@),
        }
    }
}

impl View for Statement {
    type V = StatementModel;

    open spec fn view(&self) -> StatementModel {
        StatementModel {
            subject: self.subject@,
            predicate: self.predicate,
            object: self.object@,
        }
    }
}

/// The models of a vector of statements.
pub open spec fn statements_view(v: Seq<Statement>) -> Seq<StatementModel> {
    v.map_values(|s: Statement| s@)
}

/// The IRI of a predicate.
pub open spec fn predicate_iri(p: Predicate) -> Seq<char> {
    match p {
        Predicate::Type => RDF_TYPE@,
        Predicate::Prefix => SH_PREFIX@,
        Predicate::Namespace => SH_NAMESPACE@,
    }
}

impl Predicate {
    /// The IRI of this predicate.
    pub fn iri(&self) -> (iri: &'static str)
        ensures
            iri@ == predicate_iri(*self),
    {
        match self {
            Predicate::Type => RDF_TYPE,
            Predicate::Prefix => SH_PREFIX,
            Predicate::Namespace => SH_NAMESPACE,
        }
    }
}

/// The subject that stands for the declaration of `label`: the stem, then
/// the label.
pub open spec fn subject_of(label: Seq<u8>) -> Seq<u8> {
    SUBJECT_STEM.spec_bytes() + label
}

/// The three statements that declare `e`: its type, its label, its
/// namespace, in this order and all on one subject.
pub open spec fn declaration(e: Entry) -> Seq<StatementModel> {
    seq![
        StatementModel {
            subject: subject_of(e.1),
            predicate: Predicate::Type,
            object: ObjectModel::Declaration,
        },
        StatementModel {
            subject: subject_of(e.1),
            predicate: Predicate::Prefix,
            object: ObjectModel::Text(e.1),
        },
        StatementModel {
            subject: subject_of(e.1),
            predicate: Predicate::Namespace,
            object: ObjectModel::Text(e.0),
        },
    ]
}

/// The statements that declare every entry of `m`, entry by entry.
pub open spec fn declarations(m: Entries) -> Seq<StatementModel> {
    m.flat_map(|e: Entry| declaration(e))
}

/// The pairs that the reload query selects from a set of statements: the
/// namespace and the label of every subject that is typed as a declaration.
pub open spec fn selected(statements: Set<StatementModel>) -> Set<Entry> {
    Set::new(
        |e: Entry|
            exists|subject: Seq<u8>|
                {
                    &&& #[trigger] statements.contains(
                        StatementModel {
                            subject,
                            predicate: Predicate::Type,
                            object: ObjectModel::Declaration,
                        },
                    )
                    &&& statements.contains(
                        StatementModel {
                            subject,
                            predicate: Predicate::Prefix,
                            object: ObjectModel::Text(e.1),
                        },
                    )
                    &&& statements.contains(
                        StatementModel {
                            subject,
                            predicate: Predicate::Namespace,
                            object: ObjectModel::Text(e.0),
                        },
                    )
                },
    )
}

impl Prefix {
    /// The statements that saving the registry writes: three for each entry,
    /// in lookup order.
    pub fn save_to_store(&self) -> (statements: Vec<Statement>)
        ensures
            statements_view(statements@) == declarations(self@),
    {
        let pairs = self.fetch_namespace_prefix();
        let ghost each = |e: Entry| declaration(e);
        let mut statements: Vec<Statement> = Vec::new();
        assert(statements_view(statements@) =~= self@.take(0).flat_map(each)) by {
            assert(self@.take(0) =~= Entries::empty());
            assert(Entries::empty().map_values(each) =~= Seq::<Seq<StatementModel>>::empty());
        }
        let mut i: usize = 0;
        while i < pairs.len()
            invariant
                i <= pairs@.len(),
                pairs@.len() == self@.len(),
                each == |e: Entry| declaration(e),
                forall|k: int|
                    0 <= k < pairs@.len() ==> (#[trigger] pairs@[k]).0@ == self@[k].1 && pairs@[k].1@
                        == self@[k].0,
                statements_view(statements@) == self@.take(i as int).flat_map(each),
            decreases pairs@.len() - i,
        {
            let ghost done = statements_view(statements@);
            let label = &pairs[i].0;
            let namespace = &pairs[i].1;
            let mut subject = slice_to_vec(SUBJECT_STEM.as_bytes());
            append_bytes(&mut subject, label);
            statements.push(
                Statement {
                    subject: slice_to_vec(&subject),
                    predicate: Predicate::Type,
                    object: Object::Declaration,
                },
            );
            statements.push(
                Statement {
                    subject: slice_to_vec(&subject),
                    predicate: Predicate::Prefix,
                    object: Object::Text(slice_to_vec(label)),
                },
            );
            statements.push(
                Statement {
                    subject,
                    predicate: Predicate::Namespace,
                    object: Object::Text(slice_to_vec(namespace)),
                },
            );
            proof {
                let e = self@[i as int];
                assert(self@.take(i + 1) =~= self@.take(i as int).push(e));
                self@.take(i as int).lemma_flat_map_push(each, e);
                assert(statements_view(statements@) =~= done + declaration(e));
            }
            i = i + 1;
        }
        assert(self@.take(i as int) =~= self@);
        statements
    }
}

/// Registers every row that the reload query gave, in the order given. A row
/// is a namespace and its label.
pub fn get_namespaces(ns_dict: &mut Prefix, rows: &Vec<(Vec<u8>, Vec<u8>)>)
    ensures
        final(ns_dict)@ == register_all(old(ns_dict)@, entries_view(rows@)),
{
    let ghost all = entries_view(rows@);
    let mut i: usize = 0;
    while i < rows.len()
        invariant
            i <= rows@.len(),
            all == entries_view(rows@),
            ns_dict@ == register_all(old(ns_dict)@, all.take(i as int)),
        decreases rows@.len() - i,
    {
        ns_dict.add(&rows[i].0, &rows[i].1);
        proof {
            let next = all.take(i + 1);
            assert(next.drop_last() =~= all.take(i as int));
            assert(next.last() == all[i as int]);
        }
        i = i + 1;
    }
    assert(all.take(i as int) =~= all);
}

} // verus!
