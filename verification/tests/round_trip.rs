use oxigraph::model::{GraphNameRef, Literal, NamedNode, QuadRef, Term};
use oxigraph::sparql::QueryResults;
use oxigraph::store::Store;
use sparqlite::prefix::Prefix;
use sparqlite::store::{
    get_namespaces, Object, Statement, RELOAD_QUERY, SH_DECLARATION, XSD_STRING,
};

fn write(store: &Store, statement: &Statement) {
    let subject = NamedNode::new(String::from_utf8(statement.subject.clone()).unwrap()).unwrap();
    let predicate = NamedNode::new(statement.predicate.iri()).unwrap();
    let object: Term = match &statement.object {
        Object::Declaration => NamedNode::new(SH_DECLARATION).unwrap().into(),
        Object::Text(bytes) => Literal::new_typed_literal(
            String::from_utf8(bytes.clone()).unwrap(),
            NamedNode::new(XSD_STRING).unwrap(),
        )
        .into(),
    };
    store
        .insert(QuadRef::new(&subject, &predicate, &object, GraphNameRef::DefaultGraph))
        .unwrap();
}

fn text(term: &Term) -> Vec<u8> {
    match term {
        Term::Literal(literal) => literal.value().as_bytes().to_vec(),
        other => other.to_string().into_bytes(),
    }
}

fn read(store: &Store) -> Vec<(Vec<u8>, Vec<u8>)> {
    let mut rows = Vec::new();
    if let QueryResults::Solutions(solutions) = store.query(RELOAD_QUERY).unwrap() {
        for solution in solutions {
            let solution = solution.unwrap();
            rows.push((
                text(solution.get("namespace").unwrap()),
                text(solution.get("prefix").unwrap()),
            ));
        }
    }
    rows
}

fn sorted_pairs(ns_dict: &Prefix) -> Vec<(Vec<u8>, Vec<u8>)> {
    let mut pairs = ns_dict.fetch_namespace_prefix();
    pairs.sort();
    pairs
}

#[test]
fn saved_registry_is_read_back() {
    let mut ns_dict = Prefix::new();
    ns_dict.add(b"https://example.com/", b"ex");
    ns_dict.add(b"http://www.w3.org/2000/01/rdf-schema#", b"rdfs");
    ns_dict.add(b"http://x/y/", b"xy");
    ns_dict.add(b"http://x/", b"x");

    let store = Store::new().unwrap();
    for statement in ns_dict.save_to_store() {
        write(&store, &statement);
    }
    assert_eq!(store.len().unwrap(), 12);

    let mut reloaded = Prefix::new();
    get_namespaces(&mut reloaded, &read(&store));
    assert_eq!(sorted_pairs(&reloaded), sorted_pairs(&ns_dict));
    assert_eq!(reloaded.shorten_uri("http://x/y/z"), "xy:z");
}

#[test]
fn one_label_for_two_namespaces_is_read_back() {
    let mut ns_dict = Prefix::new();
    ns_dict.add(b"http://a/", b"same");
    ns_dict.add(b"http://b/", b"same");

    let store = Store::new().unwrap();
    for statement in ns_dict.save_to_store() {
        write(&store, &statement);
    }

    let mut reloaded = Prefix::new();
    get_namespaces(&mut reloaded, &read(&store));
    assert_eq!(sorted_pairs(&reloaded), sorted_pairs(&ns_dict));
}

#[test]
fn empty_store_gives_an_empty_registry() {
    let store = Store::new().unwrap();
    let mut reloaded = Prefix::new();
    get_namespaces(&mut reloaded, &read(&store));
    assert_eq!(reloaded.fetch_namespace_prefix().len(), 0);
    assert_eq!(reloaded.format_for_query(), "\n\n");
}
