use sparqlite::prefix::Prefix;
use sparqlite::scan::{find_prefixes, register_captures, DECLARATION_PATTERN};
use sparqlite::store::{
    get_namespaces, Object, Predicate, Statement, RDF_TYPE, SH_DECLARATION, SH_NAMESPACE,
    SH_PREFIX, SUBJECT_STEM, XSD_STRING,
};

fn pairs(ns_dict: &Prefix) -> Vec<(String, String)> {
    ns_dict
        .fetch_namespace_prefix()
        .into_iter()
        .map(|(p, n)| (String::from_utf8(p).unwrap(), String::from_utf8(n).unwrap()))
        .collect()
}

fn pair(prefix: &str, namespace: &str) -> (String, String) {
    (prefix.to_string(), namespace.to_string())
}

fn text_of(object: &Object) -> Option<&[u8]> {
    match object {
        Object::Text(bytes) => Some(bytes),
        Object::Declaration => None,
    }
}

#[test]
fn finds_declarations_in_file_bytes() {
    let contents = b"@prefix ex: <https://example.com/> .\nPREFIX rdf: <http://www.w3.org/1999/02/22-rdf-syntax-ns#>\nex:a ex:b ex:c .\n".to_vec();
    let mut ns_dict = Prefix::new();
    find_prefixes(&contents, &mut ns_dict);
    assert_eq!(
        pairs(&ns_dict),
        vec![
            pair("ex", "https://example.com/"),
            pair("rdf", "http://www.w3.org/1999/02/22-rdf-syntax-ns#"),
        ]
    );
}

#[test]
fn keyword_matches_in_any_case() {
    let contents = b"PrEfIx a-b_1: <http://x/y#>\nprefix c:\t <urn:z>".to_vec();
    let mut ns_dict = Prefix::new();
    find_prefixes(&contents, &mut ns_dict);
    assert_eq!(pairs(&ns_dict), vec![pair("a-b_1", "http://x/y#"), pair("c", "urn:z")]);
}

#[test]
fn declarations_outside_the_pattern_are_passed_over() {
    let mut ns_dict = Prefix::new();
    // no white space behind the colon
    find_prefixes(&b"PREFIX ex:<https://example.com/>".to_vec(), &mut ns_dict);
    // no white space behind the keyword
    find_prefixes(&b"PREFIXex: <https://example.com/>".to_vec(), &mut ns_dict);
    // a character outside the namespace's class
    find_prefixes(&b"PREFIX ex: <https://example.com/?q>".to_vec(), &mut ns_dict);
    // an empty label
    find_prefixes(&b"PREFIX : <https://example.com/>".to_vec(), &mut ns_dict);
    // an empty namespace
    find_prefixes(&b"PREFIX ex: <>".to_vec(), &mut ns_dict);
    // a label with a letter outside ASCII
    find_prefixes(&"PREFIX \u{e9}: <https://example.com/>".as_bytes().to_vec(), &mut ns_dict);
    // nothing at all
    find_prefixes(&Vec::new(), &mut ns_dict);
    assert_eq!(pairs(&ns_dict), Vec::<(String, String)>::new());
}

#[test]
fn declarations_accumulate_over_files() {
    let mut ns_dict = Prefix::new();
    find_prefixes(&b"PREFIX a: <http://a/>".to_vec(), &mut ns_dict);
    find_prefixes(&b"PREFIX b: <http://b/>\nPREFIX other: <http://a/>".to_vec(), &mut ns_dict);
    assert_eq!(pairs(&ns_dict), vec![pair("a", "http://a/"), pair("b", "http://b/")]);
}

#[test]
fn the_pattern_is_a_regular_expression() {
    let re = regex::bytes::Regex::new(DECLARATION_PATTERN).unwrap();
    assert_eq!(re.captures_len(), 3);
}

#[test]
fn incomplete_captures_are_passed_over() {
    let mut ns_dict = Prefix::new();
    let captures = vec![
        (Some(b"a".to_vec()), Some(b"http://a/".to_vec())),
        (None, Some(b"http://b/".to_vec())),
        (Some(b"c".to_vec()), None),
        (None, None),
        (Some(b"d".to_vec()), Some(b"http://d/".to_vec())),
    ];
    register_captures(&mut ns_dict, &captures);
    assert_eq!(pairs(&ns_dict), vec![pair("a", "http://a/"), pair("d", "http://d/")]);
}

#[test]
fn vocabulary_is_the_shacl_one() {
    assert_eq!(RDF_TYPE, "http://www.w3.org/1999/02/22-rdf-syntax-ns#type");
    assert_eq!(SH_DECLARATION, "http://www.w3.org/ns/shacl#PrefixDeclaration");
    assert_eq!(SH_PREFIX, "http://www.w3.org/ns/shacl#prefix");
    assert_eq!(SH_NAMESPACE, "http://www.w3.org/ns/shacl#namespace");
    assert_eq!(XSD_STRING, "http://www.w3.org/2001/XMLSchema#string");
    assert_eq!(SUBJECT_STEM, "https://sparqlite.github.io/_");
    assert_eq!(Predicate::Type.iri(), RDF_TYPE);
    assert_eq!(Predicate::Prefix.iri(), SH_PREFIX);
    assert_eq!(Predicate::Namespace.iri(), SH_NAMESPACE);
}

#[test]
fn each_entry_is_saved_as_three_statements() {
    let mut ns_dict = Prefix::new();
    ns_dict.add(b"https://example.com/", b"ex");
    ns_dict.add(b"http://x/", b"x");
    let statements: Vec<Statement> = ns_dict.save_to_store();
    assert_eq!(statements.len(), 6);
    for s in &statements[0..3] {
        assert_eq!(s.subject, b"https://sparqlite.github.io/_ex");
    }
    for s in &statements[3..6] {
        assert_eq!(s.subject, b"https://sparqlite.github.io/_x");
    }
    assert_eq!(statements[0].predicate, Predicate::Type);
    assert!(matches!(statements[0].object, Object::Declaration));
    assert_eq!(statements[1].predicate, Predicate::Prefix);
    assert_eq!(text_of(&statements[1].object), Some(&b"ex"[..]));
    assert_eq!(statements[2].predicate, Predicate::Namespace);
    assert_eq!(text_of(&statements[2].object), Some(&b"https://example.com/"[..]));
    assert_eq!(statements[3].predicate, Predicate::Type);
    assert!(matches!(statements[3].object, Object::Declaration));
    assert_eq!(text_of(&statements[4].object), Some(&b"x"[..]));
    assert_eq!(text_of(&statements[5].object), Some(&b"http://x/"[..]));
}

#[test]
fn empty_registry_saves_nothing() {
    assert!(Prefix::new().save_to_store().is_empty());
}

#[test]
fn rows_are_registered_first_come_first_kept() {
    let mut ns_dict = Prefix::new();
    let rows = vec![
        (b"http://a/".to_vec(), b"a".to_vec()),
        (b"http://b/".to_vec(), b"b".to_vec()),
        (b"http://a/".to_vec(), b"again".to_vec()),
    ];
    get_namespaces(&mut ns_dict, &rows);
    assert_eq!(pairs(&ns_dict), vec![pair("a", "http://a/"), pair("b", "http://b/")]);
    get_namespaces(&mut ns_dict, &Vec::new());
    assert_eq!(pairs(&ns_dict).len(), 2);
}
