use sparqlite::repl::{
    validate_sparql_string, verdict, Collecting, Input, SparqlValidator, Step, ValidationState,
};
use sparqlite::prefix::Prefix;
use sparqlite::store::RELOAD_QUERY;

#[test]
fn valid_validation() {
    let valid_query = "SELECT ?s ?p ?o { ?s ?p ?o . }";
    let result = validate_sparql_string(valid_query);
    match result {
        ValidationState::Valid => {
            assert!(true);
        }
        _ => assert!(false),
    }
}

#[test]
fn invalid_validation() {
    let incomplete_query = "SELECT ?s ?p ?o { ?s ?p. }";
    let result = validate_sparql_string(incomplete_query);
    match result {
        ValidationState::Incomplete => assert!(true),
        _ => panic!("Not good"),
    }
}

#[test]
fn second_invalid_validation() {
    let incomplete_query = "SELECT ?s ?p ?o ";
    let result = validate_sparql_string(incomplete_query);
    match result {
        ValidationState::Incomplete => assert!(true),
        _ => panic!("Not good"),
    }
}

#[test]
fn verdict_follows_the_parse() {
    assert_eq!(verdict(true), ValidationState::Valid);
    assert_eq!(verdict(false), ValidationState::Incomplete);
}

#[test]
fn validator_agrees_with_the_function() {
    let validator = SparqlValidator::new();
    assert_eq!(validator.validate("ASK { ?s ?p ?o }"), ValidationState::Valid);
    assert_eq!(validator.validate("ASK { ?s ?p"), ValidationState::Incomplete);
    assert_eq!(validator.validate(""), ValidationState::Incomplete);
    assert_eq!(SparqlValidator::default().validate("nonsense"), ValidationState::Incomplete);
}

#[test]
fn reload_query_is_a_query() {
    assert_eq!(validate_sparql_string(RELOAD_QUERY), ValidationState::Valid);
}

#[test]
fn header_makes_prefixed_names_parse() {
    let mut ns_dict = Prefix::new();
    ns_dict.add(b"https://example.com/", b"ex");
    let body = "SELECT ?s { ?s ex:p ex:o }";
    assert_eq!(validate_sparql_string(body), ValidationState::Incomplete);
    let query = format!("{}\n\n{}", ns_dict.format_for_query(), body);
    assert_eq!(validate_sparql_string(&query), ValidationState::Valid);
}

#[test]
fn one_complete_line_ends_the_collecting() {
    let state = Collecting::new();
    match state.step(Input::Line("SELECT ?s ?p ?o { ?s ?p ?o . }".to_string())) {
        Step::Complete(query) => assert_eq!(query, "SELECT ?s ?p ?o { ?s ?p ?o . }"),
        other => panic!("unexpected step {:?}", other),
    }
}

#[test]
fn lines_are_joined_by_line_feeds() {
    let state = Collecting::new();
    let state = match state.step(Input::Line("SELECT ?s ?p ?o ".to_string())) {
        Step::Continue(state) => state,
        other => panic!("unexpected step {:?}", other),
    };
    assert_eq!(state.offer("x"), "SELECT ?s ?p ?o \nx");
    let state = match state.step(Input::Line("{ ?s ?p".to_string())) {
        Step::Continue(state) => state,
        other => panic!("unexpected step {:?}", other),
    };
    match state.step(Input::Line("?o . }".to_string())) {
        Step::Complete(query) => assert_eq!(query, "SELECT ?s ?p ?o \n{ ?s ?p\n?o . }"),
        other => panic!("unexpected step {:?}", other),
    }
}

#[test]
fn closed_input_aborts() {
    match Collecting::new().step(Input::Closed) {
        Step::Aborted => {}
        other => panic!("unexpected step {:?}", other),
    }
    let state = match Collecting::new().step(Input::Line("SELECT".to_string())) {
        Step::Continue(state) => state,
        other => panic!("unexpected step {:?}", other),
    };
    match state.step(Input::Closed) {
        Step::Aborted => {}
        other => panic!("unexpected step {:?}", other),
    }
}

#[test]
fn settle_keeps_or_hands_out_the_text() {
    match Collecting::settle("ASK {}".to_string(), ValidationState::Valid) {
        Step::Complete(query) => assert_eq!(query, "ASK {}"),
        other => panic!("unexpected step {:?}", other),
    }
    match Collecting::settle("ASK {".to_string(), ValidationState::Incomplete) {
        Step::Continue(state) => assert_eq!(state.offer(""), "ASK {\n"),
        other => panic!("unexpected step {:?}", other),
    }
}

#[test]
fn malformed_input_is_never_an_error() {
    let state = Collecting::new();
    let state = match state.step(Input::Line("this is not a query".to_string())) {
        Step::Continue(state) => state,
        other => panic!("unexpected step {:?}", other),
    };
    match state.step(Input::Line("}}}}".to_string())) {
        Step::Continue(state) => assert_eq!(state.offer(""), "this is not a query\n}}}}\n"),
        other => panic!("unexpected step {:?}", other),
    }
}
