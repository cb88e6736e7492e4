use sparqlite::prefix::Prefix;
use sparqlite::text::{match_namespace, strip_quote_bytes, transform_to_bytes};

#[test]
fn should_shorten_uri() {
    let mut ns_dict = Prefix::new();
    let namespace = "https://example.com/".as_bytes();
    let prefix = "ex".as_bytes();

    ns_dict.add(&namespace, &prefix);

    let uri = "https://example.com/_test_example";
    let res = ns_dict.shorten_uri(uri);
    assert!(res == "ex:_test_example");
}

#[test]
fn should_shorten_escaped_quotes() {
    let mut ns_dict = Prefix::new();
    let namespace = "http://www.w3.org/2000/01/rdf-schema#".as_bytes();
    let prefix = "rdf".as_bytes();

    ns_dict.add(&namespace, &prefix);

    let uri = "\"http://www.w3.org/2000/01/rdf-schema#comment\"";
    let res = ns_dict.shorten_uri(uri);
    assert_eq!(res, "rdf:comment");
}

#[test]
fn should_return_formatted_prefixes() {
    let mut ns_dict = Prefix::new();

    let rdf_ns = "http://www.w3.org/2000/01/rdf-schema#".as_bytes();
    let rdf_pref = "rdf".as_bytes();
    ns_dict.add(&rdf_ns, &rdf_pref);

    let ex_ns = "https://example.com/".as_bytes();
    let ex_pref = "ex".as_bytes();
    ns_dict.add(&ex_ns, &ex_pref);
    ns_dict.sort();

    let expected_result = "\nPREFIX rdf: <http://www.w3.org/2000/01/rdf-schema#>\nPREFIX ex: <https://example.com/>\n";
    assert_eq!(expected_result, ns_dict.format_for_query());
}

#[test]
fn empty_registry_formats_as_two_newlines() {
    let ns_dict = Prefix::new();
    assert_eq!(ns_dict.format_for_query(), "\n\n");
    assert_eq!(ns_dict.header_bytes(), vec![10u8, 10u8]);
}

#[test]
fn single_entry_header_has_one_line() {
    let mut ns_dict = Prefix::new();
    ns_dict.add(b"https://example.com/", b"ex");
    assert_eq!(ns_dict.format_for_query(), "\nPREFIX ex: <https://example.com/>\n");
}

#[test]
fn header_keeps_registration_order_until_sorted() {
    let mut ns_dict = Prefix::new();
    ns_dict.add(b"http://a/", b"a");
    ns_dict.add(b"http://a/longer/", b"b");
    assert_eq!(
        ns_dict.format_for_query(),
        "\nPREFIX a: <http://a/>\nPREFIX b: <http://a/longer/>\n"
    );
    let _ = ns_dict.shorten_uri("nothing");
    assert_eq!(
        ns_dict.format_for_query(),
        "\nPREFIX b: <http://a/longer/>\nPREFIX a: <http://a/>\n"
    );
}

#[test]
fn first_label_stays_in_effect() {
    let mut ns_dict = Prefix::new();
    ns_dict.add(b"https://example.com/", b"ex");
    ns_dict.add(b"https://example.com/", b"other");
    assert_eq!(ns_dict.get(b"https://example.com/"), Some(b"ex".to_vec()));
    assert_eq!(ns_dict.shorten_uri("https://example.com/x"), "ex:x");
    assert_eq!(ns_dict.format_for_query(), "\nPREFIX ex: <https://example.com/>\n");
}

#[test]
fn get_of_unknown_namespace_is_none() {
    let mut ns_dict = Prefix::new();
    assert_eq!(ns_dict.get(b"https://example.com/"), None);
    ns_dict.add(b"https://example.com/", b"ex");
    assert_eq!(ns_dict.get(b"https://example.com"), None);
    assert_eq!(ns_dict.get(b"https://example.com/x"), None);
}

#[test]
fn longer_namespace_is_preferred() {
    let mut ns_dict = Prefix::new();
    ns_dict.add(b"http://x/", b"short");
    ns_dict.add(b"http://x/y/", b"long");
    assert_eq!(ns_dict.shorten_uri("http://x/y/z"), "long:z");
    assert_eq!(ns_dict.shorten_uri("http://x/w"), "short:w");

    let mut other_order = Prefix::new();
    other_order.add(b"http://x/y/", b"long");
    other_order.add(b"http://x/", b"short");
    assert_eq!(other_order.shorten_uri("http://x/y/z"), "long:z");
    assert_eq!(other_order.shorten_uri("http://x/w"), "short:w");
}

#[test]
fn unmatched_uri_comes_back_as_given() {
    let mut ns_dict = Prefix::new();
    ns_dict.add(b"https://example.com/", b"ex");
    assert_eq!(ns_dict.shorten_uri("http://other.org/a"), "http://other.org/a");
    assert_eq!(ns_dict.shorten_uri("\"http://other.org/a\""), "\"http://other.org/a\"");
    assert_eq!(ns_dict.shorten_uri(""), "");
    assert_eq!(ns_dict.shorten_uri("\""), "\"");
}

#[test]
fn namespace_longer_than_uri_does_not_match() {
    let mut ns_dict = Prefix::new();
    ns_dict.add(b"https://example.com/", b"ex");
    assert_eq!(ns_dict.shorten_uri("https://exa"), "https://exa");
    assert_eq!(ns_dict.shorten_uri("https://example.com"), "https://example.com");
    assert_eq!(ns_dict.shorten_uri("https://example.com/"), "ex:");
}

#[test]
fn only_one_quote_is_stripped_at_each_end() {
    let mut ns_dict = Prefix::new();
    ns_dict.add(b"http://x/", b"x");
    assert_eq!(ns_dict.shorten_uri("\"http://x/a"), "x:a");
    assert_eq!(ns_dict.shorten_uri("http://x/a\""), "x:a");
    assert_eq!(ns_dict.shorten_uri("\"http://x/a\"\""), "x:a\"");
    assert_eq!(ns_dict.shorten_uri("\"\"http://x/a\""), "\"\"http://x/a\"");
}

#[test]
fn shorten_works_on_bytes() {
    let mut ns_dict = Prefix::new();
    ns_dict.add(&[0xff, 0x00], &[0x41]);
    assert_eq!(ns_dict.shorten(&[0xff, 0x00, 0x42, 0x43]), vec![0x41, 58, 0x42, 0x43]);
    assert_eq!(ns_dict.shorten(&[0xff, 0x01]), vec![0xff, 0x01]);
    assert_eq!(ns_dict.shorten(&[34, 0xff, 0x00, 34]), vec![0x41, 58]);
}

#[test]
fn split_character_is_decoded_with_replacement() {
    let mut ns_dict = Prefix::new();
    // the namespace ends in the middle of the two bytes of 'é'
    ns_dict.add(&[b'a', 0xc3], b"p");
    assert_eq!(ns_dict.shorten_uri("a\u{e9}b"), "p:\u{fffd}b");
}

#[test]
fn sort_is_stable_for_equal_lengths() {
    let mut ns_dict = Prefix::new();
    ns_dict.add(b"bb", b"1");
    ns_dict.add(b"a", b"2");
    ns_dict.add(b"cc", b"3");
    ns_dict.add(b"dddd", b"4");
    ns_dict.add(b"e", b"5");
    ns_dict.sort();
    assert_eq!(
        ns_dict.fetch_namespace_prefix(),
        vec![
            (b"4".to_vec(), b"dddd".to_vec()),
            (b"1".to_vec(), b"bb".to_vec()),
            (b"3".to_vec(), b"cc".to_vec()),
            (b"2".to_vec(), b"a".to_vec()),
            (b"5".to_vec(), b"e".to_vec()),
        ]
    );
    ns_dict.sort();
    assert_eq!(ns_dict.fetch_namespace_prefix().len(), 5);
    assert_eq!(ns_dict.fetch_namespace_prefix()[0], (b"4".to_vec(), b"dddd".to_vec()));
    assert_eq!(ns_dict.fetch_namespace_prefix()[4], (b"5".to_vec(), b"e".to_vec()));
}

#[test]
fn registration_after_sorting_is_sorted_in_again() {
    let mut ns_dict = Prefix::new();
    ns_dict.add(b"http://x/", b"short");
    assert_eq!(ns_dict.shorten_uri("http://x/y/z"), "short:y/z");
    ns_dict.add(b"http://x/y/", b"long");
    assert_eq!(ns_dict.shorten_uri("http://x/y/z"), "long:z");
}

#[test]
fn empty_namespace_matches_everything() {
    let mut ns_dict = Prefix::new();
    ns_dict.add(b"", b"any");
    assert_eq!(ns_dict.shorten_uri("abc"), "any:abc");
    assert_eq!(ns_dict.shorten_uri(""), "any:");
    ns_dict.add(b"ab", b"ab");
    assert_eq!(ns_dict.shorten_uri("abc"), "ab:c");
}

#[test]
fn transform_to_bytes_strips_quotes() {
    assert_eq!(transform_to_bytes("\"abc\""), b"abc");
    assert_eq!(transform_to_bytes("abc"), b"abc");
    assert_eq!(transform_to_bytes("\"abc"), b"abc");
    assert_eq!(transform_to_bytes("abc\""), b"abc");
    assert_eq!(transform_to_bytes("\""), b"");
    assert_eq!(transform_to_bytes("\"\""), b"");
    assert_eq!(transform_to_bytes("\"\"\""), b"\"");
    assert_eq!(transform_to_bytes(""), b"");
    assert_eq!(strip_quote_bytes(&[34, 1, 34]), &[1]);
}

#[test]
fn match_namespace_checks_bounds() {
    let namespace = b"https://example.com/".to_vec();
    assert_eq!(match_namespace(b"https://example.com/a", &namespace), Some((&namespace, 20)));
    assert_eq!(match_namespace(b"https://example.com/", &namespace), Some((&namespace, 20)));
    assert_eq!(match_namespace(b"https://example.com", &namespace), None);
    assert_eq!(match_namespace(b"", &namespace), None);
    assert_eq!(match_namespace(b"https://example.org/a", &namespace), None);
    let empty: Vec<u8> = Vec::new();
    assert_eq!(match_namespace(b"", &empty), Some((&empty, 0)));
}
