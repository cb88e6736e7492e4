//! Finding `PREFIX label: <namespace>` declarations in the bytes of a file.

use vstd::prelude::*;
use crate::model::{register, register_all, Entries};
use crate::prefix::Prefix;

verus! {

/// The pattern of a prefix declaration: the word `prefix` in any case, white
/// space, a label of ASCII letters, digits, `_` and `-`, a colon, white space,
/// and between `<` and `>` a namespace of ASCII letters, digits and
/// `/ : - . # _`. The label is the first group, the namespace the second.
pub const DECLARATION_PATTERN: &'static str =
    r"(?i-u:prefix)\s+([A-Za-z0-9_\-]+):\s+<([A-Za-z0-9/:\-.#_]+)>";

/// The first two groups of one match; a group that took no part is `None`.
pub type Capture = (Option<Vec<u8>>, Option<Vec<u8>>);

/// The model of a `Capture`.
pub type CaptureModel = (Option<Seq<u8>>, Option<Seq<u8>>);

/// The first two capture groups of every match of `pattern` in `haystack`,
/// matches taken from left to right without overlap; `None` where `pattern`
/// does not compile.
pub uninterp spec fn regex_captures(pattern: Seq<char>, haystack: Seq<u8>) -> Option<
    Seq<CaptureModel>,
>;

/// Compiles `pattern` with `regex::bytes::Regex::new`, walks the matches
/// with `captures_iter` and copies groups 1 and 2 of each out of `get`.
///
/// Trusted: the result is what the regex crate finds for this pattern in
/// this haystack, and nothing is said about what that is.
#[verifier::external_body]
fn capture_groups(pattern: &str, haystack: &[u8]) -> (found: Option<Vec<Capture>>)
    ensures
        found.deep_view() == regex_captures(pattern@, haystack@),
{
    match regex::bytes::Regex::new(pattern) {
        Ok(re) => Some(
            re.captures_iter(haystack).map(
                |c| (c.get(1).map(|m| m.as_bytes().to_vec()), c.get(2).map(|m| m.as_bytes().to_vec())),
            ).collect(),
        ),
        Err(_) => None,
    }
}

/// The declarations among `captures`: of every capture with both groups, the
/// second group as the namespace and the first as its label.
pub open spec fn declared(captures: Seq<CaptureModel>) -> Entries
    decreases captures.len(),
{
    if captures.len() == 0 {
        Seq::empty()
    } else {
        let before = declared(captures.drop_last());
        match captures.last() {
            (Some(label), Some(namespace)) => before.push((namespace, label)),
            _ => before,
        }
    }
}

/// The declarations that the pattern finds in `contents`.
pub open spec fn found_declarations(contents: Seq<u8>) -> Entries {
    match regex_captures(DECLARATION_PATTERN@, contents) {
        Some(captures) => declared(captures),
        None => Seq::empty(),
    }
}

/// Registering after a push is registering the pushed pair last.
proof fn lemma_register_all_push(m: Entries, more: Entries, ns: Seq<u8>, label: Seq<u8>)
    ensures
        register_all(m, more.push((ns, label))) == register(register_all(m, more), ns, label),
{
    assert(more.push((ns, label)).drop_last() =~= more);
}

/// Registers the declarations among `captures`, first to last.
pub fn register_captures(ns_dict: &mut Prefix, captures: &Vec<Capture>)
    ensures
        final(ns_dict)@ == register_all(old(ns_dict)@, declared(captures.deep_view())),
{
    let ghost all = captures.deep_view();
    let mut i: usize = 0;
    while i < captures.len()
        invariant
            i <= captures@.len(),
            all == captures.deep_view(),
            ns_dict@ == register_all(old(ns_dict)@, declared(all.take(i as int))),
        decreases captures@.len() - i,
    {
        proof {
            let next = all.take(i + 1);
            assert(next.drop_last() =~= all.take(i as int));
            assert(next.last() == all[i as int]);
            assert(all[i as int] == captures@[i as int].deep_view());
        }
        match (&captures[i].0, &captures[i].1) {
            (Some(label), Some(namespace)) => {
                proof {
                    assert(label.deep_view() =~= label@);
                    assert(namespace.deep_view() =~= namespace@);
                    lemma_register_all_push(
                        old(ns_dict)@,
                        declared(all.take(i as int)),
                        namespace@,
                        label@,
                    );
                }
                ns_dict.add(namespace, label);
            },
            _ => {},
        }
        i = i + 1;
    }
    assert(all.take(i as int) =~= all);
}

/// Registers every prefix declaration found in `file_contents`, in the order
/// in which they stand there.
pub fn find_prefixes(file_contents: &Vec<u8>, ns_dict: &mut Prefix)
    ensures
        final(ns_dict)@ == register_all(old(ns_dict)@, found_declarations(file_contents@)),
{
    match capture_groups(DECLARATION_PATTERN, file_contents) {
        Some(captures) => register_captures(ns_dict, &captures),
        None => {},
    }
}

} // verus!
