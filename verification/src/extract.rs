//! Finding field texts with regular expressions.

use vstd::prelude::*;

use crate::errors::{Failure, PollerError};
use crate::text;
use crate::text::trim;

verus! {

/// The views of pairs of texts.
pub open spec fn pairs(entries: Seq<(String, String)>) -> Seq<(Seq<char>, Seq<char>)> {
    entries.map_values(|e: (String, String)| (e.0@, e.1@))
}

/// What is wrong with a pattern as a regular expression; nothing if it
/// compiles. Names the error text that `regex::Regex::new` gives.
pub uninterp spec fn pattern_error(pattern: Seq<char>) -> Option<Seq<char>>;

/// Calls `regex::Regex::new` and keeps the text of its error. The result is
/// `pattern_error` of the pattern; which patterns compile is not stated.
#[verifier::external_body]
fn pattern_fault(pattern: &str) -> (error: Option<String>)
    ensures
        text::optional(error) == pattern_error(pattern@),
{
    match regex::Regex::new(pattern) {
        Ok(_) => None,
        Err(e) => Some(e.to_string()),
    }
}

/// The capture group that a field's text is taken from.
pub const FIELD_GROUP: usize = 1;

/// The first match of a pattern in a text: nothing if there is none, else what a
/// capture group took part with, if it did. Names what `regex::Regex::captures`
/// finds under the group.
pub uninterp spec fn matched_group(pattern: Seq<char>, hay: Seq<char>, group: usize) -> Option<
    Option<Seq<char>>,
>;

/// The view of the outcome of a match.
pub open spec fn group_view(hit: Option<Option<String>>) -> Option<Option<Seq<char>>> {
    match hit {
        Some(group) => Some(text::optional(group)),
        None => None,
    }
}

/// Compiles the pattern with `regex::Regex::new` and calls
/// `regex::Regex::captures`; a pattern that does not compile matches nothing.
/// The result is `matched_group` of pattern, text and group; what a given pattern
/// finds is not stated.
#[verifier::external_body]
fn capture(pattern: &str, hay: &str, group: usize) -> (hit: Option<Option<String>>)
    ensures
        group_view(hit) == matched_group(pattern@, hay@, group),
{
    let re = regex::Regex::new(pattern).ok()?;
    let found = re.captures(hay)?;
    Some(found.get(group).map(|m| m.as_str().to_owned()))
}

/// The failure that the first faulty pattern makes, given what is wrong with
/// each.
pub open spec fn first_fault(
    job: Seq<char>,
    rules: Seq<(Seq<char>, Seq<char>)>,
    faults: Seq<Option<Seq<char>>>,
) -> Option<Failure>
    decreases rules.len(),
{
    if rules.len() == 0 {
        None
    } else {
        match faults[0] {
            Some(fault) => Some(
                Failure::Config {
                    job,
                    reason: "invalid regex for `"@ + rules[0].0 + "`: "@ + fault,
                },
            ),
            None => first_fault(job, rules.skip(1), faults.skip(1)),
        }
    }
}

/// The view of a check.
pub open spec fn check_view(result: Result<(), PollerError>) -> Option<Failure> {
    match result {
        Ok(_) => None,
        Err(e) => Some(e@),
    }
}

/// Reports the first faulty pattern, given what is wrong with each.
pub fn report_faults(
    job: &str,
    rules: &Vec<(String, String)>,
    faults: &Vec<Option<String>>,
) -> (result: Result<(), PollerError>)
    requires
        faults@.len() == rules@.len(),
    ensures
        check_view(result) == first_fault(job@, pairs(rules@), text::optional_texts(faults@)),
{
    let ghost all = pairs(rules@);
    let ghost found = text::optional_texts(faults@);
    assert(all.skip(0) =~= all);
    assert(found.skip(0) =~= found);
    let mut i: usize = 0;
    while i < rules.len()
        invariant
            i <= rules@.len() == faults@.len(),
            all == pairs(rules@),
            found == text::optional_texts(faults@),
            first_fault(job@, all, found) == first_fault(
                job@,
                all.skip(i as int),
                found.skip(i as int),
            ),
        decreases rules@.len() - i,
    {
        assert(all.skip(i as int).skip(1) =~= all.skip(i + 1));
        assert(found.skip(i as int).skip(1) =~= found.skip(i + 1));
        if let Some(fault) = &faults[i] {
            let mut reason = "invalid regex for `".to_owned();
            reason.append(rules[i].0.as_str());
            reason.append("`: ");
            reason.append(fault.as_str());
            return Err(PollerError::Config { job: job.to_owned(), reason });
        }
        i += 1;
    }
    Ok(())
}

/// What is wrong with the pattern of each rule.
pub open spec fn faults_of(rules: Seq<(Seq<char>, Seq<char>)>) -> Seq<Option<Seq<char>>> {
    rules.map_values(|rule: (Seq<char>, Seq<char>)| pattern_error(rule.1))
}

/// Checks that every pattern compiles.
pub fn check_patterns(job: &str, rules: &Vec<(String, String)>) -> (result: Result<
    (),
    PollerError,
>)
    ensures
        check_view(result) == first_fault(job@, pairs(rules@), faults_of(pairs(rules@))),
{
    let mut faults: Vec<Option<String>> = Vec::new();
    let mut i: usize = 0;
    while i < rules.len()
        invariant
            i <= rules@.len(),
            text::optional_texts(faults@) =~= faults_of(pairs(rules@)).take(i as int),
        decreases rules@.len() - i,
    {
        let fault = pattern_fault(rules[i].1.as_str());
        let ghost sofar = faults@;
        faults.push(fault);
        assert(text::optional_texts(faults@) =~= text::optional_texts(sofar).push(
            text::optional(fault),
        ));
        i += 1;
    }
    assert(text::optional_texts(faults@) =~= faults_of(pairs(rules@)));
    report_faults(job, rules, &faults)
}

/// A field's text: the first capture group where the body matches, else where
/// the snippet does, without the white space around it. Empty if neither
/// matches or the group is missing.
pub open spec fn captured(
    in_body: Option<Option<Seq<char>>>,
    in_snippet: Option<Option<Seq<char>>>,
) -> Seq<char> {
    let hit = if in_body is Some {
        in_body
    } else {
        in_snippet
    };
    match hit {
        Some(Some(group)) => text::trimmed(group),
        _ => seq![],
    }
}

/// A field's text, given the matches in the body and in the snippet.
pub fn field_text(
    in_body: Option<Option<String>>,
    in_snippet: Option<Option<String>>,
) -> (value: String)
    ensures
        value@ == captured(group_view(in_body), group_view(in_snippet)),
{
    let hit = match in_body {
        Some(group) => Some(group),
        None => in_snippet,
    };
    match hit {
        Some(Some(group)) => trim(group.as_str()),
        _ => String::new(),
    }
}

/// What a rule finds in a message.
pub open spec fn found_by(
    rule: (Seq<char>, Seq<char>),
    body: Seq<char>,
    snippet: Seq<char>,
) -> (Seq<char>, Seq<char>) {
    (
        rule.0,
        captured(
            matched_group(rule.1, body, FIELD_GROUP),
            matched_group(rule.1, snippet, FIELD_GROUP),
        ),
    )
}

/// What each rule finds in a message.
pub open spec fn all_found(
    rules: Seq<(Seq<char>, Seq<char>)>,
    body: Seq<char>,
    snippet: Seq<char>,
) -> Seq<(Seq<char>, Seq<char>)> {
    rules.map_values(|rule: (Seq<char>, Seq<char>)| found_by(rule, body, snippet))
}

/// The fields that the rules find in a message, each under its name.
pub fn extract_fields(rules: &Vec<(String, String)>, body: &str, snippet: &str) -> (found: Vec<
    (String, String),
>)
    ensures
        pairs(found@) == all_found(pairs(rules@), body@, snippet@),
{
    let mut found: Vec<(String, String)> = Vec::new();
    let mut i: usize = 0;
    while i < rules.len()
        invariant
            i <= rules@.len(),
            pairs(found@) =~= all_found(pairs(rules@), body@, snippet@).take(i as int),
        decreases rules@.len() - i,
    {
        let pattern = rules[i].1.as_str();
        let value = field_text(
            capture(pattern, body, FIELD_GROUP),
            capture(pattern, snippet, FIELD_GROUP),
        );
        let ghost sofar = found@;
        let ghost put = value@;
        found.push((rules[i].0.clone(), value));
        assert(pairs(found@) =~= pairs(sofar).push((rules@[i as int].0@, put)));
        i += 1;
    }
    assert(pairs(found@) =~= all_found(pairs(rules@), body@, snippet@));
    found
}

/// A pattern that matches the body decides: the field does not rest on the
/// snippet, and it is what the group holds there, without the white space around
/// it, or nothing if the group took no part.
pub proof fn lemma_body_decides(
    group: Option<Seq<char>>,
    one: Option<Option<Seq<char>>>,
    other: Option<Option<Seq<char>>>,
)
    ensures
        captured(Some(group), one) == captured(Some(group), other),
        match group {
            Some(t) => captured(Some(group), one) == text::trimmed(t),
            None => captured(Some(group), one).len() == 0,
        },
{
}

/// Where the body does not match, the snippet decides in the same way, and where
/// neither matches the field is empty.
pub proof fn lemma_snippet_decides_otherwise(in_snippet: Option<Option<Seq<char>>>)
    ensures
        match in_snippet {
            Some(Some(t)) => captured(None, in_snippet) == text::trimmed(t),
            _ => captured(None, in_snippet).len() == 0,
        },
{
}

/// Every rule finds one field, under its own name and in its own place: the first
/// group of its pattern in the body, or in the snippet if the body does not match.
pub proof fn lemma_rules_find_their_fields(
    rules: Seq<(Seq<char>, Seq<char>)>,
    body: Seq<char>,
    snippet: Seq<char>,
    i: int,
)
    requires
        0 <= i < rules.len(),
    ensures
        all_found(rules, body, snippet).len() == rules.len(),
        all_found(rules, body, snippet)[i].0 == rules[i].0,
        match matched_group(rules[i].1, body, 1usize) {
            Some(Some(t)) => all_found(rules, body, snippet)[i].1 == text::trimmed(t),
            Some(None) => all_found(rules, body, snippet)[i].1.len() == 0,
            None => match matched_group(rules[i].1, snippet, 1usize) {
                Some(Some(t)) => all_found(rules, body, snippet)[i].1 == text::trimmed(t),
                _ => all_found(rules, body, snippet)[i].1.len() == 0,
            },
        },
{
}

proof fn lemma_faults_from(
    job: Seq<char>,
    rules: Seq<(Seq<char>, Seq<char>)>,
    faults: Seq<Option<Seq<char>>>,
    at: int,
)
    requires
        faults.len() == rules.len(),
        0 <= at <= rules.len(),
        forall|k: int| 0 <= k < at ==> #[trigger] faults[k] is None,
    ensures
        first_fault(job, rules, faults) == first_fault(job, rules.skip(at), faults.skip(at)),
    decreases rules.len(),
{
    if at > 0 {
        let rest = faults.skip(1);
        assert(faults[0] is None);
        assert forall|k: int| 0 <= k < at - 1 implies #[trigger] rest[k] is None by {
            assert(rest[k] == faults[k + 1]);
        }
        lemma_faults_from(job, rules.skip(1), rest, at - 1);
        assert(rules.skip(1).skip(at - 1) =~= rules.skip(at));
        assert(rest.skip(at - 1) =~= faults.skip(at));
    } else {
        assert(rules.skip(0) =~= rules);
        assert(faults.skip(0) =~= faults);
    }
}

/// The first pattern that does not compile is reported, with the job, the name of
/// its rule and what is wrong with it; if all compile nothing is.
pub proof fn lemma_first_faulty_rule_is_reported(
    job: Seq<char>,
    rules: Seq<(Seq<char>, Seq<char>)>,
    at: int,
)
    requires
        0 <= at <= rules.len(),
        forall|k: int| 0 <= k < at ==> pattern_error((#[trigger] rules[k]).1) is None,
        at < rules.len() ==> pattern_error(rules[at].1) is Some,
    ensures
        at == rules.len() ==> first_fault(job, rules, faults_of(rules)) is None,
        at < rules.len() ==> first_fault(job, rules, faults_of(rules)) == Some(
            Failure::Config {
                job,
                reason: "invalid regex for `"@ + rules[at].0 + "`: "@ + pattern_error(
                    rules[at].1,
                )->0,
            },
        ),
{
    let faults = faults_of(rules);
    assert forall|k: int| 0 <= k < at implies #[trigger] faults[k] is None by {
        assert(pattern_error(rules[k].1) is None);
    }
    lemma_faults_from(job, rules, faults, at);
    if at < rules.len() {
        assert(faults.skip(at)[0] == pattern_error(rules[at].1));
        assert(rules.skip(at)[0] == rules[at]);
    }
}

/// The views of pairs are theirs, one for one and in their order.
pub proof fn lemma_pairs_are_those_of_the_entries(entries: Seq<(String, String)>, i: int)
    requires
        0 <= i < entries.len(),
    ensures
        pairs(entries).len() == entries.len(),
        pairs(entries)[i].0 == entries[i].0@,
        pairs(entries)[i].1 == entries[i].1@,
{
}

} // verus!
