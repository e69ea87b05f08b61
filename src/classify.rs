//! Turning one HTTP response into a success verdict.

use vstd::prelude::*;
use crate::text::{
    char_vec, contains_chars, contains_seq, count_occurrences, lower_of, lowercase, occurrences,
};

verus! {

/// A 2xx status.
pub open spec fn is_success_status(status: u16) -> bool {
    200 <= status <= 299
}

/// A 3xx status.
pub open spec fn is_redirect_status(status: u16) -> bool {
    300 <= status <= 399
}

/// The words that count against a login.
pub open spec fn failure_indicators() -> Seq<Seq<char>> {
    seq![
        "invalid"@,
        "incorrect"@,
        "wrong"@,
        "failed"@,
        "error"@,
        "login failed"@,
        "access denied"@,
        "unauthorized"@,
    ]
}

/// The words that count for a login.
pub open spec fn success_indicators() -> Seq<Seq<char>> {
    seq![
        "welcome"@,
        "dashboard"@,
        "home"@,
        "logout"@,
        "profile"@,
        "success"@,
        "logged in"@,
        "redirecting"@,
    ]
}

/// The words whose presence in a redirect target marks a failed login.
pub open spec fn redirect_failure_markers() -> Seq<Seq<char>> {
    seq!["login"@, "error"@, "fail"@]
}

/// Occurrences of every word of `words` in `text`, summed.
pub open spec fn total_occurrences(text: Seq<char>, words: Seq<Seq<char>>) -> nat
    decreases words.len(),
{
    if words.len() == 0 {
        0
    } else {
        total_occurrences(text, words.drop_last()) + occurrences(text, words.last())
    }
}

/// A redirect target that names none of the failure markers.
pub open spec fn location_accepts(location: Seq<char>) -> bool {
    forall|k: int|
        0 <= k < redirect_failure_markers().len() ==> !contains_seq(
            location,
            #[trigger] redirect_failure_markers()[k],
        )
}

/// Keyword scoring of a lowercased body: strictly more success words than failure words.
pub open spec fn keyword_verdict(lowered: Seq<char>) -> bool {
    total_occurrences(lowered, success_indicators()) > total_occurrences(
        lowered,
        failure_indicators(),
    )
}

/// The verdict on a response, given its status, its `Location` header and its
/// body already lowercased (`None` where the body could not be decoded).
pub open spec fn response_verdict(
    status: u16,
    location: Option<Seq<char>>,
    lowered_body: Option<Seq<char>>,
) -> bool {
    if is_success_status(status) {
        true
    } else if is_redirect_status(status) && location is Some {
        location_accepts(location->0)
    } else {
        match lowered_body {
            Some(b) => keyword_verdict(b),
            None => false,
        }
    }
}

/// The characters of an optional string.
pub open spec fn opt_chars(o: Option<&str>) -> Option<Seq<char>> {
    match o {
        Some(s) => Some(s@),
        None => None,
    }
}

/// An optional body as the classifier reads it: lowercased.
pub open spec fn lowered_body(o: Option<&str>) -> Option<Seq<char>> {
    match o {
        Some(s) => Some(lower_of(s@)),
        None => None,
    }
}

/// Whether `status` is a 2xx code.
pub fn status_is_success(status: u16) -> (r: bool)
    ensures
        r == is_success_status(status),
{
    200 <= status && status <= 299
}

/// Whether `status` is a 3xx code.
pub fn status_is_redirect(status: u16) -> (r: bool)
    ensures
        r == is_redirect_status(status),
{
    300 <= status && status <= 399
}

proof fn lemma_words_nonempty()
    ensures
        forall|k: int| 0 <= k < failure_indicators().len() ==> #[trigger] failure_indicators()[k].len() > 0,
        forall|k: int| 0 <= k < success_indicators().len() ==> #[trigger] success_indicators()[k].len() > 0,
{
    reveal_strlit("invalid");
    reveal_strlit("incorrect");
    reveal_strlit("wrong");
    reveal_strlit("failed");
    reveal_strlit("error");
    reveal_strlit("login failed");
    reveal_strlit("access denied");
    reveal_strlit("unauthorized");
    reveal_strlit("welcome");
    reveal_strlit("dashboard");
    reveal_strlit("home");
    reveal_strlit("logout");
    reveal_strlit("profile");
    reveal_strlit("success");
    reveal_strlit("logged in");
    reveal_strlit("redirecting");
}

fn failure_words() -> (r: Vec<Vec<char>>)
    ensures
        r@.len() == failure_indicators().len(),
        forall|k: int| 0 <= k < r@.len() ==> #[trigger] r@[k]@ == failure_indicators()[k],
{
    let mut r: Vec<Vec<char>> = Vec::new();
    r.push(char_vec("invalid"));
    r.push(char_vec("incorrect"));
    r.push(char_vec("wrong"));
    r.push(char_vec("failed"));
    r.push(char_vec("error"));
    r.push(char_vec("login failed"));
    r.push(char_vec("access denied"));
    r.push(char_vec("unauthorized"));
    r
}

fn success_words() -> (r: Vec<Vec<char>>)
    ensures
        r@.len() == success_indicators().len(),
        forall|k: int| 0 <= k < r@.len() ==> #[trigger] r@[k]@ == success_indicators()[k],
{
    let mut r: Vec<Vec<char>> = Vec::new();
    r.push(char_vec("welcome"));
    r.push(char_vec("dashboard"));
    r.push(char_vec("home"));
    r.push(char_vec("logout"));
    r.push(char_vec("profile"));
    r.push(char_vec("success"));
    r.push(char_vec("logged in"));
    r.push(char_vec("redirecting"));
    r
}

fn redirect_markers() -> (r: Vec<Vec<char>>)
    ensures
        r@.len() == redirect_failure_markers().len(),
        forall|k: int| 0 <= k < r@.len() ==> #[trigger] r@[k]@ == redirect_failure_markers()[k],
{
    let mut r: Vec<Vec<char>> = Vec::new();
    r.push(char_vec("login"));
    r.push(char_vec("error"));
    r.push(char_vec("fail"));
    r
}

/// Occurrences of all `words` in `text`, summed.
fn score(text: &Vec<char>, words: &Vec<Vec<char>>, Ghost(spec_words): Ghost<Seq<Seq<char>>>) -> (s: u128)
    requires
        words@.len() == spec_words.len(),
        words@.len() <= 8,
        forall|k: int| 0 <= k < words@.len() ==> #[trigger] words@[k]@ == spec_words[k],
        forall|k: int| 0 <= k < spec_words.len() ==> #[trigger] spec_words[k].len() > 0,
    ensures
        s == total_occurrences(text@, spec_words),
{
    let mut s: u128 = 0;
    let mut k: usize = 0;
    while k < words.len()
        invariant
            k <= words@.len(),
            words@.len() == spec_words.len(),
            words@.len() <= 8,
            forall|j: int| 0 <= j < words@.len() ==> #[trigger] words@[j]@ == spec_words[j],
            forall|j: int| 0 <= j < spec_words.len() ==> #[trigger] spec_words[j].len() > 0,
            s <= k * 0x1_0000_0000_0000_0000u128,
            s == total_occurrences(text@, spec_words.subrange(0, k as int)),
        decreases words@.len() - k,
    {
        assert(spec_words[k as int].len() > 0);
        let c = count_occurrences(text, &words[k]);
        proof {
            let next = spec_words.subrange(0, k + 1);
            assert(next.drop_last() =~= spec_words.subrange(0, k as int));
            assert(next.last() == spec_words[k as int]);
        }
        s = s + c as u128;
        k += 1;
    }
    assert(spec_words.subrange(0, words@.len() as int) =~= spec_words);
    s
}

/// The keyword verdict on a body that is already lowercased.
pub fn keyword_score_verdict(lowered: &str) -> (r: bool)
    ensures
        r == keyword_verdict(lowered@),
{
    proof {
        lemma_words_nonempty();
    }
    let text = char_vec(lowered);
    let fails = score(&text, &failure_words(), Ghost(failure_indicators()));
    let wins = score(&text, &success_words(), Ghost(success_indicators()));
    wins > fails
}

/// Whether a redirect target avoids every failure marker.
pub fn redirect_location_accepted(location: &str) -> (r: bool)
    ensures
        r == location_accepts(location@),
{
    let loc = char_vec(location);
    let markers = redirect_markers();
    let mut k: usize = 0;
    while k < markers.len()
        invariant
            k <= markers@.len(),
            markers@.len() == redirect_failure_markers().len(),
            forall|j: int| 0 <= j < markers@.len() ==> #[trigger] markers@[j]@ == redirect_failure_markers()[j],
            loc@ == location@,
            forall|j: int| 0 <= j < k ==> !contains_seq(location@, #[trigger] redirect_failure_markers()[j]),
        decreases markers@.len() - k,
    {
        if contains_chars(&loc, &markers[k]) {
            return false;
        }
        k += 1;
    }
    true
}

/// The verdict on a response whose body, if any, is already lowercased.
/// A 2xx status wins; a 3xx with a `Location` header is judged by that
/// header; anything else is judged by keyword scoring of the body, and a body
/// that could not be decoded (`None`) is a failure.
pub fn classify_lowered(status: u16, location: Option<&str>, lowered: Option<&str>) -> (r: bool)
    ensures
        r == response_verdict(status, opt_chars(location), opt_chars(lowered)),
{
    if status_is_success(status) {
        return true;
    }
    if status_is_redirect(status) {
        if let Some(loc) = location {
            return redirect_location_accepted(loc);
        }
    }
    match lowered {
        Some(b) => keyword_score_verdict(b),
        None => false,
    }
}

/// The verdict on a response: its status, its `Location` header and its body
/// (`None` where the body could not be decoded). The body is lowercased before
/// scoring, and read only where the status and header leave the verdict open.
/// The result is a function of the three arguments alone.
pub fn classify(status: u16, location: Option<&str>, body: Option<&str>) -> (r: bool)
    ensures
        r == response_verdict(status, opt_chars(location), lowered_body(body)),
{
    if status_is_success(status) {
        return true;
    }
    if status_is_redirect(status) {
        if let Some(loc) = location {
            return redirect_location_accepted(loc);
        }
    }
    match body {
        Some(b) => {
            let lowered = lowercase(b);
            keyword_score_verdict(lowered.as_str())
        },
        None => false,
    }
}

/// Any 2xx response is a success, whatever its headers and body say.
pub proof fn lemma_success_status_wins(status: u16, location: Option<Seq<char>>, lowered_body: Option<Seq<char>>)
    requires
        200 <= status <= 299,
    ensures
        response_verdict(status, location, lowered_body),
{
}

/// The verdict is a function of status, `Location` header and body: equal
/// inputs give equal verdicts.
pub proof fn lemma_verdict_is_pure(
    status: u16,
    location1: Option<Seq<char>>,
    location2: Option<Seq<char>>,
    body1: Option<Seq<char>>,
    body2: Option<Seq<char>>,
)
    requires
        location1 == location2,
        body1 == body2,
    ensures
        response_verdict(status, location1, body1) == response_verdict(status, location2, body2),
{
}

} // verus!
