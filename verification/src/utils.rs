//! URL well-formedness and the bounded-retry discipline applied to every
//! outbound transport call.

use vstd::prelude::*;

verus! {

/// Whether the `url` crate parses a string as an absolute URL; parsing
/// depends on the characters alone.
pub uninterp spec fn url_parses(s: Seq<char>) -> bool;

/// Relies on reqwest::Url::parse (the url crate): it returns Ok exactly when
/// the string parses as an absolute URL, a function of the string alone.
#[verifier::external_body]
fn url_parse_ok(url: &str) -> (b: bool)
    ensures
        b == url_parses(url@),
{
    reqwest::Url::parse(url).is_ok()
}

/// Whether a string parses as an absolute URL.
pub fn is_absolute_url(url: &str) -> (b: bool)
    ensures
        b == url_parses(url@),
{
    url_parse_ok(url)
}

/// How many attempts a transport loop uses, out of at most `max`, when the
/// attempts' outcomes are `outcomes` (true is a response, false a transport
/// failure): attempts run until the first success, or until `max` is spent.
pub open spec fn retry_attempts(max: nat, outcomes: Seq<bool>) -> nat
    decreases max,
{
    if max == 0 || outcomes.len() == 0 {
        0
    } else if outcomes[0] {
        1
    } else {
        1 + retry_attempts((max - 1) as nat, outcomes.drop_first())
    }
}

/// Whether such a loop ends with a response in hand.
pub open spec fn retry_succeeds(max: nat, outcomes: Seq<bool>) -> bool
    decreases max,
{
    if max == 0 || outcomes.len() == 0 {
        false
    } else if outcomes[0] {
        true
    } else {
        retry_succeeds((max - 1) as nat, outcomes.drop_first())
    }
}

/// The one decision of the retry loop: a further attempt is made exactly
/// while fewer than `retry` attempts have been made.
pub fn retry_should_attempt(attempts_made: usize, retry: usize) -> (b: bool)
    ensures
        b == (attempts_made < retry),
{
    attempts_made < retry
}

/// A transport that always fails is attempted exactly `max` times — every
/// attempt the policy allows — and no such run ends in success.
pub proof fn lemma_retry_exhaustion(max: nat, outcomes: Seq<bool>)
    requires
        outcomes.len() >= max,
        forall|i: int| 0 <= i < outcomes.len() ==> !outcomes[i],
    ensures
        retry_attempts(max, outcomes) == max,
        !retry_succeeds(max, outcomes),
    decreases max,
{
    if max > 0 {
        lemma_retry_exhaustion((max - 1) as nat, outcomes.drop_first());
    }
}

/// The retry loop of the transport, run over a recorded sequence of attempt
/// outcomes: how many attempts are used and whether one of them answered.
/// The live loop makes the same decisions with `retry_should_attempt`,
/// sleeping the configured delay after each failure.
pub fn retry_run(retry: usize, outcomes: &Vec<bool>) -> (r: (usize, bool))
    ensures
        r.0 == retry_attempts(retry as nat, outcomes@),
        r.1 == retry_succeeds(retry as nat, outcomes@),
{
    let mut att: usize = 0;
    proof {
        assert(outcomes@.skip(0) =~= outcomes@);
    }
    loop
        invariant
            0 <= att <= retry,
            att <= outcomes@.len() || att == retry,
            retry_attempts(retry as nat, outcomes@) == att + retry_attempts(
                (retry - att) as nat,
                outcomes@.skip(att as int),
            ),
            retry_succeeds(retry as nat, outcomes@) == retry_succeeds(
                (retry - att) as nat,
                outcomes@.skip(att as int),
            ),
        decreases retry - att,
    {
        if !retry_should_attempt(att, retry) {
            assert(retry_attempts((retry - att) as nat, outcomes@.skip(att as int)) == 0);
            return (att, false);
        }
        if att >= outcomes.len() {
            assert(outcomes@.skip(att as int).len() == 0);
            return (att, false);
        }
        let ok = outcomes[att];
        proof {
            assert(outcomes@.skip(att as int)[0] == outcomes@[att as int]);
            assert(outcomes@.skip(att as int).drop_first() =~= outcomes@.skip(att as int + 1));
        }
        att = att + 1;
        if ok {
            return (att, true);
        }
    }
}

} // verus!
