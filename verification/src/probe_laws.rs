//! What holds of probes.

use vstd::prelude::*;
use crate::json_laws::{canonical_text_identifies_values, lemma_members_well_formed, same_value,
    well_formed};
use crate::probe::{fingerprint_of, fingerprints, parsed, payload, settings_of, success, successes,
    verdict_of, Tally, ToolResult, Verdict};

verus! {

/// Whether the JSON values of a result are well formed.
pub open spec fn result_wf(result: ToolResult) -> bool {
    &&& well_formed(result.content@)
    &&& result.structured is Some ==> well_formed(result.structured->Some_0@)
}

pub proof fn lemma_payload_well_formed(result: ToolResult)
    requires
        result_wf(result),
    ensures
        well_formed(payload(result)),
{
    let members = payload(result)->Object_0;
    assert(well_formed(members[0].1));
    assert(well_formed(members[1].1));
    assert(well_formed(members[2].1));
    assert forall|j: int| 0 <= j < members.len() implies well_formed((#[trigger] members[j]).1) by {
    }
    lemma_members_well_formed(members);
}

/// Two results have the same fingerprint exactly if what they returned is the
/// same but for the order in which the members of objects are written.
pub proof fn fingerprint_identifies_the_payload(a: ToolResult, b: ToolResult)
    requires
        result_wf(a),
        result_wf(b),
    ensures
        fingerprint_of(a) == fingerprint_of(b) <==> same_value(payload(a), payload(b)),
{
    lemma_payload_well_formed(a);
    lemma_payload_well_formed(b);
    canonical_text_identifies_values(payload(a), payload(b));
}

/// The fingerprints of a list of results are those of its successful calls, and
/// there are at most as many as there are successful calls.
pub proof fn lemma_fingerprints(results: Seq<Option<ToolResult>>)
    ensures
        fingerprints(results).finite(),
        fingerprints(results).len() <= successes(results),
        fingerprints(results).len() == 0 <==> successes(results) == 0,
        forall|f: Seq<char>| #[trigger]
            fingerprints(results).contains(f) <==> exists|i: int|
                0 <= i < results.len() && success(#[trigger] results[i]) && fingerprint_of(
                    results[i]->Some_0,
                ) == f,
    decreases results.len(),
{
    if results.len() > 0 {
        let rest = results.drop_last();
        lemma_fingerprints(rest);
        assert forall|f: Seq<char>| #[trigger] fingerprints(results).contains(f) <==> exists|i: int|
            0 <= i < results.len() && success(#[trigger] results[i]) && fingerprint_of(
                results[i]->Some_0,
            ) == f by {
            if fingerprints(rest).contains(f) {
                let i = choose|i: int|
                    0 <= i < rest.len() && success(#[trigger] rest[i]) && fingerprint_of(
                        rest[i]->Some_0,
                    ) == f;
                assert(results[i] == rest[i]);
            }
            if success(results.last()) && fingerprint_of(results.last()->Some_0) == f {
                assert(success(results[results.len() - 1]));
            }
            if exists|i: int|
                0 <= i < results.len() && success(#[trigger] results[i]) && fingerprint_of(
                    results[i]->Some_0,
                ) == f {
                let i = choose|i: int|
                    0 <= i < results.len() && success(#[trigger] results[i]) && fingerprint_of(
                        results[i]->Some_0,
                    ) == f;
                if i < rest.len() {
                    assert(results[i] == rest[i]);
                    assert(fingerprints(rest).contains(f));
                }
            }
        }
    }
}

/// The probe reports a double fire exactly if two calls that succeeded returned
/// different payloads, whatever the other calls did.
pub proof fn double_fire_is_proven_by_two_different_results(
    results: Seq<Option<ToolResult>>,
    t: Tally,
)
    requires
        t.distinct == fingerprints(results).len(),
        t.succeeded == successes(results),
    ensures
        verdict_of(t) == Verdict::DoubleFire <==> exists|i: int, j: int|
            0 <= i < results.len() && 0 <= j < results.len() && success(#[trigger] results[i])
                && success(#[trigger] results[j]) && fingerprint_of(results[i]->Some_0)
                != fingerprint_of(results[j]->Some_0),
{
    lemma_fingerprints(results);
    let prints = fingerprints(results);
    if exists|i: int, j: int|
        0 <= i < results.len() && 0 <= j < results.len() && success(#[trigger] results[i])
            && success(#[trigger] results[j]) && fingerprint_of(results[i]->Some_0)
            != fingerprint_of(results[j]->Some_0) {
        let (i, j) = choose|i: int, j: int|
            0 <= i < results.len() && 0 <= j < results.len() && success(#[trigger] results[i])
                && success(#[trigger] results[j]) && fingerprint_of(results[i]->Some_0)
                != fingerprint_of(results[j]->Some_0);
        let a = fingerprint_of(results[i]->Some_0);
        let b = fingerprint_of(results[j]->Some_0);
        assert(prints.contains(a));
        assert(prints.contains(b));
        assert(prints.remove(a).contains(b));
        assert(prints.remove(a).len() == prints.len() - 1);
        vstd::set_lib::lemma_set_empty_equivalency_len(prints.remove(a));
    }
    if prints.len() > 1 {
        let a = prints.choose();
        assert(prints.contains(a));
        let others = prints.remove(a);
        assert(others.len() > 0);
        let b = others.choose();
        assert(others.contains(b));
        assert(prints.contains(b));
        let i = choose|i: int|
            0 <= i < results.len() && success(#[trigger] results[i]) && fingerprint_of(
                results[i]->Some_0,
            ) == a;
        let j = choose|j: int|
            0 <= j < results.len() && success(#[trigger] results[j]) && fingerprint_of(
                results[j]->Some_0,
            ) == b;
        assert(success(results[i]) && success(results[j]));
    }
}

/// Calls that all returned the same payload never read as a double fire: the
/// report says inconclusive, or that at most one call succeeded.
pub proof fn identical_results_prove_nothing(results: Seq<Option<ToolResult>>, t: Tally)
    requires
        t.distinct == fingerprints(results).len(),
        t.succeeded == successes(results),
        forall|i: int, j: int|
            0 <= i < results.len() && 0 <= j < results.len() && success(#[trigger] results[i])
                && success(#[trigger] results[j]) ==> fingerprint_of(results[i]->Some_0)
                == fingerprint_of(results[j]->Some_0),
    ensures
        verdict_of(t) == if t.succeeded > 1 {
            Verdict::Inconclusive
        } else {
            Verdict::NoRace
        },
{
    double_fire_is_proven_by_two_different_results(results, t);
}

/// A command line that is accepted names a tool, asks for at least one call and
/// gives a command.
pub proof fn accepted_probes_are_complete(raw: Seq<Seq<char>>)
    requires
        parsed(raw) is Ok,
    ensures
        parsed(raw)->Ok_0.calls > 0,
        parsed(raw)->Ok_0.child.len() > 0,
        settings_of(raw) is Ok,
        settings_of(raw)->Ok_0.tool == Some(parsed(raw)->Ok_0.tool),
{
}

} // verus!
