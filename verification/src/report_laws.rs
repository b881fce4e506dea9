//! What a probe's report says of the calls that were fired.

use vstd::prelude::*;
use crate::json::{canon, json_text, member, Tree};
use crate::json_laws::{has_key, is_last, json_text_injective, lemma_canon_well_formed, same_value,
    well_formed};
use crate::probe::{advice_text, arguments_of, counts_text, fingerprint_of, fingerprints,
    missing_tool, parsed, payload, probe_of,
    probe_error_cause, probe_error_text, read_flags, settings_of, success, successes, tool_errors,
    verdict_of, verdict_text, FlagsModel, ProbeErrorModel, ProbeModel, Tally, ToolResult, Verdict};
use crate::probe_laws::{fingerprint_identifies_the_payload, lemma_fingerprints,
    lemma_payload_well_formed, result_wf};
use crate::text::{count_error_text, count_of, decimal, joined_text, CountError};
use crate::text_laws::{lemma_part, lemma_shows, prints, shows};
use crate::value_laws::{canonical_form_keeps_members, lemma_distinct_members};

verus! {

/// Whether a call came back, and not with an error of the tool.
pub open spec fn succeeded(result: Option<ToolResult>) -> bool {
    match result {
        Some(r) => match r.is_error {
            Some(failed) => !failed,
            None => true,
        },
        None => false,
    }
}

/// Whether two results returned the same: the same content, the same structured
/// content and the same flag, but for the order in which members are written.
#[verifier::opaque]
pub open spec fn same_payload(a: ToolResult, b: ToolResult) -> bool {
    &&& same_value(a.content@, b.content@)
    &&& match (a.structured, b.structured) {
        (Some(x), Some(y)) => same_value(x@, y@),
        (Some(x), None) => x@ is Null,
        (None, Some(y)) => y@ is Null,
        (None, None) => true,
    }
    &&& a.is_error == b.is_error
}

/// Results are told apart by what they returned, and by nothing else.
pub proof fn fingerprint_tells_payloads_apart(a: ToolResult, b: ToolResult)
    requires
        result_wf(a),
        result_wf(b),
    ensures
        fingerprint_of(a) == fingerprint_of(b) <==> same_payload(a, b),
{
    reveal(same_payload);
    fingerprint_identifies_the_payload(a, b);
    reveal_strlit("content");
    reveal_strlit("structured");
    reveal_strlit("is_error");
    let p = payload(a)->Object_0;
    let q = payload(b)->Object_0;
    assert("content"@.len() == 7 && "structured"@.len() == 10 && "is_error"@.len() == 8);
    assert(p.len() == 3 && q.len() == 3);
    assert(p[0].0 == "content"@ && p[1].0 == "structured"@ && p[2].0 == "is_error"@);
    assert(q[0].0 == "content"@ && q[1].0 == "structured"@ && q[2].0 == "is_error"@);
    assert(is_last(p, 0) && is_last(p, 1) && is_last(p, 2));
    assert(is_last(q, 0) && is_last(q, 1) && is_last(q, 2));
    let s = p[1].1;
    let t = q[1].1;
    let x = p[2].1;
    let y = q[2].1;
    assert(same_value(x, y) <==> a.is_error == b.is_error);
    assert(same_value(s, t) <==> match (a.structured, b.structured) {
        (Some(x), Some(y)) => same_value(x@, y@),
        (Some(x), None) => x@ is Null,
        (None, Some(y)) => y@ is Null,
        (None, None) => true,
    });
    if same_value(payload(a), payload(b)) {
        assert(same_value(p[0].1, q[0].1));
        assert(same_value(p[1].1, q[1].1));
        assert(same_value(p[2].1, q[2].1));
    }
    if same_payload(a, b) {
        assert forall|k: Seq<char>| #[trigger] has_key(p, k) <==> has_key(q, k) by {
            if has_key(p, k) {
                let i = choose|i: int| 0 <= i < p.len() && (#[trigger] p[i]).0 == k;
                assert(q[i].0 == k);
            }
            if has_key(q, k) {
                let i = choose|i: int| 0 <= i < q.len() && (#[trigger] q[i]).0 == k;
                assert(p[i].0 == k);
            }
        }
        assert forall|i: int, j: int|
            #![trigger is_last(p, i), is_last(q, j)]
            is_last(p, i) && is_last(q, j) && p[i].0 == q[j].0 implies same_value(p[i].1, q[j].1) by {
            assert(i == j);
        }
        assert(same_value(payload(a), payload(b)));
    }
}

/// Reading a fingerprint back gives what the call returned: its content, its
/// structured content and its flag, members in order.
pub proof fn fingerprint_shows_the_payload(result: ToolResult, read: Tree)
    requires
        result_wf(result),
        well_formed(read),
        json_text(read) == fingerprint_of(result),
    ensures
        member(read, "content"@) == Some(canon(result.content@)),
        member(read, "structured"@) == Some(
            match result.structured {
                Some(json) => canon(json@),
                None => Tree::Null,
            },
        ),
        member(read, "is_error"@) == Some(
            match result.is_error {
                Some(failed) => Tree::Bool(failed),
                None => Tree::Null,
            },
        ),
{
    let t = payload(result);
    let members = t->Object_0;
    lemma_payload_well_formed(result);
    lemma_canon_well_formed(t);
    json_text_injective(read, canon(t));
    reveal_strlit("content");
    reveal_strlit("structured");
    reveal_strlit("is_error");
    assert("content"@.len() == 7 && "structured"@.len() == 10 && "is_error"@.len() == 8);
    assert(members[0].0 == "content"@ && members[1].0 == "structured"@ && members[2].0
        == "is_error"@);
    lemma_distinct_members(members);
    canonical_form_keeps_members(t, "content"@);
    canonical_form_keeps_members(t, "structured"@);
    canonical_form_keeps_members(t, "is_error"@);
}

/// Whether a tally is that of the results of calls.
pub open spec fn is_tally(t: Tally, results: Seq<Option<ToolResult>>) -> bool {
    &&& t.succeeded == successes(results)
    &&& t.errors == tool_errors(results)
    &&& t.succeeded + t.errors + t.transport_failures == results.len()
    &&& t.distinct == fingerprints(results).len()
}

proof fn lemma_counts(results: Seq<Option<ToolResult>>)
    ensures
        successes(results) == results.filter(|r: Option<ToolResult>| succeeded(r)).len(),
        tool_errors(results) == results.filter(
            |r: Option<ToolResult>| r is Some && !succeeded(r),
        ).len(),
        results.len() == results.filter(|r: Option<ToolResult>| succeeded(r)).len() + results.filter(
            |r: Option<ToolResult>| r is Some && !succeeded(r),
        ).len() + results.filter(|r: Option<ToolResult>| r is None).len(),
    decreases results.len(),
{
    reveal(Seq::filter);
    if results.len() > 0 {
        lemma_counts(results.drop_last());
    }
}

/// A tally counts every call once: those that succeeded, those whose tool failed,
/// and those that never came back.
pub proof fn tally_counts_every_call(results: Seq<Option<ToolResult>>, t: Tally)
    requires
        is_tally(t, results),
    ensures
        t.succeeded == results.filter(|r: Option<ToolResult>| succeeded(r)).len(),
        t.errors == results.filter(|r: Option<ToolResult>| r is Some && !succeeded(r)).len(),
        t.transport_failures == results.filter(|r: Option<ToolResult>| r is None).len(),
{
    lemma_counts(results);
}

/// Whether one of the calls that are picked out returned what the call at `i` did.
pub open spec fn is_covered(results: Seq<Option<ToolResult>>, picks: Seq<int>, i: int) -> bool {
    exists|k: int|
        0 <= k < picks.len() && same_payload(
            results[#[trigger] picks[k]]->Some_0,
            results[i]->Some_0,
        )
}

/// Whether `picks` picks out one call for each different payload among the calls
/// that succeeded.
pub open spec fn picks_each_payload(results: Seq<Option<ToolResult>>, picks: Seq<int>) -> bool {
    &&& forall|k: int|
        0 <= k < picks.len() ==> 0 <= #[trigger] picks[k] < results.len() && succeeded(
            results[picks[k]],
        )
    &&& forall|k: int, l: int|
        0 <= k < l < picks.len() ==> !same_payload(
            results[#[trigger] picks[k]]->Some_0,
            results[#[trigger] picks[l]]->Some_0,
        )
    &&& forall|i: int|
        0 <= i < results.len() && succeeded(results[i]) ==> #[trigger] is_covered(results, picks, i)
}

/// Whether the JSON values of all results are well formed.
pub open spec fn results_wf(results: Seq<Option<ToolResult>>) -> bool {
    forall|i: int|
        0 <= i < results.len() && (#[trigger] results[i]) is Some ==> result_wf(results[i]->Some_0)
}

/// The number of distinct effects is the number of different payloads among the
/// calls that succeeded.
pub proof fn distinct_counts_payloads(
    results: Seq<Option<ToolResult>>,
    t: Tally,
    picks: Seq<int>,
)
    requires
        is_tally(t, results),
        results_wf(results),
        picks_each_payload(results, picks),
    ensures
        t.distinct == picks.len(),
{
    lemma_fingerprints(results);
    let prints = Seq::new(picks.len(), |k: int| fingerprint_of(results[picks[k]]->Some_0));
    assert forall|k: int, l: int| 0 <= k < prints.len() && 0 <= l < prints.len() && k != l implies prints[k]
        != prints[l] by {
        let a = results[picks[k]];
        let b = results[picks[l]];
        assert(0 <= picks[k] < results.len() && 0 <= picks[l] < results.len());
        assert(a is Some && b is Some);
        fingerprint_tells_payloads_apart(a->Some_0, b->Some_0);
        fingerprint_tells_payloads_apart(b->Some_0, a->Some_0);
        if k < l {
            assert(!same_payload(results[picks[k]]->Some_0, results[picks[l]]->Some_0));
        } else {
            assert(!same_payload(results[picks[l]]->Some_0, results[picks[k]]->Some_0));
        }
    }
    assert forall|f: Seq<char>| #[trigger] prints.to_set().contains(f) <==> fingerprints(
        results,
    ).contains(f) by {
        if prints.contains(f) {
            let k = choose|k: int| 0 <= k < prints.len() && prints[k] == f;
            assert(0 <= picks[k] < results.len() && succeeded(results[picks[k]]));
            assert(success(results[picks[k]]));
        }
        if fingerprints(results).contains(f) {
            let i = choose|i: int|
                0 <= i < results.len() && success(#[trigger] results[i]) && fingerprint_of(
                    results[i]->Some_0,
                ) == f;
            assert(succeeded(results[i]));
            assert(is_covered(results, picks, i));
            let k = choose|k: int|
                0 <= k < picks.len() && same_payload(
                    results[#[trigger] picks[k]]->Some_0,
                    results[i]->Some_0,
                );
            assert(results[picks[k]] is Some);
            fingerprint_tells_payloads_apart(results[picks[k]]->Some_0, results[i]->Some_0);
            assert(prints[k] == f);
        }
    }
    assert(prints.to_set() =~= fingerprints(results));
    prints.unique_seq_to_set();
}

/// One call can always be picked out for each different payload.
pub proof fn payloads_can_be_picked_out(results: Seq<Option<ToolResult>>) -> (picks: Seq<int>)
    requires
        results_wf(results),
    ensures
        picks_each_payload(results, picks),
    decreases results.len(),
{
    if results.len() == 0 {
        Seq::empty()
    } else {
        let rest = results.drop_last();
        let n = results.len() - 1;
        assert forall|i: int| 0 <= i < rest.len() && (#[trigger] rest[i]) is Some implies result_wf(
            rest[i]->Some_0,
        ) by {
            assert(results[i] == rest[i]);
        }
        let picks = payloads_can_be_picked_out(rest);
        assert forall|k: int| 0 <= k < picks.len() implies 0 <= #[trigger] picks[k] < rest.len()
            && results[picks[k]] == rest[picks[k]] by {
        }
        let known = exists|k: int|
            0 <= k < picks.len() && same_payload(
                results[#[trigger] picks[k]]->Some_0,
                results[n]->Some_0,
            );
        let more = if succeeded(results[n]) && !known {
            picks.push(n)
        } else {
            picks
        };
        assert forall|i: int| 0 <= i < results.len() && succeeded(results[i]) implies #[trigger] is_covered(
            results,
            more,
            i,
        ) by {
            if i < n {
                assert(rest[i] == results[i]);
                assert(is_covered(rest, picks, i));
                let k = choose|k: int|
                    0 <= k < picks.len() && same_payload(
                        rest[#[trigger] picks[k]]->Some_0,
                        rest[i]->Some_0,
                    );
                assert(more[k] == picks[k]);
                assert(same_payload(results[more[k]]->Some_0, results[i]->Some_0));
            } else if known {
                let k = choose|k: int|
                    0 <= k < picks.len() && same_payload(
                        results[#[trigger] picks[k]]->Some_0,
                        results[n]->Some_0,
                    );
                assert(more[k] == picks[k]);
            } else {
                let r = results[n]->Some_0;
                fingerprint_tells_payloads_apart(r, r);
                assert(more[picks.len() as int] == n);
                assert(same_payload(results[more[picks.len() as int]]->Some_0, r));
            }
        }
        assert forall|k: int| 0 <= k < more.len() implies 0 <= #[trigger] more[k] < results.len()
            && succeeded(results[more[k]]) by {
            if k < picks.len() {
                assert(more[k] == picks[k]);
                assert(succeeded(rest[picks[k]]));
            }
        }
        assert forall|k: int, l: int| 0 <= k < l < more.len() implies !same_payload(
            results[#[trigger] more[k]]->Some_0,
            results[#[trigger] more[l]]->Some_0,
        ) by {
            assert(more[k] == picks[k]);
            if l < picks.len() {
                assert(more[l] == picks[l]);
                assert(!same_payload(rest[picks[k]]->Some_0, rest[picks[l]]->Some_0));
            }
        }
        more
    }
}

/// Where all calls that succeeded returned the same payload, however many they are,
/// there is one distinct effect; where none succeeded there is none.
pub proof fn one_payload_is_one_effect(results: Seq<Option<ToolResult>>, t: Tally, first: int)
    requires
        is_tally(t, results),
        results_wf(results),
        0 <= first < results.len(),
        succeeded(results[first]),
        forall|i: int|
            0 <= i < results.len() && succeeded(#[trigger] results[i]) ==> same_payload(
                results[first]->Some_0,
                results[i]->Some_0,
            ),
    ensures
        t.distinct == 1,
{
    let picks = seq![first];
    assert forall|i: int| 0 <= i < results.len() && succeeded(results[i]) implies #[trigger] is_covered(
        results,
        picks,
        i,
    ) by {
        assert(same_payload(results[picks[0]]->Some_0, results[i]->Some_0));
    }
    assert(picks_each_payload(results, picks));
    distinct_counts_payloads(results, t, picks);
}

/// The whole report of a probe.
pub open spec fn report_text(p: ProbeModel, t: Tally) -> Seq<char> {
    counts_text(p, t) + verdict_text(p, t) + advice_text(p)
}

/// The report prints each figure after its own label: the tool, the calls that were
/// fired, those that succeeded, those whose tool failed, those that never came back,
/// and the number of different payloads among those that succeeded.
pub proof fn report_prints_every_count(
    p: ProbeModel,
    results: Seq<Option<ToolResult>>,
    t: Tally,
    picks: Seq<int>,
)
    requires
        is_tally(t, results),
        results_wf(results),
        picks_each_payload(results, picks),
    ensures
        shows(report_text(p, t), "  tool                : "@ + p.tool + "\n  identical calls     : "@),
        prints(
            report_text(p, t),
            "\n  identical calls     : "@,
            p.calls as nat,
            "\n  succeeded           : "@,
        ),
        prints(
            report_text(p, t),
            "\n  succeeded           : "@,
            results.filter(|r: Option<ToolResult>| succeeded(r)).len(),
            "\n  tool-level errors   : "@,
        ),
        prints(
            report_text(p, t),
            "\n  tool-level errors   : "@,
            results.filter(|r: Option<ToolResult>| r is Some && !succeeded(r)).len(),
            "\n  transport failures  : "@,
        ),
        prints(
            report_text(p, t),
            "\n  transport failures  : "@,
            results.filter(|r: Option<ToolResult>| r is None).len(),
            "\n  DISTINCT effects    : "@,
        ),
        prints(report_text(p, t), "\n  DISTINCT effects    : "@, picks.len(), "\n\n"@),
{
    tally_counts_every_call(results, t);
    distinct_counts_payloads(results, t, picks);
    lemma_counts_printed(p, t);
}

proof fn lemma_counts_printed(p: ProbeModel, t: Tally)
    ensures
        shows(report_text(p, t), "  tool                : "@ + p.tool + "\n  identical calls     : "@),
        prints(
            report_text(p, t),
            "\n  identical calls     : "@,
            p.calls as nat,
            "\n  succeeded           : "@,
        ),
        prints(
            report_text(p, t),
            "\n  succeeded           : "@,
            t.succeeded as nat,
            "\n  tool-level errors   : "@,
        ),
        prints(
            report_text(p, t),
            "\n  tool-level errors   : "@,
            t.errors as nat,
            "\n  transport failures  : "@,
        ),
        prints(
            report_text(p, t),
            "\n  transport failures  : "@,
            t.transport_failures as nat,
            "\n  DISTINCT effects    : "@,
        ),
        prints(report_text(p, t), "\n  DISTINCT effects    : "@, t.distinct as nat, "\n\n"@),
{
    let whole = report_text(p, t);
    let head = "\n\x1b[1mEffectFence probe — twin-caller race report\x1b[0m\n"@
        + "--------------------------------------------\n"@;
    let l0 = "  tool                : "@;
    let l1 = "\n  identical calls     : "@;
    let l2 = "\n  succeeded           : "@;
    let l3 = "\n  tool-level errors   : "@;
    let l4 = "\n  transport failures  : "@;
    let l5 = "\n  DISTINCT effects    : "@;
    let l6 = "\n\n"@;
    let d1 = decimal(p.calls as nat);
    let d2 = decimal(t.succeeded as nat);
    let d3 = decimal(t.errors as nat);
    let d4 = decimal(t.transport_failures as nat);
    let d5 = decimal(t.distinct as nat);
    let s1 = head + l0 + p.tool;
    let s2 = s1 + l1 + d1;
    let s3 = s2 + l2 + d2;
    let s4 = s3 + l3 + d3;
    let s5 = s4 + l4 + d4;
    let counts = counts_text(p, t);
    assert(counts == s5 + l5 + d5 + l6);
    assert(counts =~= whole.subrange(0, counts.len() as int));
    lemma_part(s5, l5, d5, l6, whole);
    lemma_part(s4, l4, d4, l5, whole);
    lemma_part(s3, l3, d3, l4, whole);
    lemma_part(s2, l2, d2, l3, whole);
    lemma_part(s1, l1, d1, l2, whole);
    lemma_part(head, l0, p.tool, l1, whole);
}

/// The report concludes what the results prove. Two calls that succeeded with
/// different payloads are a proven double fire, and it prints how many different
/// results there are. Otherwise several that succeeded prove nothing, and it says
/// how many they are; and one at most shows no race.
pub proof fn report_concludes_what_is_proven(
    p: ProbeModel,
    results: Seq<Option<ToolResult>>,
    t: Tally,
    picks: Seq<int>,
)
    requires
        is_tally(t, results),
        results_wf(results),
        picks_each_payload(results, picks),
    ensures
        ({
            let text = report_text(p, t);
            let good = results.filter(|r: Option<ToolResult>| succeeded(r)).len();
            if picks.len() > 1 {
                &&& verdict_of(t) is DoubleFire
                &&& prints(
                    text,
                    "  \x1b[31mPROVEN DOUBLE-FIRE.\x1b[0m "@,
                    p.calls as nat,
                    " byte-identical calls produced "@,
                )
                &&& prints(
                    text,
                    " byte-identical calls produced "@,
                    picks.len(),
                    " DIFFERENT\n  results. Each distinct result is a separate real execution of one\n  intended action — the duplicate side effect you cannot take back.\n"@,
                )
            } else if good > 1 {
                &&& verdict_of(t) is Inconclusive
                &&& prints(
                    text,
                    "  \x1b[33mINCONCLUSIVE from responses.\x1b[0m "@,
                    good,
                    " calls each returned the SAME\n  payload. Either the tool is idempotent, or it fired "@,
                )
                &&& prints(
                    text,
                    " calls each returned the SAME\n  payload. Either the tool is idempotent, or it fired "@,
                    good,
                    " times and\n  does not reveal it in the response. The probe reports only what the\n  server shows — it will not claim a zero it cannot prove.\n"@,
                )
            } else {
                &&& verdict_of(t) is NoRace
                &&& shows(
                    text,
                    "  Only one call succeeded; no race surface observed at this concurrency.\n"@,
                )
            }
        }),
{
    tally_counts_every_call(results, t);
    distinct_counts_payloads(results, t, picks);
    let text = report_text(p, t);
    let c = counts_text(p, t);
    let v = verdict_text(p, t);
    let a = advice_text(p);
    let d = decimal(p.calls as nat);
    let e = decimal(t.distinct as nat);
    let g = decimal(t.succeeded as nat);
    match verdict_of(t) {
        Verdict::DoubleFire => {
            let l1 = "  \x1b[31mPROVEN DOUBLE-FIRE.\x1b[0m "@;
            let l2 = " byte-identical calls produced "@;
            let l3 = " DIFFERENT\n  results. Each distinct result is a separate real execution of one\n  intended action — the duplicate side effect you cannot take back.\n"@;
            lemma_verdict(text, c, l1, d, l2, e, l3, a);
        },
        Verdict::Inconclusive => {
            let l1 = "  \x1b[33mINCONCLUSIVE from responses.\x1b[0m "@;
            let l2 = " calls each returned the SAME\n  payload. Either the tool is idempotent, or it fired "@;
            let l3 = " times and\n  does not reveal it in the response. The probe reports only what the\n  server shows — it will not claim a zero it cannot prove.\n"@;
            lemma_verdict(text, c, l1, g, l2, g, l3, a);
        },
        Verdict::NoRace => {
            lemma_shows(text, c, v, a);
        },
    }
}

/// The report says nothing beyond its counts, its conclusion and its advice: it starts
/// with the tool and the counts, and is just as long as they are.
pub proof fn report_says_nothing_else(
    p: ProbeModel,
    results: Seq<Option<ToolResult>>,
    t: Tally,
    picks: Seq<int>,
)
    requires
        is_tally(t, results),
        results_wf(results),
        picks_each_payload(results, picks),
    ensures
        ({
            let good = results.filter(|r: Option<ToolResult>| succeeded(r)).len();
            let failed = results.filter(|r: Option<ToolResult>| r is Some && !succeeded(r)).len();
            let lost = results.filter(|r: Option<ToolResult>| r is None).len();
            let counts = "\n\x1b[1mEffectFence probe — twin-caller race report\x1b[0m\n"@
                + "--------------------------------------------\n"@ + "  tool                : "@
                + p.tool + "\n  identical calls     : "@ + decimal(p.calls as nat)
                + "\n  succeeded           : "@ + decimal(good) + "\n  tool-level errors   : "@
                + decimal(failed) + "\n  transport failures  : "@ + decimal(lost)
                + "\n  DISTINCT effects    : "@ + decimal(picks.len()) + "\n\n"@;
            let conclusion = if picks.len() > 1 {
                "  \x1b[31mPROVEN DOUBLE-FIRE.\x1b[0m "@.len() + decimal(p.calls as nat).len()
                    + " byte-identical calls produced "@.len() + decimal(picks.len()).len()
                    + " DIFFERENT\n  results. Each distinct result is a separate real execution of one\n  intended action — the duplicate side effect you cannot take back.\n"@.len()
            } else if good > 1 {
                "  \x1b[33mINCONCLUSIVE from responses.\x1b[0m "@.len() + 2 * decimal(good).len()
                    + " calls each returned the SAME\n  payload. Either the tool is idempotent, or it fired "@.len()
                    + " times and\n  does not reveal it in the response. The probe reports only what the\n  server shows — it will not claim a zero it cannot prove.\n"@.len()
            } else {
                "  Only one call succeeded; no race surface observed at this concurrency.\n"@.len()
            };
            let advice = "\n  \x1b[1mBehind the fence:\x1b[0m  effectfence wrap -- "@.len()
                + joined_text(p.child, " "@).len() + "\n  those "@.len() + decimal(p.calls as nat).len()
                + " identical calls admit \x1b[1mexactly one\x1b[0m execution; every duplicate\n  is handed the recorded result instead of firing again. Verify it:\n  re-run this probe through `wrap` and DISTINCT effects drops to 1.\n\n"@.len();
            &&& counts.is_prefix_of(report_text(p, t))
            &&& report_text(p, t).len() == counts.len() + conclusion + advice
        }),
{
    tally_counts_every_call(results, t);
    distinct_counts_payloads(results, t, picks);
    let counts = counts_text(p, t);
    assert(counts =~= report_text(p, t).subrange(0, counts.len() as int));
}

proof fn lemma_verdict(
    text: Seq<char>,
    c: Seq<char>,
    l1: Seq<char>,
    d: Seq<char>,
    l2: Seq<char>,
    e: Seq<char>,
    l3: Seq<char>,
    a: Seq<char>,
)
    requires
        text == c + (l1 + d + l2 + e + l3) + a,
    ensures
        shows(text, l1 + d + l2),
        shows(text, l2 + e + l3),
{
    lemma_shows(text, c, l1 + d + l2, e + l3 + a);
    lemma_shows(text, c + l1 + d, l2 + e + l3, a);
}

/// The report advises to put the fence before the very command that was probed.
pub proof fn report_advises_the_fence(p: ProbeModel, t: Tally)
    ensures
        shows(
            report_text(p, t),
            "effectfence wrap -- "@ + joined_text(p.child, " "@) + "\n  those "@,
        ),
        prints(
            report_text(p, t),
            "\n  those "@,
            p.calls as nat,
            " identical calls admit \x1b[1mexactly one\x1b[0m execution; every duplicate\n  is handed the recorded result instead of firing again. Verify it:\n  re-run this probe through `wrap` and DISTINCT effects drops to 1.\n\n"@,
        ),
{
    let text = report_text(p, t);
    let c = counts_text(p, t) + verdict_text(p, t);
    let l1 = "\n  \x1b[1mBehind the fence:\x1b[0m  effectfence wrap -- "@;
    let l2 = "\n  those "@;
    let l3 = " identical calls admit \x1b[1mexactly one\x1b[0m execution; every duplicate\n  is handed the recorded result instead of firing again. Verify it:\n  re-run this probe through `wrap` and DISTINCT effects drops to 1.\n\n"@;
    let j = joined_text(p.child, " "@);
    let d = decimal(p.calls as nat);
    let e = "effectfence wrap -- "@;
    let f = "\n  \x1b[1mBehind the fence:\x1b[0m  "@;
    reveal_strlit("\n  \x1b[1mBehind the fence:\x1b[0m  effectfence wrap -- ");
    reveal_strlit("effectfence wrap -- ");
    reveal_strlit("\n  \x1b[1mBehind the fence:\x1b[0m  ");
    assert(l1 =~= f + e);
    lemma_shows(text, c + f, e + j + l2, d + l3);
    lemma_shows(text, c + l1 + j, l2 + d + l3, Seq::empty());
}

/// How a command line is read, word by word: a flag with its value adds to what is
/// said, whatever follows; `--` ends the flags and the rest is the command; anything
/// else, and a flag without a value, is a mistake.
pub proof fn flags_are_read_one_by_one(
    value: Seq<char>,
    rest: Seq<Seq<char>>,
    said: FlagsModel,
)
    ensures
        read_flags(Seq::empty(), said) == Ok::<FlagsModel, ProbeErrorModel>(said),
        read_flags(seq!["--tool"@, value] + rest, said) == read_flags(
            rest,
            FlagsModel { tool: Some(value), args: said.args, calls: said.calls, child: said.child },
        ),
        read_flags(seq!["--args"@, value] + rest, said) == read_flags(
            rest,
            FlagsModel { tool: said.tool, args: Some(value), calls: said.calls, child: said.child },
        ),
        count_of(value) is Ok ==> read_flags(seq!["--calls"@, value] + rest, said) == read_flags(
            rest,
            FlagsModel {
                tool: said.tool,
                args: said.args,
                calls: count_of(value)->Ok_0,
                child: said.child,
            },
        ),
        count_of(value) is Err ==> read_flags(seq!["--calls"@, value] + rest, said) == Err::<
            FlagsModel,
            ProbeErrorModel,
        >(ProbeErrorModel::CallsNotANumber(count_of(value)->Err_0)),
        read_flags(seq!["--"@] + rest, said) == Ok::<FlagsModel, ProbeErrorModel>(
            FlagsModel { tool: said.tool, args: said.args, calls: said.calls, child: rest },
        ),
        read_flags(seq!["--tool"@], said) == Err::<FlagsModel, ProbeErrorModel>(
            ProbeErrorModel::ToolNeedsValue,
        ),
        read_flags(seq!["--args"@], said) == Err::<FlagsModel, ProbeErrorModel>(
            ProbeErrorModel::ArgsNeedsValue,
        ),
        read_flags(seq!["--calls"@], said) == Err::<FlagsModel, ProbeErrorModel>(
            ProbeErrorModel::CallsNeedsValue,
        ),
        value != "--tool"@ && value != "--args"@ && value != "--calls"@ && value != "--"@
            ==> read_flags(seq![value] + rest, said) == Err::<FlagsModel, ProbeErrorModel>(
            ProbeErrorModel::Unexpected(value),
        ),
{
    reveal_strlit("--tool");
    reveal_strlit("--args");
    reveal_strlit("--calls");
    reveal_strlit("--");
    assert("--tool"@.len() == 6 && "--args"@.len() == 6 && "--calls"@.len() == 7 && "--"@.len() == 2);
    assert("--tool"@[2] == 't' && "--args"@[2] == 'a');
    assert((seq!["--tool"@, value] + rest).skip(2) =~= rest);
    assert((seq!["--args"@, value] + rest).skip(2) =~= rest);
    assert((seq!["--calls"@, value] + rest).skip(2) =~= rest);
    assert((seq!["--"@] + rest).skip(1) =~= rest);
}

/// What is said counts exactly if there is a tool, at least one call and a command.
/// Nothing said is twelve calls of no tool.
pub proof fn settings_are_complete(raw: Seq<Seq<char>>, flags: FlagsModel)
    requires
        read_flags(
            raw,
            FlagsModel { tool: None, args: None, calls: 12, child: Seq::empty() },
        ) == Ok::<FlagsModel, ProbeErrorModel>(flags),
    ensures
        flags.tool is Some && flags.calls > 0 && flags.child.len() > 0 ==> settings_of(raw) == Ok::<
            FlagsModel,
            ProbeErrorModel,
        >(flags),
        flags.tool is None ==> settings_of(raw) == Err::<FlagsModel, ProbeErrorModel>(
            ProbeErrorModel::ToolRequired,
        ),
        flags.tool is Some && flags.calls == 0 ==> settings_of(raw) == Err::<
            FlagsModel,
            ProbeErrorModel,
        >(ProbeErrorModel::ZeroCalls),
        flags.tool is Some && flags.calls > 0 && flags.child.len() == 0 ==> settings_of(raw) == Err::<
            FlagsModel,
            ProbeErrorModel,
        >(ProbeErrorModel::NoCommand),
{
}

/// A mistake among the flags is what the command line is answered with.
pub proof fn mistakes_are_passed_on(raw: Seq<Seq<char>>, error: ProbeErrorModel)
    ensures
        read_flags(
            raw,
            FlagsModel { tool: None, args: None, calls: 12, child: Seq::empty() },
        ) == Err::<FlagsModel, ProbeErrorModel>(error) ==> settings_of(raw) == Err::<
            FlagsModel,
            ProbeErrorModel,
        >(error),
        settings_of(raw) == Err::<FlagsModel, ProbeErrorModel>(error) ==> parsed(raw) == Err::<
            ProbeModel,
            ProbeErrorModel,
        >(error),
{
}

/// A probe is what its settings say: the tool, the calls and the command as they
/// are, and as arguments what their text reads as, or an empty object.
pub proof fn probe_is_what_is_asked_for(settings: FlagsModel, args: Tree, cause: Seq<char>)
    requires
        settings.tool is Some,
    ensures
        ({
            let probe = probe_of(settings, Some(Ok(args)));
            &&& probe is Ok
            &&& Some(probe->Ok_0.tool) == settings.tool
            &&& probe->Ok_0.args == args
            &&& probe->Ok_0.calls == settings.calls
            &&& probe->Ok_0.child == settings.child
        }),
        ({
            let probe = probe_of(settings, None);
            &&& probe is Ok
            &&& Some(probe->Ok_0.tool) == settings.tool
            &&& probe->Ok_0.args == Tree::Object(Seq::empty())
            &&& probe->Ok_0.calls == settings.calls
            &&& probe->Ok_0.child == settings.child
        }),
        probe_of(settings, Some(Err(cause))) == Err::<ProbeModel, ProbeErrorModel>(
            ProbeErrorModel::ArgsNotJson(cause),
        ),
{
}

/// A command line is parsed to the probe that its settings and the reading of its
/// arguments make.
pub proof fn arguments_are_read(raw: Seq<Seq<char>>, settings: FlagsModel)
    requires
        settings_of(raw) == Ok::<FlagsModel, ProbeErrorModel>(settings),
    ensures
        settings.args is None ==> parsed(raw) == probe_of(settings, None),
        settings.args is Some ==> parsed(raw) == probe_of(
            settings,
            Some(crate::json::json_reading(settings.args->Some_0)),
        ),
{
}

/// A command line that names everything is read as it names it, whatever the values
/// are.
pub proof fn full_command_lines_are_taken_at_their_word(
    tool: Seq<char>,
    args: Seq<char>,
    calls: Seq<char>,
    child: Seq<Seq<char>>,
)
    requires
        count_of(calls) is Ok,
        count_of(calls)->Ok_0 > 0,
        child.len() > 0,
    ensures
        settings_of(
            seq!["--tool"@, tool] + (seq!["--args"@, args] + (seq!["--calls"@, calls] + (seq!["--"@]
                + child))),
        ) == Ok::<FlagsModel, ProbeErrorModel>(
            FlagsModel { tool: Some(tool), args: Some(args), calls: count_of(calls)->Ok_0, child },
        ),
        settings_of(seq!["--tool"@, tool] + (seq!["--"@] + child)) == Ok::<
            FlagsModel,
            ProbeErrorModel,
        >(FlagsModel { tool: Some(tool), args: None, calls: 12, child }),
{
    let f0 = FlagsModel { tool: None, args: None, calls: 12, child: Seq::empty() };
    let f1 = FlagsModel { tool: Some(tool), ..f0 };
    let f2 = FlagsModel { args: Some(args), ..f1 };
    let f3 = FlagsModel { calls: count_of(calls)->Ok_0, ..f2 };
    let r3 = seq!["--"@] + child;
    let r2 = seq!["--calls"@, calls] + r3;
    let r1 = seq!["--args"@, args] + r2;
    flags_are_read_one_by_one(tool, r1, f0);
    flags_are_read_one_by_one(args, r2, f1);
    flags_are_read_one_by_one(calls, r3, f2);
    flags_are_read_one_by_one(tool, child, f3);
    settings_are_complete(seq!["--tool"@, tool] + r1, FlagsModel { child, ..f3 });
    flags_are_read_one_by_one(tool, r3, f0);
    flags_are_read_one_by_one(tool, child, f1);
    settings_are_complete(seq!["--tool"@, tool] + r3, FlagsModel { child, ..f1 });
}

/// What is wrong with a command line is said: which flag it is, and what stands in
/// its place where something unexpected does.
pub proof fn mistakes_are_named(arg: Seq<char>, count: CountError, cause: Seq<char>)
    ensures
        shows(probe_error_text(ProbeErrorModel::ToolNeedsValue), "--tool needs a value"@),
        shows(probe_error_text(ProbeErrorModel::ArgsNeedsValue), "--args needs a JSON value"@),
        shows(probe_error_text(ProbeErrorModel::CallsNeedsValue), "--calls needs a number"@),
        shows(
            probe_error_text(ProbeErrorModel::CallsNotANumber(count)),
            "--calls must be a positive integer"@,
        ),
        shows(
            probe_error_text(ProbeErrorModel::Unexpected(arg)),
            "probe: unexpected argument `"@ + arg + "`. "@,
        ),
        shows(probe_error_text(ProbeErrorModel::ToolRequired), "probe: --tool is required. "@),
        shows(probe_error_text(ProbeErrorModel::ZeroCalls), "probe: --calls must be at least 1"@),
        shows(
            probe_error_text(ProbeErrorModel::NoCommand),
            "probe: no server command after `--`. Usage: ... -- <command> [args...]"@,
        ),
        shows(
            probe_error_text(ProbeErrorModel::ArgsNotJson(cause)),
            "probe: --args is not valid JSON"@,
        ),
        probe_error_cause(ProbeErrorModel::CallsNotANumber(count)) == Some(count_error_text(count)),
        probe_error_cause(ProbeErrorModel::ArgsNotJson(cause)) == Some(cause),
        probe_error_cause(ProbeErrorModel::Unexpected(arg)) is None,
{
    let none = Seq::<char>::empty();
    let a = "--tool needs a value"@;
    let b = "--args needs a JSON value"@;
    let c = "--calls needs a number"@;
    let d = "--calls must be a positive integer"@;
    let e = "probe: unexpected argument `"@ + arg + "`. "@;
    let f = "probe: --tool is required. "@;
    let g = "probe: --calls must be at least 1"@;
    let h = "probe: --args is not valid JSON"@;
    let usage = crate::probe::usage_text();
    lemma_shows(a, none, a, none);
    lemma_shows(b, none, b, none);
    lemma_shows(c, none, c, none);
    lemma_shows(d, none, d, none);
    lemma_shows(e + usage, none, e, usage);
    lemma_shows(f + usage, none, f, usage);
    lemma_shows(g, none, g, none);
    lemma_shows(h, none, h, none);
    let i = "probe: no server command after `--`. Usage: ... -- <command> [args...]"@;
    lemma_shows(i, none, i, none);
}

proof fn lemma_joined_shows(parts: Seq<Seq<char>>, separator: Seq<char>, i: int)
    requires
        0 <= i < parts.len(),
    ensures
        shows(joined_text(parts, separator), parts[i]),
    decreases parts.len(),
{
    let all = joined_text(parts, separator);
    let none = Seq::<char>::empty();
    if parts.len() == 1 {
        lemma_shows(all, none, parts[i], none);
    } else {
        let rest = parts.drop_last();
        let start = joined_text(rest, separator);
        if i == parts.len() - 1 {
            lemma_shows(all, start + separator, parts[i], none);
        } else {
            lemma_joined_shows(rest, separator, i);
            let k = choose|k: int|
                0 <= k && k + parts[i].len() <= start.len() && #[trigger] start.subrange(
                    k,
                    k + parts[i].len(),
                ) == parts[i];
            assert(all.subrange(k, k + parts[i].len()) =~= start.subrange(k, k + parts[i].len()));
        }
    }
}

/// A tool that the server has is not missed, and one that it does not have is: the
/// text names it, and every tool that is there instead.
pub proof fn missing_tools_are_named(tool: Seq<char>, names: Seq<Seq<char>>, i: int)
    ensures
        missing_tool(tool, names) is None <==> exists|j: int|
            0 <= j < names.len() && #[trigger] names[j] == tool,
        missing_tool(tool, names) matches Some(text) ==> shows(
            text,
            "probe: target server has no tool `"@ + tool + "`. Available: "@,
        ) && (0 <= i < names.len() ==> shows(text, names[i])),
{
    if !names.contains(tool) {
        let head = "probe: target server has no tool `"@ + tool + "`. Available: "@;
        let list = joined_text(names, ", "@);
        let text = head + list;
        let none = Seq::<char>::empty();
        lemma_shows(text, none, head, list);
        if 0 <= i < names.len() {
            lemma_joined_shows(names, ", "@, i);
            let k = choose|k: int|
                0 <= k && k + names[i].len() <= list.len() && #[trigger] list.subrange(
                    k,
                    k + names[i].len(),
                ) == names[i];
            let at = head.len() + k;
            assert(text.subrange(at, at + names[i].len()) =~= list.subrange(k, k + names[i].len()));
        }
    }
}

/// A call is made with the members of an object, with none for `null`, and not at all
/// with anything else, which is shown.
pub proof fn only_objects_are_arguments(args: Tree)
    ensures
        args is Object ==> arguments_of(args) == Ok::<
            Option<Seq<(Seq<char>, Tree)>>,
            Seq<char>,
        >(Some(args->Object_0)),
        args is Null ==> arguments_of(args) == Ok::<Option<Seq<(Seq<char>, Tree)>>, Seq<char>>(None),
        !(args is Object) && !(args is Null) ==> arguments_of(args) is Err && shows(
            arguments_of(args)->Err_0,
            "probe: --args must be a JSON object, got "@ + json_text(canon(args)),
        ),
{
    if !(args is Object) && !(args is Null) {
        let text = arguments_of(args)->Err_0;
        lemma_shows(text, Seq::empty(), text, Seq::empty());
    }
}

} // verus!
