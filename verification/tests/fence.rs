use effectfence::fence::{
    abort_effect, abort_effect_at, claim_effect, claim_effect_at, commit_effect_cert,
    commit_effect_cert_at, prepare_effect_fence, prepare_effect_fence_at, reserve_effect,
    try_prepare_effect_fence_at, Admission, Claim, EffectFence, EffectRequest, FenceConfig, FenceError, FenceStats,
    PreparedEffect, ReadSetEntry, VectorClock,
};
use effectfence::json::Json;
use sha2::Digest;

fn amount() -> Json {
    Json::Object(vec![("amount_cents".to_string(), Json::Number("1999".to_string()))])
}

fn text_member(key: &str, value: &str) -> Json {
    Json::Object(vec![(key.to_string(), Json::String(value.to_string()))])
}

fn empty() -> Json {
    Json::Object(vec![])
}

fn req(intent: &str, domain: &str, agent: &str) -> EffectRequest {
    EffectRequest {
        intent: intent.to_string(),
        parent: None,
        domain: domain.to_string(),
        tool: "charge_card".to_string(),
        args: amount(),
        read_set: vec![],
        agent: agent.to_string(),
        known_clock: VectorClock::new(),
    }
}

fn fresh(admission: Admission) -> PreparedEffect {
    match admission {
        Admission::Fresh(prepared) => prepared,
        Admission::Replay(cert) => panic!("expected Fresh, got Replay of {}", cert.hash),
    }
}

#[test]
fn vector_clock_tick_and_get() {
    let mut vc = VectorClock::new();
    assert_eq!(vc.get("agent-a"), 0);
    assert_eq!(vc.tick("agent-a"), 1);
    assert_eq!(vc.tick("agent-a"), 2);
    assert_eq!(vc.get("agent-a"), 2);
    assert_eq!(vc.get("agent-b"), 0);
}

#[test]
fn vector_clock_merge_takes_elementwise_max() {
    let mut a = VectorClock::new();
    a.tick("x"); // x=1
    a.tick("x"); // x=2
    let mut b = VectorClock::new();
    b.tick("x"); // x=1
    b.tick("y"); // y=1
    b.tick("y"); // y=2

    a.merge(&b);
    assert_eq!(a.get("x"), 2);
    assert_eq!(a.get("y"), 2);
}

#[test]
fn vector_clock_partial_order_and_concurrency() {
    let mut a = VectorClock::new();
    a.tick("x");
    let mut b = a.clone();
    b.tick("x"); // b strictly ahead of a on x

    assert!(a.le(&b));
    assert!(!b.le(&a));
    assert!(!a.concurrent(&b));

    let mut c = VectorClock::new();
    c.tick("y"); // c has y=1, x=0 -- incomparable with a (x=1, y=0)
    assert!(!a.le(&c));
    assert!(!c.le(&a));
    assert!(a.concurrent(&c));
}

#[test]
fn vector_clock_digest_is_stable_and_order_independent() {
    let mut a = VectorClock::new();
    a.tick("agent-a");
    a.tick("agent-b");

    let mut b = VectorClock::new();
    b.tick("agent-b");
    b.tick("agent-a");

    assert_eq!(a, b);
    assert_eq!(a.digest(), b.digest());
}

#[test]
fn domain_reserve_advances_and_rejects_stale_expectation() {
    let mut fence = EffectFence::new();
    assert_eq!(fence.current("d"), 0);

    assert_eq!(fence.reserve("d", 0), Ok(1));
    assert_eq!(fence.current("d"), 1);

    // Retrying with the now-stale expectation of 0 must fail with the actual
    // current value.
    assert_eq!(fence.reserve("d", 0), Err(1));

    assert_eq!(fence.reserve("d", 1), Ok(2));
    assert_eq!(fence.current("d"), 2);
}

#[test]
fn asking_about_a_domain_does_not_create_tracking_state() {
    let mut fence = EffectFence::new();
    assert_eq!(fence.current("ghost:1"), 0);
    assert_eq!(fence.current("ghost:2"), 0);
    assert_eq!(
        fence.domain_count(),
        0,
        "current() must be a pure read -- queries must not grow the domain map"
    );

    fence.reserve("real:1", 0).unwrap();
    assert_eq!(fence.domain_count(), 1);
    assert!(fence.evict_domain("real:1"));
    assert_eq!(fence.domain_count(), 0);
}

#[test]
fn prepare_then_commit_happy_path_produces_a_verifiable_cert() {
    let mut fence = EffectFence::new();

    let prepared = fresh(
        prepare_effect_fence(&mut fence, req("charge:order-1", "order:1", "agent-a"))
            .expect("first attempt on a free intent+domain must succeed"),
    );

    assert_eq!(prepared.seq, 1);
    assert_eq!(prepared.vector_clock.get("agent-a"), 1);

    let cert = commit_effect_cert(&mut fence, prepared, text_member("charge_id", "ch_123"))
        .expect("commit with an untouched read set must succeed");

    assert!(cert.verify());
    assert_eq!(cert.intent, "charge:order-1");
    assert_eq!(cert.domain, "order:1");
    assert_eq!(cert.seq, 1);
    assert!(cert.parent.is_none());
}

#[test]
fn late_duplicate_of_a_done_intent_is_replayed_not_rerun() {
    let mut fence = EffectFence::new();

    let prepared = fresh(
        prepare_effect_fence(&mut fence, req("charge:order-2", "order:2", "agent-a")).unwrap(),
    );
    let cert =
        commit_effect_cert(&mut fence, prepared, text_member("charge_id", "ch_1")).unwrap();
    assert_eq!(fence.current("order:2"), 1);

    // A different agent, arbitrarily later, same intent:
    let replayed =
        match prepare_effect_fence(&mut fence, req("charge:order-2", "order:2", "agent-b"))
            .expect("duplicate of a done intent is not an error")
        {
            Admission::Replay(cert) => cert,
            Admission::Fresh(_) => panic!("duplicate intent must NOT be admitted to run"),
        };

    assert_eq!(replayed.hash, cert.hash);
    assert_eq!(
        fence.current("order:2"),
        1,
        "a replayed duplicate must not consume a new domain sequence"
    );
}

#[test]
fn duplicate_of_an_in_flight_intent_is_rejected() {
    let mut fence = EffectFence::new();

    let _prepared = fresh(
        prepare_effect_fence(&mut fence, req("charge:order-3", "order:3", "agent-a")).unwrap(),
    );

    // Not yet committed -- a second attempt must be told to wait.
    let err = prepare_effect_fence(&mut fence, req("charge:order-3", "order:3", "agent-b"))
        .expect_err("an in-flight intent must reject duplicates");
    assert_eq!(err, FenceError::IntentInFlight { intent: "charge:order-3".to_string() });
}

#[test]
fn aborted_intent_is_fenced_until_explicitly_cleared() {
    let mut fence = EffectFence::new();

    let prepared = fresh(
        prepare_effect_fence(&mut fence, req("charge:order-4", "order:4", "agent-a")).unwrap(),
    );
    abort_effect(&mut fence, prepared, "card declined");

    match prepare_effect_fence(&mut fence, req("charge:order-4", "order:4", "agent-a")) {
        Err(FenceError::IntentFailed { intent, reason }) => {
            assert_eq!(intent, "charge:order-4");
            assert!(reason.contains("card declined"));
        }
        other => panic!("expected IntentFailed, got {other:?}"),
    }

    assert!(fence.clear_intent("charge:order-4"));
    let retried = fresh(
        prepare_effect_fence(&mut fence, req("charge:order-4", "order:4", "agent-a"))
            .expect("cleared intent must be runnable again"),
    );
    assert_eq!(retried.seq, 2, "the aborted attempt's seq 1 stays burned");
}

#[test]
fn rejected_admission_releases_the_intent_lease() {
    let mut fence = EffectFence::new();

    // Force a ReadSetStale rejection: claim a dependency at seq 1, then submit
    // a request that believes it's still at 0.
    fence.reserve("inventory:sku-9", 0).unwrap();
    let mut r = req("charge:order-6", "order:6", "agent-a");
    r.read_set = vec![ReadSetEntry::new("inventory:sku-9", 0)];

    let err = prepare_effect_fence(&mut fence, r).expect_err("stale read set must reject");
    assert!(matches!(err, FenceError::ReadSetStale { .. }));

    // The rejection must not leave the intent blocked.
    let ok = fresh(
        prepare_effect_fence(&mut fence, {
            let mut r = req("charge:order-6", "order:6", "agent-a");
            r.read_set = vec![ReadSetEntry::new("inventory:sku-9", 1)];
            r
        })
        .expect("a corrected retry of a rejected (never-run) attempt must be admitted"),
    );
    assert_eq!(ok.intent, "charge:order-6");
}

#[test]
fn commit_rejection_marks_the_intent_failed_not_runnable() {
    let mut fence = EffectFence::new();

    fence.reserve("inventory:sku-1", 0).unwrap();
    let mut r = req("reserve:order-7", "order:7", "agent-a");
    r.tool = "reserve_inventory".to_string();
    r.read_set = vec![ReadSetEntry::new("inventory:sku-1", 1)];

    let prepared = fresh(prepare_effect_fence(&mut fence, r).expect("read set matches"));

    // The dependency moves while the effect is "running"...
    fence.reserve("inventory:sku-1", 1).unwrap();

    let err = commit_effect_cert(&mut fence, prepared, empty())
        .expect_err("dependency moved -- commit must be rejected");
    assert!(matches!(err, FenceError::ReadSetStale { .. }));

    // ...and because the effect DID physically run, the intent must now be
    // fenced as failed, not quietly runnable again.
    match prepare_effect_fence(&mut fence, req("reserve:order-7", "order:7", "agent-a")) {
        Err(FenceError::IntentFailed { .. }) => {}
        other => panic!("expected IntentFailed after a rejected commit, got {other:?}"),
    }
}

#[test]
fn different_intents_on_the_same_domain_queue_up_sequentially() {
    let mut fence = EffectFence::new();

    let first = fresh(
        prepare_effect_fence(&mut fence, req("charge:june", "account:9", "agent-a")).unwrap(),
    );
    commit_effect_cert(&mut fence, first, empty()).unwrap();

    let second = fresh(
        prepare_effect_fence(&mut fence, req("charge:july", "account:9", "agent-b"))
            .expect("a different intent is a different action and may proceed"),
    );
    assert_eq!(second.seq, 2);
}

#[test]
fn cert_chain_records_parent_for_causal_lineage() {
    let mut fence = EffectFence::new();

    let ticket = fresh(
        prepare_effect_fence(&mut fence, req("charge:order-10", "order:10", "agent-a")).unwrap(),
    );
    let first =
        commit_effect_cert(&mut fence, ticket, text_member("charge_id", "ch_1")).unwrap();

    // Same-domain lineage is expressed via `parent`, not via a read-set entry
    // for the domain itself (which the reservation would immediately
    // invalidate).
    let mut receipt_req = req("receipt:order-10", "order:10", "agent-b");
    receipt_req.tool = "send_receipt".to_string();
    receipt_req.parent = Some(first.hash.clone());
    receipt_req.known_clock = first.vector_clock.clone();

    let ticket = fresh(prepare_effect_fence(&mut fence, receipt_req).unwrap());
    let second =
        commit_effect_cert(&mut fence, ticket, text_member("receipt_id", "rc_1")).unwrap();

    assert_eq!(second.parent, Some(first.hash));
    assert!(second.vector_clock.get("agent-a") >= 1);
    assert!(second.vector_clock.get("agent-b") >= 1);
    assert!(second.verify());
}

#[test]
fn expired_lease_can_be_taken_over_by_a_later_attempt() {
    let mut fence = EffectFence::with_config(FenceConfig {
        lease_ttl: 5_000_000,
        ..FenceConfig::default()
    });

    // First attempt takes the lease and then "crashes" (never commits or
    // aborts).
    let _abandoned = fresh(
        prepare_effect_fence_at(&mut fence, req("charge:order-5", "order:5", "agent-a"), 0)
            .unwrap(),
    );

    let takeover = fresh(
        prepare_effect_fence_at(
            &mut fence,
            req("charge:order-5", "order:5", "agent-b"),
            20_000_000,
        )
        .expect("an expired lease must be claimable"),
    );
    assert_eq!(takeover.seq, 2);
}

#[test]
fn a_lease_counts_until_it_expires_and_not_longer() {
    let mut fence = EffectFence::with_config(FenceConfig { lease_ttl: 10, result_ttl: 100 });
    fresh(prepare_effect_fence_at(&mut fence, req("i", "d", "a"), 1000).unwrap());
    assert!(prepare_effect_fence_at(&mut fence, req("i", "d", "a"), 1009).is_err());
    fresh(prepare_effect_fence_at(&mut fence, req("i", "d", "a"), 1010).unwrap());
}

#[test]
fn an_outcome_is_remembered_for_its_time_and_not_longer() {
    let mut fence = EffectFence::with_config(FenceConfig { lease_ttl: 10, result_ttl: 100 });
    let ticket = fresh(prepare_effect_fence_at(&mut fence, req("i", "d", "a"), 0).unwrap());
    commit_effect_cert_at(&mut fence, ticket, empty(), 50).unwrap();
    // A reading of the clock from before the outcome was recorded still
    // replays it.
    for now in [0, 50, 149] {
        match prepare_effect_fence_at(&mut fence, req("i", "d", "a"), now).unwrap() {
            Admission::Replay(cert) => assert_eq!(cert.seq, 1),
            Admission::Fresh(_) => panic!("must be replayed at {now}"),
        }
    }
    let again = fresh(prepare_effect_fence_at(&mut fence, req("i", "d", "a"), 150).unwrap());
    assert_eq!(again.seq, 2);
}

#[test]
fn sweep_evicts_expired_outcomes() {
    let mut fence = EffectFence::with_config(FenceConfig {
        result_ttl: 5_000_000,
        ..FenceConfig::default()
    });

    let prepared = fresh(
        prepare_effect_fence_at(&mut fence, req("charge:order-8", "order:8", "agent-a"), 0)
            .unwrap(),
    );
    commit_effect_cert_at(&mut fence, prepared, empty(), 0).unwrap();
    assert_eq!(fence.intent_count(), 1);

    fence.sweep_at(20_000_000);
    assert_eq!(fence.intent_count(), 0, "expired outcome must be evicted");

    // With the outcome expired, the intent is genuinely runnable again
    // (result_ttl is the caller's chosen replay horizon).
    let rerun = fresh(
        prepare_effect_fence_at(
            &mut fence,
            req("charge:order-8", "order:8", "agent-a"),
            20_000_000,
        )
        .unwrap(),
    );
    assert_eq!(rerun.seq, 2);
}

#[test]
fn sweep_keeps_what_still_counts() {
    let mut fence = EffectFence::with_config(FenceConfig { lease_ttl: 100, result_ttl: 50 });
    fresh(prepare_effect_fence_at(&mut fence, req("leased", "d", "a"), 0).unwrap());
    fresh(prepare_effect_fence_at(&mut fence, req("crashed", "d", "a"), 0).unwrap());
    let done = fresh(prepare_effect_fence_at(&mut fence, req("done", "d", "a"), 0).unwrap());
    let failed = fresh(prepare_effect_fence_at(&mut fence, req("failed", "d", "a"), 0).unwrap());
    commit_effect_cert_at(&mut fence, done, empty(), 20).unwrap();
    abort_effect_at(&mut fence, failed, "no", 40);
    assert_eq!(fence.intent_count(), 4);
    fence.sweep_at(69);
    assert_eq!(fence.intent_count(), 4);
    fence.sweep_at(70);
    assert_eq!(fence.intent_count(), 3);
    fence.sweep_at(90);
    assert_eq!(fence.intent_count(), 2);
    fence.sweep_at(99);
    assert_eq!(fence.intent_count(), 2);
    fence.sweep_at(100);
    assert_eq!(fence.intent_count(), 0);
    assert_eq!(fence.domain_count(), 1, "sweeping forgets no domain");
    assert_eq!(fence.current("d"), 4);
}

#[test]
fn sweep_by_the_clock_keeps_a_fresh_lease() {
    let mut fence = EffectFence::new();
    fresh(prepare_effect_fence(&mut fence, req("i", "d", "a")).unwrap());
    fence.sweep();
    assert_eq!(fence.intent_count(), 1);

    let mut forgetful = EffectFence::with_config(FenceConfig { lease_ttl: 0, result_ttl: 0 });
    fresh(prepare_effect_fence(&mut forgetful, req("i", "d", "a")).unwrap());
    forgetful.sweep();
    assert_eq!(forgetful.intent_count(), 0);
}

#[test]
fn two_agents_forced_onto_the_same_domain_exactly_one_wins_every_time() {
    for trial in 0..100 {
        let mut fence = EffectFence::new();
        let domain = format!("order:forced-race-{trial}");

        // Both agents observe the domain before either can advance it.
        let expected = [fence.current(&domain), fence.current(&domain)];
        let results: Vec<Result<u64, FenceError>> = expected
            .into_iter()
            .map(|expected| {
                fence.reserve(&domain, expected).map_err(|actual| FenceError::DomainRace {
                    domain: domain.to_string(),
                    expected,
                    actual,
                })
            })
            .collect();

        let ok_count = results.iter().filter(|r| r.is_ok()).count();
        let race_count = results
            .iter()
            .filter(|r| matches!(r, Err(FenceError::DomainRace { .. })))
            .count();

        assert_eq!(
            ok_count, 1,
            "trial {trial}: expected exactly one agent to win the domain, got {results:?}"
        );
        assert_eq!(
            race_count, 1,
            "trial {trial}: expected exactly one agent to lose with DomainRace, got {results:?}"
        );
        assert_eq!(
            fence.current(&domain),
            1,
            "trial {trial}: the loser's rejected attempt must leave no trace on the domain"
        );
    }
}

#[test]
fn concurrent_duplicates_of_one_intent_admit_exactly_one_and_replay_after_commit() {
    const RACERS: usize = 16;
    let mut fence = EffectFence::new();

    let mut results = Vec::new();
    for i in 0..RACERS {
        results.push(prepare_effect_fence(
            &mut fence,
            req("charge:order-777", "order:777", &format!("agent-{i}")),
        ));
    }

    let mut winner = None;
    let mut in_flight_rejections = 0;
    for result in results {
        match result {
            Ok(Admission::Fresh(prepared)) => {
                assert!(
                    winner.is_none(),
                    "two agents were both admitted to run the same intent"
                );
                winner = Some(prepared);
            }
            Ok(Admission::Replay(_)) => {
                panic!("nothing has committed yet -- no replay should be possible")
            }
            Err(FenceError::IntentInFlight { intent }) => {
                assert_eq!(intent, "charge:order-777");
                in_flight_rejections += 1;
            }
            Err(other) => panic!("unexpected rejection: {other:?}"),
        }
    }
    let winner = winner.expect("exactly one agent must be admitted");
    assert_eq!(in_flight_rejections, RACERS - 1);
    assert_eq!(
        fence.current("order:777"),
        1,
        "only the single winner may consume a domain sequence"
    );

    let cert = commit_effect_cert(&mut fence, winner, text_member("charge_id", "ch_race_winner"))
        .expect("winner's commit must succeed");
    assert!(cert.verify());

    match prepare_effect_fence(&mut fence, req("charge:order-777", "order:777", "agent-late"))
        .expect("a duplicate of a done intent is not an error")
    {
        Admission::Replay(replayed) => assert_eq!(replayed.hash, cert.hash),
        Admission::Fresh(_) => panic!("late duplicate must NOT be admitted to run"),
    }
    assert_eq!(fence.current("order:777"), 1);
}

#[test]
fn many_distinct_intents_on_one_domain_never_double_allocate_a_sequence() {
    const AGENTS: usize = 32;
    let mut fence = EffectFence::new();
    let domain = "order:stress";

    let mut seqs: Vec<u64> = Vec::new();
    for i in 0..AGENTS {
        if let Ok(Admission::Fresh(prepared)) = prepare_effect_fence(
            &mut fence,
            req(&format!("charge:{i}"), domain, &format!("agent-{i}")),
        ) {
            seqs.push(prepared.seq);
        }
    }

    let expected: Vec<u64> = (1..=seqs.len() as u64).collect();
    assert_eq!(
        seqs, expected,
        "successful reservations must form a gapless 1..=N range, got {seqs:?}"
    );
    assert_eq!(seqs.len(), AGENTS);
    assert_eq!(fence.current(domain), seqs.len() as u64);
}

#[test]
fn concurrent_distinct_calls_to_one_tool_are_all_admitted() {
    const N: u32 = 64;
    let mut fence = EffectFence::new();
    let mut admitted = 0;
    let mut refused = Vec::new();
    for i in 0..N {
        let request = EffectRequest {
            intent: format!("wrap:read_file:arg-{i}"),
            parent: None,
            domain: "tool:read_file".to_string(),
            tool: "read_file".to_string(),
            args: text_member("path", &format!("/file/{i}")),
            read_set: vec![],
            agent: "effectfence-wrap".to_string(),
            known_clock: VectorClock::new(),
        };
        match prepare_effect_fence(&mut fence, request) {
            Ok(Admission::Fresh(_)) => admitted += 1,
            Ok(Admission::Replay(_)) => panic!("distinct args must never replay another action"),
            Err(e) => refused.push(e.message()),
        }
    }
    assert_eq!(
        admitted,
        N,
        "all {N} DISTINCT calls must be admitted; {} refused: {:?}",
        refused.len(),
        refused
    );
}

#[test]
fn a_domain_that_moved_is_a_lost_race_and_frees_the_intent() {
    let mut fence = EffectFence::new();
    let expected = fence.current("order:1");
    fence.reserve("order:1", 0).unwrap();
    let error = reserve_effect(&mut fence, req("charge:1", "order:1", "agent-a"), expected)
        .expect_err("the domain moved");
    assert_eq!(
        error,
        FenceError::DomainRace { domain: "order:1".to_string(), expected: 0, actual: 1 }
    );
    assert_eq!(
        error.message(),
        "domain `order:1` race: expected to reserve seq 0, but the domain was already at 1"
    );
    assert_eq!(fence.stats().refused_race, 1);
    assert_eq!(fence.current("order:1"), 1);
    assert_eq!(fence.intent_count(), 0);
    let ticket = fresh(prepare_effect_fence(&mut fence, req("charge:1", "order:1", "a")).unwrap());
    assert_eq!(ticket.seq, 2);
}

#[test]
fn the_first_stale_entry_is_reported() {
    let mut fence = EffectFence::new();
    fence.reserve("b", 0).unwrap();
    fence.reserve("c", 0).unwrap();
    let mut r = req("i", "d", "a");
    r.read_set = vec![
        ReadSetEntry::new("a", 0),
        ReadSetEntry::new("b", 7),
        ReadSetEntry::new("c", 9),
    ];
    let error = prepare_effect_fence(&mut fence, r).expect_err("stale");
    assert_eq!(
        error,
        FenceError::ReadSetStale { domain: "b".to_string(), expected: 7, actual: 1 }
    );
    assert_eq!(
        error.message(),
        "read set entry for domain `b` is stale: expected seq 7, actual 1"
    );
    assert_eq!(fence.current("d"), 0);
    assert_eq!(fence.intent_count(), 0);
}

#[test]
fn rejections_say_what_happened() {
    let mut fence = EffectFence::new();
    let ticket = fresh(prepare_effect_fence(&mut fence, req("i", "d", "a")).unwrap());
    let in_flight = prepare_effect_fence(&mut fence, req("i", "d", "a")).unwrap_err();
    assert_eq!(
        in_flight.message(),
        "intent `i` is already in flight: another attempt is executing it right now"
    );
    abort_effect(&mut fence, ticket, "card declined");
    let failed = prepare_effect_fence(&mut fence, req("i", "d", "a")).unwrap_err();
    assert_eq!(
        failed.message(),
        "intent `i` previously failed (card declined); outcome is unknown -- reconcile with the downstream system, then clear_intent to allow a retry"
    );
    assert_eq!(failed.clone(), failed);
}

#[test]
fn a_rejected_commit_records_why() {
    let mut fence = EffectFence::new();
    let mut r = req("i", "d", "a");
    r.read_set = vec![ReadSetEntry::new("stock", 0)];
    let ticket = fresh(prepare_effect_fence(&mut fence, r).unwrap());
    fence.reserve("stock", 0).unwrap();
    commit_effect_cert(&mut fence, ticket, empty()).unwrap_err();
    match prepare_effect_fence(&mut fence, req("i", "d", "a")) {
        Err(FenceError::IntentFailed { intent, reason }) => {
            assert_eq!(intent, "i");
            assert_eq!(
                reason,
                "commit rejected: read-set entry for `stock` went stale (expected 0, actual 1) while the effect was running"
            );
        }
        other => panic!("expected IntentFailed, got {other:?}"),
    }
}

#[test]
fn the_own_domain_moving_on_does_not_reject_a_commit() {
    let mut fence = EffectFence::new();
    let first = fresh(prepare_effect_fence(&mut fence, req("i", "d", "a")).unwrap());
    let second = fresh(prepare_effect_fence(&mut fence, req("j", "d", "a")).unwrap());
    assert_eq!(commit_effect_cert(&mut fence, second, empty()).unwrap().seq, 2);
    assert_eq!(commit_effect_cert(&mut fence, first, empty()).unwrap().seq, 1);
}

#[test]
fn clearing_and_evicting_say_whether_there_was_anything() {
    let mut fence = EffectFence::new();
    assert!(!fence.clear_intent("i"));
    assert!(!fence.evict_domain("d"));
    fresh(prepare_effect_fence(&mut fence, req("i", "d", "a")).unwrap());
    assert!(fence.clear_intent("i"));
    assert!(!fence.clear_intent("i"));
    assert!(fence.evict_domain("d"));
    assert_eq!(fence.current("d"), 0);
    assert_eq!(fence.reserve("d", 0), Ok(1), "an evicted domain starts again");
}

#[test]
fn a_failed_reservation_tracks_the_domain_where_it_is() {
    let mut fence = EffectFence::new();
    assert_eq!(fence.reserve("d", 3), Err(0));
    assert_eq!(fence.current("d"), 0);
    assert_eq!(fence.domain_count(), 1);
}

#[test]
fn default_tunables_are_a_minute_and_a_day() {
    let config = FenceConfig::default();
    assert_eq!(config.lease_ttl, 60 * 1_000_000_000);
    assert_eq!(config.result_ttl, 24 * 60 * 60 * 1_000_000_000);
    assert_eq!(EffectFence::default().intent_count(), 0);
}

#[test]
fn every_attempt_is_counted_once() {
    let mut fence = EffectFence::new();
    let ticket = fresh(prepare_effect_fence(&mut fence, req("i", "d", "a")).unwrap());
    for _ in 0..4 {
        prepare_effect_fence(&mut fence, req("i", "d", "a")).unwrap_err();
    }
    commit_effect_cert(&mut fence, ticket, empty()).unwrap();
    for _ in 0..5 {
        prepare_effect_fence(&mut fence, req("i", "d", "a")).unwrap();
    }
    let failing = fresh(prepare_effect_fence(&mut fence, req("j", "d", "a")).unwrap());
    abort_effect(&mut fence, failing, "x");
    prepare_effect_fence(&mut fence, req("j", "d", "a")).unwrap_err();
    let mut stale = req("k", "d", "a");
    stale.read_set = vec![ReadSetEntry::new("d", 0)];
    prepare_effect_fence(&mut fence, stale).unwrap_err();

    let stats = fence.stats();
    assert_eq!(
        stats,
        FenceStats {
            admitted: 2,
            replayed: 5,
            refused_stale: 1,
            refused_race: 0,
            refused_inflight: 4,
            refused_failed: 1,
        }
    );
    assert_eq!(stats.total(), 13);
    assert_eq!(stats.prevented(), 11);
    assert_eq!(
        stats.log_line(),
        "effectfence since boot: admitted=2 replayed=5 refused(stale=1 race=0 in-flight=4 failed=1) total=13 prevented=11"
    );
}

#[test]
fn the_storm_reads_as_documented() {
    let stats = FenceStats {
        admitted: 1,
        replayed: 995,
        refused_stale: 0,
        refused_race: 4,
        refused_inflight: 0,
        refused_failed: 0,
    };
    assert_eq!(
        stats.log_line(),
        "effectfence since boot: admitted=1 replayed=995 refused(stale=0 race=4 in-flight=0 failed=0) total=1000 prevented=999"
    );
}

fn sha256_hex(text: &str) -> String {
    let digest = sha2::Sha256::digest(text.as_bytes());
    digest.iter().map(|b| format!("{b:02x}")).collect()
}

#[test]
fn the_hash_is_the_sha256_of_the_fields_in_order() {
    let mut fence = EffectFence::new();
    let mut r = req("charge:\"1\"", "order:1", "agent-a");
    r.parent = Some("abc".to_string());
    r.read_set = vec![ReadSetEntry::new("stock", 0), ReadSetEntry::new("rate\n", 0)];
    r.known_clock.tick("agent-b");
    let ticket = fresh(prepare_effect_fence(&mut fence, r).unwrap());
    let cert = commit_effect_cert(&mut fence, ticket, text_member("id", "ch_1")).unwrap();
    let text = "{\"intent\":\"charge:\\\"1\\\"\",\"parent\":\"abc\",\"domain\":\"order:1\",\"seq\":1,\"tool\":\"charge_card\",\"args\":{\"amount_cents\":1999},\"result\":{\"id\":\"ch_1\"},\"vector_clock\":{\"agent-a\":1,\"agent-b\":1},\"read_set\":[{\"domain\":\"stock\",\"seq\":0},{\"domain\":\"rate\\n\",\"seq\":0}],\"agent\":\"agent-a\"}";
    assert_eq!(cert.hash, sha256_hex(text));
    assert_eq!(cert.hash.len(), 64);
}

#[test]
fn a_certificate_without_parent_hashes_null() {
    let mut fence = EffectFence::new();
    let ticket = fresh(prepare_effect_fence(&mut fence, req("i", "d", "a")).unwrap());
    let cert = commit_effect_cert(&mut fence, ticket, Json::Null).unwrap();
    let text = "{\"intent\":\"i\",\"parent\":null,\"domain\":\"d\",\"seq\":1,\"tool\":\"charge_card\",\"args\":{\"amount_cents\":1999},\"result\":null,\"vector_clock\":{\"a\":1},\"read_set\":[],\"agent\":\"a\"}";
    assert_eq!(cert.hash, sha256_hex(text));
}

#[test]
fn changing_any_field_of_a_certificate_is_evident() {
    let mut fence = EffectFence::new();
    let ticket = fresh(prepare_effect_fence(&mut fence, req("i", "d", "a")).unwrap());
    let cert = commit_effect_cert(&mut fence, ticket, Json::Bool(true)).unwrap();
    assert!(cert.clone().verify());

    let mut changed = cert.clone();
    changed.intent = "j".to_string();
    assert!(!changed.verify());
    let mut changed = cert.clone();
    changed.parent = Some(String::new());
    assert!(!changed.verify());
    let mut changed = cert.clone();
    changed.domain = "e".to_string();
    assert!(!changed.verify());
    let mut changed = cert.clone();
    changed.seq = 2;
    assert!(!changed.verify());
    let mut changed = cert.clone();
    changed.tool = "refund".to_string();
    assert!(!changed.verify());
    let mut changed = cert.clone();
    changed.args = Json::Null;
    assert!(!changed.verify());
    let mut changed = cert.clone();
    changed.result = Json::Bool(false);
    assert!(!changed.verify());
    let mut changed = cert.clone();
    changed.vector_clock.tick("a");
    assert!(!changed.verify());
    let mut changed = cert.clone();
    changed.read_set.push(ReadSetEntry::new("d", 0));
    assert!(!changed.verify());
    let mut changed = cert.clone();
    changed.agent = "b".to_string();
    assert!(!changed.verify());
    let mut changed = cert.clone();
    changed.hash = "00".to_string();
    assert!(!changed.verify());
    assert_eq!(cert, cert.clone());
}

#[test]
fn a_replay_hands_out_the_very_certificate() {
    let mut fence = EffectFence::new();
    let ticket = fresh(prepare_effect_fence(&mut fence, req("i", "d", "a")).unwrap());
    let cert = commit_effect_cert(&mut fence, ticket, text_member("id", "ch_1")).unwrap();
    match prepare_effect_fence(&mut fence, req("i", "other", "b")).unwrap() {
        Admission::Replay(replayed) => assert_eq!(*replayed, cert),
        Admission::Fresh(_) => panic!("must be replayed"),
    }
    assert_eq!(fence.current("other"), 0);
}

#[test]
fn a_replay_comes_before_a_stale_read_set() {
    let mut fence = EffectFence::new();
    let ticket = fresh(prepare_effect_fence(&mut fence, req("i", "d", "a")).unwrap());
    commit_effect_cert(&mut fence, ticket, empty()).unwrap();
    let mut duplicate = req("i", "d", "a");
    duplicate.read_set = vec![ReadSetEntry::new("d", 0)];
    assert!(matches!(
        prepare_effect_fence(&mut fence, duplicate),
        Ok(Admission::Replay(_))
    ));
}

#[test]
fn tickets_and_requests_copy_whole() {
    let mut r = req("i", "d", "a");
    r.parent = Some("p".to_string());
    r.read_set = vec![ReadSetEntry::new("x", 0)];
    let copy = r.clone();
    assert_eq!(format!("{r:?}"), format!("{copy:?}"));
    let mut fence = EffectFence::new();
    let ticket = fresh(prepare_effect_fence(&mut fence, r).unwrap());
    assert_eq!(format!("{ticket:?}"), format!("{:?}", ticket.clone()));
    assert_eq!(ticket.parent.as_deref(), Some("p"));
    assert_eq!(ticket.read_set, vec![ReadSetEntry::new("x", 0)]);
}

#[test]
fn a_storm_of_attempts_executes_once() {
    let mut fence = EffectFence::new();
    let mut executions = 0;
    let mut replays = 0;
    let mut blocked = 0;
    for _wave in 0..40 {
        let mut running = None;
        for i in 0..25 {
            match prepare_effect_fence(
                &mut fence,
                req("charge:order-777", "order:777", &format!("agent-{i}")),
            ) {
                Ok(Admission::Fresh(prepared)) => {
                    executions += 1;
                    running = Some(prepared);
                }
                Ok(Admission::Replay(cert)) => {
                    assert!(cert.verify());
                    replays += 1;
                }
                Err(_) => blocked += 1,
            }
        }
        if let Some(prepared) = running {
            let cert =
                commit_effect_cert(&mut fence, prepared, text_member("charge_id", "ch_storm_1"))
                    .expect("winner's commit");
            assert!(cert.verify());
        }
    }
    assert_eq!((executions, replays, blocked), (1, 975, 24));
    assert_eq!(fence.stats().total(), 1000);
    assert_eq!(fence.stats().prevented(), 999);
}

#[test]
fn of_three_contradictory_agents_exactly_one_acts() {
    let mut fence = EffectFence::new();
    let metrics = "metrics:prod-us-east-1";
    let cluster = "cluster:prod-us-east-1";
    let observed = fence.current(metrics);

    let mut scale_up = req("remediate:prod-us-east-1:latency-spike", cluster, "agent-A");
    scale_up.read_set = vec![ReadSetEntry::new(metrics, observed)];
    scale_up.known_clock.tick("agent-A");
    let ticket = fresh(prepare_effect_fence(&mut fence, scale_up).unwrap());
    let cert = commit_effect_cert(&mut fence, ticket, text_member("scaled", "yes")).unwrap();
    assert!(cert.verify());

    // A's action changed the world that B decided on.
    fence.reserve(metrics, observed).unwrap();
    let mut scale_down = req("cost-optimize:prod-us-east-1:scale-down", cluster, "agent-B");
    scale_down.read_set = vec![ReadSetEntry::new(metrics, observed)];
    assert_eq!(
        prepare_effect_fence(&mut fence, scale_down).unwrap_err(),
        FenceError::ReadSetStale { domain: metrics.to_string(), expected: 0, actual: 1 }
    );

    let mut clock_c = VectorClock::new();
    clock_c.tick("agent-C");
    assert!(clock_c.concurrent(&cert.vector_clock));
    assert_eq!(fence.stats().admitted, 1);
    assert_eq!(fence.current(cluster), 1);
}

fn leased(claim: Claim) -> u64 {
    match claim {
        Claim::Leased(seq) => seq,
        Claim::Answered(answer) => panic!("expected a lease, got {answer:?}"),
    }
}

#[test]
fn attempts_between_the_gates_race_for_their_domain() {
    let mut fence = EffectFence::new();
    let june = req("charge:june", "account:9", "agent-a");
    let july = req("charge:july", "account:9", "agent-b");
    let seen_by_june = leased(claim_effect(&mut fence, &june));
    let seen_by_july = leased(claim_effect(&mut fence, &july));
    assert_eq!((seen_by_june, seen_by_july), (0, 0));

    // A duplicate of an attempt between the gates is held off.
    match claim_effect(&mut fence, &june) {
        Claim::Answered(Err(FenceError::IntentInFlight { intent })) => {
            assert_eq!(intent, "charge:june")
        }
        other => panic!("expected a refusal, got {other:?}"),
    }

    let winner = fresh(reserve_effect(&mut fence, july, seen_by_july).unwrap());
    assert_eq!(winner.seq, 1);
    assert_eq!(
        reserve_effect(&mut fence, june.clone(), seen_by_june).unwrap_err(),
        FenceError::DomainRace { domain: "account:9".to_string(), expected: 0, actual: 1 }
    );

    // The loser ran nothing and left no lease: it may try again.
    let again = leased(claim_effect(&mut fence, &june));
    assert_eq!(again, 1);
    assert_eq!(fresh(reserve_effect(&mut fence, june, again).unwrap()).seq, 2);
    let stats = fence.stats();
    assert_eq!((stats.admitted, stats.refused_race, stats.refused_inflight), (2, 1, 1));
}

#[test]
fn the_first_gates_answer_what_they_can() {
    let mut fence = EffectFence::new();
    let mut stale = req("i", "d", "a");
    stale.read_set = vec![ReadSetEntry::new("x", 1)];
    assert!(matches!(
        claim_effect_at(&mut fence, &stale, 0),
        Claim::Answered(Err(FenceError::ReadSetStale { .. }))
    ));
    assert_eq!(fence.intent_count(), 0);
    assert_eq!(leased(claim_effect_at(&mut fence, &req("i", "d", "a"), 0)), 0);
    assert_eq!(fence.intent_count(), 1);
    assert_eq!(fence.domain_count(), 0);
}

#[test]
fn an_executed_intent_is_never_admitted_again_while_it_is_remembered() {
    let mut fence = EffectFence::with_config(FenceConfig { lease_ttl: 10, result_ttl: 1000 });
    let ticket = fresh(prepare_effect_fence_at(&mut fence, req("i", "d", "a"), 0).unwrap());
    let cert = commit_effect_cert_at(&mut fence, ticket, empty(), 5).unwrap();
    // Far beyond the lease, with other traffic on the domain and sweeps.
    for now in 20..1005 {
        let intent = format!("other {now}");
        let ticket = fresh(prepare_effect_fence_at(&mut fence, req(&intent, "d", "b"), now).unwrap());
        abort_effect_at(&mut fence, ticket, "no", now);
        fence.sweep_at(now);
        match prepare_effect_fence_at(&mut fence, req("i", "d", "c"), now).unwrap() {
            Admission::Replay(seen) => assert_eq!(seen.hash, cert.hash),
            Admission::Fresh(_) => panic!("admitted again at {now}"),
        }
    }
}

#[test]
fn a_failed_intent_stays_fenced_while_it_is_remembered() {
    let mut fence = EffectFence::with_config(FenceConfig { lease_ttl: 10, result_ttl: 1000 });
    let aborted = fresh(prepare_effect_fence_at(&mut fence, req("i", "d", "a"), 0).unwrap());
    abort_effect_at(&mut fence, aborted, "timeout", 5);
    let mut stale = req("j", "e", "a");
    stale.read_set = vec![ReadSetEntry::new("d", 1)];
    let rejected = fresh(prepare_effect_fence_at(&mut fence, stale, 5).unwrap());
    fresh(prepare_effect_fence_at(&mut fence, req("k", "d", "a"), 5).unwrap());
    assert!(commit_effect_cert_at(&mut fence, rejected, empty(), 6).is_err());
    for now in (7..1005).step_by(7) {
        fence.sweep_at(now);
        for intent in ["i", "j"] {
            assert!(matches!(
                prepare_effect_fence_at(&mut fence, req(intent, "d", "b"), now),
                Err(FenceError::IntentFailed { .. })
            ));
        }
    }
}

#[test]
fn the_hash_does_not_depend_on_the_order_of_members() {
    let two = |x: &str, y: &str| {
        Json::Object(vec![(x.to_string(), Json::Null), (y.to_string(), Json::Null)])
    };
    let cert = |args: Json, result: Json| {
        let mut fence = EffectFence::new();
        let mut r = req("i", "d", "a");
        r.args = args;
        let ticket = fresh(prepare_effect_fence(&mut fence, r).unwrap());
        commit_effect_cert(&mut fence, ticket, result).unwrap()
    };
    let one = cert(two("x", "y"), two("p", "q"));
    let other = cert(two("y", "x"), two("q", "p"));
    assert_eq!(one.hash, other.hash);
    assert_ne!(one.hash, cert(two("x", "z"), two("p", "q")).hash);
    assert!(one.hash.chars().all(|c| c.is_ascii_digit() || ('a'..='f').contains(&c)));
    let mut reordered = one.clone();
    reordered.args = two("y", "x");
    assert!(reordered.verify());
    assert_eq!(one, other);
    assert_eq!(one, reordered);
    let mut changed = one.clone();
    changed.args = two("x", "z");
    assert_ne!(one, changed);
    let text = "{\"intent\":\"i\",\"parent\":null,\"domain\":\"d\",\"seq\":1,\"tool\":\"charge_card\",\"args\":{\"x\":null,\"y\":null},\"result\":{\"p\":null,\"q\":null},\"vector_clock\":{\"a\":1},\"read_set\":[],\"agent\":\"a\"}";
    assert_eq!(other.hash, sha256_hex(text));
}

#[test]
fn distinct_intents_are_numbered_from_one() {
    let mut fence = EffectFence::new();
    for n in 1..=50 {
        let r = req(&format!("charge:{n}"), "account:9", &format!("agent {n}"));
        match try_prepare_effect_fence_at(&mut fence, r, 7).unwrap().unwrap() {
            Admission::Fresh(ticket) => assert_eq!(ticket.seq, n),
            Admission::Replay(_) => panic!("nothing to replay"),
        }
        assert_eq!(fence.current("account:9"), n);
    }
}

#[test]
fn refusals_change_no_domain_and_no_other_record() {
    let mut fence = EffectFence::new();
    fresh(prepare_effect_fence_at(&mut fence, req("i", "d", "a"), 0).unwrap());
    assert!(prepare_effect_fence_at(&mut fence, req("i", "e", "a"), 1).is_err());
    let mut ahead = req("j", "e", "a");
    ahead.read_set = vec![ReadSetEntry::new("d", 1), ReadSetEntry::new("d", 2)];
    assert_eq!(
        prepare_effect_fence_at(&mut fence, ahead, 1).unwrap_err(),
        FenceError::ReadSetStale { domain: "d".to_string(), expected: 2, actual: 1 }
    );
    assert_eq!((fence.intent_count(), fence.domain_count()), (1, 1));
    assert_eq!((fence.current("d"), fence.current("e")), (1, 0));
}
