use effectfence::fence::{EffectFence, EffectRequest, PreparedEffect, ReadSetEntry, VectorClock};
use effectfence::json::Json;
use effectfence::server::{fence_commit, fence_prepare, ToolReply};
use effectfence::wrap::{
    answered, begin, begin_at, call_arguments, child_error, derive_intent, finish, finish_at,
    replay_error, server_instructions, server_name, split_command, startup_line, usage,
    wrap_request, Forwarded, Served, Step,
};
use sha2::Digest;

fn text(s: &str) -> Json {
    Json::String(s.to_string())
}

fn object(members: Vec<(&str, Json)>) -> Json {
    Json::Object(members.into_iter().map(|(k, v)| (k.to_string(), v)).collect())
}

fn amount() -> Json {
    object(vec![("amount_cents", Json::Number("4900".to_string()))])
}

fn string_of(v: &Json, key: &str) -> String {
    v.get(key).and_then(|m| m.as_str()).unwrap_or_else(|| panic!("no `{key}`")).to_string()
}

/// A wrapped server: a fence in front of a server that is itself a fence. The
/// server's own fence tells whether a duplicate came through.
struct Proxy {
    fence: EffectFence,
    child: EffectFence,
}

impl Proxy {
    fn new() -> Self {
        Proxy { fence: EffectFence::new(), child: EffectFence::new() }
    }

    fn child_call(&mut self, tool: &str, args: &Json) -> ToolReply {
        match tool {
            "fence_prepare" => {
                let req = EffectRequest {
                    intent: string_of(args, "intent"),
                    parent: None,
                    domain: string_of(args, "domain"),
                    tool: string_of(args, "tool"),
                    args: args.get("args").expect("args").clone(),
                    read_set: vec![],
                    agent: string_of(args, "agent"),
                    known_clock: VectorClock::new(),
                };
                fence_prepare(&mut self.child, req)
            }
            "fence_commit" => {
                let prepared = args.get("prepared").expect("prepared");
                let ticket = PreparedEffect {
                    intent: string_of(prepared, "intent"),
                    parent: None,
                    domain: string_of(prepared, "domain"),
                    seq: 1,
                    tool: string_of(prepared, "tool"),
                    args: prepared.get("args").expect("args").clone(),
                    vector_clock: VectorClock::new(),
                    read_set: vec![ReadSetEntry::new("inventory:never-reserved", 9)],
                    agent: string_of(prepared, "agent"),
                };
                fence_commit(&mut self.child, ticket, args.get("result").expect("result").clone())
            }
            other => panic!("no tool {other}"),
        }
    }

    fn call_tool(&mut self, tool: &str, args: Json) -> String {
        match begin(&mut self.fence, tool, args.clone()).expect("room") {
            Step::Forward(ticket) => {
                let reply = self.child_call(tool, &args);
                let outcome = answered(Some(text(&reply.text)), Some(reply.is_error));
                match finish(&mut self.fence, ticket, outcome) {
                    Served::Answer(None) => reply.text,
                    other => panic!("unexpected {other:?}"),
                }
            }
            Step::Replay(result) => result.as_str().expect("text").to_string(),
            Step::Refuse(text) => text,
        }
    }
}

fn parsed(reply: &str) -> serde_json::Value {
    serde_json::from_str(reply).unwrap_or_else(|_| serde_json::Value::String(reply.to_string()))
}

fn prepare_args(intent: &str, domain: &str) -> Json {
    object(vec![
        ("intent", text(intent)),
        ("domain", text(domain)),
        ("tool", text("charge_card")),
        ("args", amount()),
        ("agent", text("wrap-test")),
    ])
}

#[test]
fn identical_duplicate_call_is_replayed_at_the_proxy() {
    let mut mcp = Proxy::new();
    let args = prepare_args("charge:wrap-1", "order:wrap-1");

    let first = parsed(&mcp.call_tool("fence_prepare", args.clone()));
    assert_eq!(
        first["status"], "fresh",
        "first call should reach the child fresh, got {first}"
    );

    // The lie detector: if this reached the child, the child would answer
    // with an in-flight rejection instead of the identical payload.
    let second = parsed(&mcp.call_tool("fence_prepare", args));
    assert_eq!(
        first, second,
        "duplicate was NOT replayed at the proxy -- it reached the child"
    );
    assert_eq!(mcp.child.stats().total(), 1);
}

#[test]
fn shuffled_argument_key_order_is_still_the_same_action() {
    let mut mcp = Proxy::new();

    let first = parsed(&mcp.call_tool(
        "fence_prepare",
        prepare_args("charge:wrap-2", "order:wrap-2"),
    ));
    assert_eq!(first["status"], "fresh");

    // Same content, different key order -- canonicalization must collapse
    // these to one intent.
    let shuffled = parsed(&mcp.call_tool(
        "fence_prepare",
        object(vec![
            ("agent", text("wrap-test")),
            ("args", amount()),
            ("tool", text("charge_card")),
            ("domain", text("order:wrap-2")),
            ("intent", text("charge:wrap-2")),
        ]),
    ));
    assert_eq!(
        first, shuffled,
        "key-order variation defeated dedup -- canonicalization is broken"
    );
}

/// A ticket whose read set can never validate, so the child's `fence_commit`
/// always answers with a tool-level error.
fn doomed_commit_args(intent: &str) -> Json {
    object(vec![
        (
            "prepared",
            object(vec![
                ("intent", text(intent)),
                ("parent", Json::Null),
                ("domain", text("order:doomed")),
                ("seq", Json::Number("1".to_string())),
                ("tool", text("charge_card")),
                ("args", amount()),
                ("vector_clock", object(vec![])),
                (
                    "read_set",
                    Json::Array(vec![object(vec![
                        ("domain", text("inventory:never-reserved")),
                        ("seq", Json::Number("9".to_string())),
                    ])]),
                ),
                ("agent", text("wrap-test")),
            ]),
        ),
        ("result", object(vec![("charge_id", text("ch_1"))])),
    ])
}

#[test]
fn a_tool_level_error_does_not_brick_the_identical_retry() {
    let mut mcp = Proxy::new();
    let args = doomed_commit_args("charge:wrap-err-1");

    let first = mcp.call_tool("fence_commit", args.clone());
    assert!(
        first.contains("stale"),
        "expected the child's ReadSetStale error to come back, got {first}"
    );

    let second = mcp.call_tool("fence_commit", args);
    assert!(
        !second.contains("call refused"),
        "wrap fenced the intent after a tool-level error -- the identical retry \
         never reached the child and is now bricked. Got: {second}"
    );
    assert!(
        second.contains("stale"),
        "the retry should have reached the child and got its error again, got {second}"
    );
}

#[test]
fn genuinely_different_arguments_pass_through_as_new_actions() {
    let mut mcp = Proxy::new();

    let a = parsed(&mcp.call_tool(
        "fence_prepare",
        prepare_args("charge:wrap-3", "order:wrap-3"),
    ));
    let b = parsed(&mcp.call_tool(
        "fence_prepare",
        prepare_args("charge:wrap-4", "order:wrap-4"),
    ));

    assert_eq!(a["status"], "fresh");
    assert_eq!(b["status"], "fresh");
    assert_ne!(
        a["prepared"]["intent"], b["prepared"]["intent"],
        "distinct actions must not be collapsed into one intent"
    );
}

#[test]
fn an_intent_hashes_the_tool_and_the_canonical_arguments() {
    let args = object(vec![("b", Json::Null), ("a", amount())]);
    let digest: String =
        sha2::Sha256::digest(b"pay\0{\"a\":{\"amount_cents\":4900},\"b\":null}".as_slice())
            .iter()
            .map(|b| format!("{b:02x}"))
            .collect();
    assert_eq!(derive_intent("pay", &args), format!("wrap:pay:{digest}"));
    assert_ne!(derive_intent("pay", &args), derive_intent("pay2", &args));
    assert_ne!(derive_intent("pay", &args), derive_intent("pay", &amount()));
}

#[test]
fn a_call_is_asked_for_as_the_wrapper() {
    let req = wrap_request("pay", amount());
    assert_eq!(req.intent, derive_intent("pay", &amount()));
    assert_eq!(req.parent, None);
    assert_eq!(req.domain, "tool:pay");
    assert_eq!(req.tool, "pay");
    assert_eq!(req.args, amount());
    assert!(req.read_set.is_empty());
    assert_eq!(req.agent, "effectfence-wrap");
    assert_eq!(req.known_clock, VectorClock::new());
}

#[test]
fn a_call_without_arguments_has_an_empty_object() {
    assert_eq!(call_arguments(None), object(vec![]));
    assert_eq!(
        call_arguments(Some(vec![("a".to_string(), Json::Null)])),
        object(vec![("a", Json::Null)])
    );
}

fn forward(step: Option<Step>) -> PreparedEffect {
    match step {
        Some(Step::Forward(ticket)) => ticket,
        other => panic!("expected to forward, got {other:?}"),
    }
}

#[test]
fn a_concurrent_duplicate_is_refused_with_a_notice() {
    let mut fence = EffectFence::new();
    forward(begin_at(&mut fence, "pay", amount(), 0));
    match begin_at(&mut fence, "pay", amount(), 1) {
        Some(Step::Refuse(notice)) => assert_eq!(
            notice,
            format!(
                "effectfence: duplicate call refused (intent `{}` is already in flight: another attempt is executing it right now). If this was intentional as a NEW action, vary the arguments; if you are waiting on the first attempt, retry shortly to receive its recorded result.",
                derive_intent("pay", &amount())
            )
        ),
        other => panic!("expected a refusal, got {other:?}"),
    }
}

#[test]
fn a_broken_call_is_fenced() {
    let mut fence = EffectFence::new();
    let ticket = forward(begin_at(&mut fence, "pay", amount(), 0));
    assert!(matches!(
        finish_at(&mut fence, ticket, Forwarded::Broken("pipe closed".to_string()), 1),
        Served::Error
    ));
    match begin_at(&mut fence, "pay", amount(), 2) {
        Some(Step::Refuse(notice)) => assert!(notice.contains("previously failed (pipe closed)")),
        other => panic!("expected a refusal, got {other:?}"),
    }
}

#[test]
fn an_answer_that_cannot_be_recorded_leaves_the_lease() {
    let mut fence = EffectFence::new();
    let ticket = forward(begin_at(&mut fence, "pay", amount(), 0));
    assert!(matches!(
        finish_at(&mut fence, ticket, answered(None, None), 1),
        Served::Error
    ));
    assert!(matches!(begin_at(&mut fence, "pay", amount(), 2), Some(Step::Refuse(_))));
    // The lease runs out after a minute.
    forward(begin_at(&mut fence, "pay", amount(), 60_000_000_000));
}

#[test]
fn a_commit_that_is_rejected_still_serves_the_answer() {
    let mut fence = EffectFence::new();
    let mut ticket = forward(begin_at(&mut fence, "pay", amount(), 0));
    ticket.read_set.push(ReadSetEntry::new("x", 3));
    match finish_at(&mut fence, ticket, answered(Some(Json::Null), None), 1) {
        Served::Answer(Some(warning)) => assert_eq!(
            warning,
            "wrap: commit failed: read set entry for domain `x` is stale: expected seq 3, actual 0"
        ),
        other => panic!("expected a warning, got {other:?}"),
    }
}

#[test]
fn answers_are_told_apart() {
    assert!(matches!(answered(Some(Json::Null), Some(true)), Forwarded::ToolError));
    assert!(matches!(answered(Some(Json::Null), Some(false)), Forwarded::Done(Json::Null)));
    assert!(matches!(answered(Some(Json::Null), None), Forwarded::Done(Json::Null)));
    assert!(matches!(answered(None, Some(true)), Forwarded::Unrecordable));
}

#[test]
fn texts_of_the_wrapper() {
    assert_eq!(server_name("npx"), "effectfence-wrap(npx)");
    assert_eq!(
        server_instructions("npx"),
        "Every tool of the wrapped server `npx` is fenced: an identical duplicate call (same tool, same arguments) will NOT re-execute -- it returns the recorded result of the first execution. A concurrent identical call is refused with an in-flight notice; retry shortly to receive the recorded result."
    );
    assert_eq!(startup_line(3, "npx"), "[effectfence-wrap] fencing 3 tool(s) from `npx`");
    assert_eq!(child_error("gone"), "child server error: gone");
    assert_eq!(replay_error("bad"), "stored result no longer deserializes: bad");
    assert_eq!(
        usage(),
        "wrap: no child command given. Usage: effectfence wrap -- <command> [args...]"
    );
}

#[test]
fn a_command_is_a_program_and_its_arguments() {
    let command: Vec<String> = ["npx", "-y", "srv"].iter().map(|s| s.to_string()).collect();
    assert_eq!(
        split_command(&command),
        Some(("npx".to_string(), vec!["-y".to_string(), "srv".to_string()]))
    );
    assert_eq!(split_command(&vec![]), None);
}

#[test]
fn a_recorded_result_stays_through_other_calls_and_sweeps() {
    let mut fence = EffectFence::new();
    let second: u128 = 1_000_000_000;
    let ticket = forward(begin_at(&mut fence, "pay", amount(), 0));
    finish_at(&mut fence, ticket, answered(Some(text("ch_1")), None), second);
    for hour in 1..24 {
        let now = hour * 3600 * second;
        let other = object(vec![("n", Json::Number(hour.to_string()))]);
        let ticket = forward(begin_at(&mut fence, "pay", other, now));
        finish_at(&mut fence, ticket, Forwarded::Broken("gone".to_string()), now);
        fence.sweep_at(now);
        match begin_at(&mut fence, "pay", amount(), now) {
            Some(Step::Replay(result)) => assert_eq!(result, text("ch_1")),
            other => panic!("expected a replay, got {other:?}"),
        }
    }
}

#[test]
fn a_broken_call_stays_fenced_however_its_members_are_ordered() {
    let mut fence = EffectFence::new();
    let hour: u128 = 3_600_000_000_000;
    let one = object(vec![("a", Json::Null), ("b", Json::Bool(true))]);
    let two = object(vec![("b", Json::Bool(true)), ("a", Json::Null)]);
    let ticket = forward(begin_at(&mut fence, "pay", one, 0));
    finish_at(&mut fence, ticket, Forwarded::Broken("pipe closed".to_string()), 1);
    for now in [2, hour, 20 * hour] {
        forward(begin_at(&mut fence, &format!("other {now}"), amount(), now));
        fence.sweep_at(now);
        match begin_at(&mut fence, "pay", two.clone(), now) {
            Some(Step::Refuse(notice)) => assert!(notice.contains("pipe closed")),
            other => panic!("expected a refusal, got {other:?}"),
        }
    }
}
