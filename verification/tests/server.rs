use effectfence::cli::{command, Command};
use effectfence::demo::{charge, fenced_command, probe_args, raw_command, reply, serve_line};
use effectfence::fence::{
    prepare_effect_fence, Admission, EffectFence, EffectRequest, PreparedEffect, ReadSetEntry,
    VectorClock,
};
use effectfence::json::Json;
use effectfence::probe::{fingerprint, parse, ToolResult};
use effectfence::server::{
    fence_abort, fence_commit, fence_prepare, fence_stats, ticket_json,
    try_fence_prepare, version,
};

fn text(s: &str) -> Json {
    Json::String(s.to_string())
}

fn object(members: Vec<(&str, Json)>) -> Json {
    Json::Object(members.into_iter().map(|(k, v)| (k.to_string(), v)).collect())
}

fn request(intent: &str) -> EffectRequest {
    EffectRequest {
        intent: intent.to_string(),
        parent: None,
        domain: "d".to_string(),
        tool: "t".to_string(),
        args: object(vec![("z", Json::Null), ("a", Json::Bool(true))]),
        read_set: vec![ReadSetEntry::new("r", 0)],
        agent: "me".to_string(),
        known_clock: VectorClock::new(),
    }
}

fn ticket(fence: &mut EffectFence, intent: &str) -> PreparedEffect {
    match prepare_effect_fence(fence, request(intent)).unwrap() {
        Admission::Fresh(ticket) => ticket,
        Admission::Replay(_) => panic!("expected a ticket"),
    }
}

const TICKET: &str = "{\"agent\":\"me\",\"args\":{\"a\":true,\"z\":null},\"domain\":\"d\",\"intent\":\"i\",\"parent\":null,\"read_set\":[{\"domain\":\"r\",\"seq\":0}],\"seq\":1,\"tool\":\"t\",\"vector_clock\":{\"me\":1}}";

#[test]
fn a_fresh_attempt_is_given_its_ticket() {
    let mut fence = EffectFence::new();
    let reply = fence_prepare(&mut fence, request("i"));
    assert!(!reply.is_error);
    assert_eq!(reply.text, format!("{{\"prepared\":{TICKET},\"status\":\"fresh\"}}"));
    let duplicate = fence_prepare(&mut fence, request("i"));
    assert!(duplicate.is_error);
    assert_eq!(
        duplicate.text,
        "intent `i` is already in flight: another attempt is executing it right now"
    );
}

#[test]
fn a_committed_effect_is_given_its_certificate_and_so_is_a_duplicate() {
    let mut fence = EffectFence::new();
    let ticket = ticket(&mut fence, "i");
    let reply = fence_commit(&mut fence, ticket, text("ok"));
    assert!(!reply.is_error);
    let value: serde_json::Value = serde_json::from_str(&reply.text).unwrap();
    assert_eq!(value["status"], "committed");
    assert_eq!(value["cert"]["result"], "ok");
    assert_eq!(value["cert"]["seq"], 1);
    let duplicate = fence_prepare(&mut fence, request("i"));
    assert!(!duplicate.is_error);
    let again: serde_json::Value = serde_json::from_str(&duplicate.text).unwrap();
    assert_eq!(again["status"], "already_done");
    assert_eq!(again["cert"], value["cert"]);
    assert!(reply.text.starts_with(
        "{\"cert\":{\"agent\":\"me\",\"args\":{\"a\":true,\"z\":null},\"domain\":\"d\",\"hash\":\""
    ));
}

#[test]
fn a_rejected_commit_reports_an_error() {
    let mut fence = EffectFence::new();
    let ticket = ticket(&mut fence, "i");
    fence.reserve("r", 0).unwrap();
    let reply = fence_commit(&mut fence, ticket, Json::Null);
    assert!(reply.is_error);
    assert_eq!(
        reply.text,
        "read set entry for domain `r` is stale: expected seq 0, actual 1"
    );
}

#[test]
fn an_aborted_effect_is_confirmed() {
    let mut fence = EffectFence::new();
    let ticket = ticket(&mut fence, "i");
    let reply = fence_abort(&mut fence, ticket, "declined");
    assert!(!reply.is_error);
    assert_eq!(reply.text, "{\"intent\":\"i\",\"status\":\"aborted\"}");
    assert!(fence_prepare(&mut fence, request("i")).text.contains("previously failed (declined)"));
}

#[test]
fn statistics_are_reported() {
    let mut fence = EffectFence::new();
    let _ = fence_prepare(&mut fence, request("i"));
    let _ = fence_prepare(&mut fence, request("i"));
    let reply = fence_stats(&fence);
    assert!(!reply.is_error);
    assert_eq!(
        reply.text,
        "{\"admitted\":1,\"log_line\":\"effectfence since boot: admitted=1 replayed=0 refused(stale=0 race=0 in-flight=1 failed=0) total=2 prevented=1\",\"prevented\":1,\"refused\":{\"domain_race\":0,\"in_flight\":1,\"prior_failure\":0,\"stale_read_set\":0},\"replayed\":0,\"total_attempts\":2}"
    );
}

#[test]
fn a_ticket_is_written_in_full() {
    let mut fence = EffectFence::new();
    let ticket = ticket(&mut fence, "i");
    assert_eq!(ticket_json(&ticket).canonicalize().to_text(), TICKET);
}

#[test]
fn server_version_literal_matches_cargo_toml() {
    // The line of Cargo.toml that gives the package its version.
    let needle = format!("version = \"{}\"", version());
    assert_eq!(needle, "version = \"0.1.7\"");
}

fn words(v: &[&str]) -> Vec<String> {
    v.iter().map(|s| s.to_string()).collect()
}

#[test]
fn commands_are_told_apart() {
    assert_eq!(command(&words(&[])), Command::Serve);
    assert_eq!(command(&words(&["effectfence"])), Command::Serve);
    assert_eq!(command(&words(&["effectfence", "unknown", "wrap"])), Command::Serve);
    assert_eq!(command(&words(&["effectfence", "demo"])), Command::Demo);
    assert_eq!(command(&words(&["effectfence", "__demo-server"])), Command::DemoServer);
    assert_eq!(
        command(&words(&["effectfence", "probe", "--tool", "t"])),
        Command::Probe(words(&["--tool", "t"]))
    );
    assert_eq!(
        command(&words(&["effectfence", "wrap", "--", "npx", "--", "x"])),
        Command::Wrap(words(&["npx", "--", "x"]))
    );
    assert_eq!(
        command(&words(&["effectfence", "wrap", "--", "--", "npx"])),
        Command::Wrap(words(&["npx"]))
    );
    assert_eq!(command(&words(&["effectfence", "wrap"])), Command::Wrap(vec![]));
}

fn message(method: &str, id: Option<&str>) -> Json {
    let mut members = vec![("method", text(method))];
    if let Some(id) = id {
        members.push(("id", Json::Number(id.to_string())));
    }
    object(members)
}

fn answer(counter: &mut u64, msg: &Json) -> Option<String> {
    reply(counter, msg).map(|r| r.canonicalize().to_text())
}

#[test]
fn the_demo_server_greets_lists_and_charges() {
    let mut counter = 0;
    let hello = object(vec![
        ("method", text("initialize")),
        ("id", Json::Number("1".to_string())),
        ("params", object(vec![("protocolVersion", text("2026-07-28"))])),
    ]);
    assert_eq!(
        answer(&mut counter, &hello).unwrap(),
        "{\"id\":1,\"jsonrpc\":\"2.0\",\"result\":{\"capabilities\":{\"tools\":{}},\"protocolVersion\":\"2026-07-28\",\"serverInfo\":{\"name\":\"effectfence-demo\",\"version\":\"0.1.7\"}}}"
    );
    assert!(answer(&mut counter, &message("initialize", Some("1")))
        .unwrap()
        .contains("\"protocolVersion\":\"2025-06-18\""));
    assert_eq!(answer(&mut counter, &message("notifications/initialized", None)), None);
    assert_eq!(
        answer(&mut counter, &message("tools/list", Some("2"))).unwrap(),
        "{\"id\":2,\"jsonrpc\":\"2.0\",\"result\":{\"tools\":[{\"description\":\"DEMO tool: 'charges a card' by minting a fresh id every call. Intentionally has NO idempotency -- it is here to be double-fired.\",\"inputSchema\":{\"properties\":{\"amount\":{\"type\":\"integer\"}},\"type\":\"object\"},\"name\":\"charge_card\"}]}}"
    );
    assert_eq!(counter, 0);
    assert_eq!(
        answer(&mut counter, &message("tools/call", Some("3"))).unwrap(),
        "{\"id\":3,\"jsonrpc\":\"2.0\",\"result\":{\"content\":[{\"text\":\"{\\\"charge_id\\\":\\\"ch_00001\\\",\\\"status\\\":\\\"captured\\\"}\",\"type\":\"text\"}],\"isError\":false}}"
    );
    assert_eq!(counter, 1);
    assert!(answer(&mut counter, &message("tools/call", None)).unwrap().contains("\"id\":null"));
    assert_eq!(counter, 2);
}

#[test]
fn the_demo_server_refuses_what_it_does_not_know() {
    let mut counter = 7;
    assert_eq!(
        answer(&mut counter, &message("resources/list", Some("4"))).unwrap(),
        "{\"error\":{\"code\":-32601,\"message\":\"method not found\"},\"id\":4,\"jsonrpc\":\"2.0\"}"
    );
    assert_eq!(answer(&mut counter, &message("resources/list", None)), None);
    assert_eq!(answer(&mut counter, &Json::Null), None);
    let odd = object(vec![("method", Json::Null), ("id", Json::Null)]);
    assert!(answer(&mut counter, &odd).unwrap().contains("method not found"));
    assert_eq!(counter, 7);
}

#[test]
fn every_charge_is_a_different_effect() {
    assert_eq!(charge(42), "{\"charge_id\":\"ch_00042\",\"status\":\"captured\"}");
    assert_eq!(charge(123456), "{\"charge_id\":\"ch_123456\",\"status\":\"captured\"}");
    let seen = |n: u64| ToolResult {
        content: Json::Array(vec![object(vec![("type", text("text")), ("text", text(&charge(n)))])]),
        structured: None,
        is_error: Some(false),
    };
    assert_ne!(fingerprint(&seen(1)), fingerprint(&seen(2)));
    assert_eq!(fingerprint(&seen(1)), fingerprint(&seen(1)));
}

#[test]
fn the_demonstration_is_a_valid_probe_of_itself() {
    let raw = raw_command("/bin/ef");
    let p = parse(&probe_args(&raw)).unwrap();
    assert_eq!(p.tool, "charge_card");
    assert_eq!(p.args, object(vec![("amount", Json::Number("4900".to_string()))]));
    assert_eq!(p.calls, 12);
    assert_eq!(p.child_cmd, words(&["/bin/ef", "__demo-server"]));
    assert_eq!(command(&p.child_cmd), Command::DemoServer);
    let fenced = fenced_command("/bin/ef");
    assert_eq!(fenced, words(&["/bin/ef", "wrap", "--", "/bin/ef", "__demo-server"]));
    assert_eq!(command(&fenced), Command::Wrap(raw));
}

#[test]
fn the_demo_server_answers_line_by_line() {
    let mut counter = 0;
    for line in ["", " \t\r", "\u{a0}\u{3000}", "{", "not json", "{} x", "{}", "[1]", "null"] {
        assert_eq!(serve_line(&mut counter, line), None, "{line:?}");
    }
    assert_eq!(serve_line(&mut counter, "{\"method\":\"notifications/initialized\",\"id\":1}"), None);
    assert_eq!(serve_line(&mut counter, "{\"method\":\"resources/list\"}"), None);
    assert_eq!(
        serve_line(&mut counter, "{\"method\":\"resources/list\",\"id\":[{\"b\":1,\"a\":\"\\n\"}]}").unwrap(),
        "{\"error\":{\"code\":-32601,\"message\":\"method not found\"},\"id\":[{\"a\":\"\\n\",\"b\":1}],\"jsonrpc\":\"2.0\"}"
    );
    assert_eq!(counter, 0);
    assert_eq!(
        serve_line(&mut counter, " { \"method\" : \"tools/call\" , \"id\" : \"x\" } \r").unwrap(),
        "{\"id\":\"x\",\"jsonrpc\":\"2.0\",\"result\":{\"content\":[{\"text\":\"{\\\"charge_id\\\":\\\"ch_00001\\\",\\\"status\\\":\\\"captured\\\"}\",\"type\":\"text\"}],\"isError\":false}}"
    );
    assert_eq!(counter, 1);
    let greeting = serve_line(&mut counter, "{\"method\":\"initialize\",\"params\":{\"protocolVersion\":\"a\\nb\"}}").unwrap();
    assert!(greeting.contains("\"id\":null") && greeting.contains("a\\nb"));
    assert!(!greeting.contains('\n'));
}

#[test]
fn an_attempt_without_room_is_not_answered_but_a_duplicate_is() {
    let mut fence = EffectFence::new();
    let full = || {
        let mut req = request("i");
        req.known_clock = VectorClock::from_counters(vec![("me".to_string(), u64::MAX)]);
        req
    };
    assert!(!fence.has_room(&full(), 0));
    assert!(try_fence_prepare(&mut fence, full()).is_none());
    assert_eq!((fence.intent_count(), fence.domain_count()), (0, 0));
    assert_eq!(fence.stats().total(), 0);

    assert!(fence.has_room(&request("i"), 0));
    assert!(!try_fence_prepare(&mut fence, request("i")).unwrap().is_error);
    let duplicate = try_fence_prepare(&mut fence, full()).unwrap();
    assert!(duplicate.is_error && duplicate.text.contains("already in flight"));

    let mut stale = full();
    stale.intent = "j".to_string();
    stale.read_set = vec![ReadSetEntry::new("d", 0)];
    assert!(try_fence_prepare(&mut fence, stale).unwrap().is_error);
    assert_eq!(fence.stats().total(), 3);
}
