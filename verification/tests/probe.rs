use effectfence::json::Json;
use effectfence::probe::{
    arguments, canonical, check_tool, complete, fingerprint, parse, parse_settings, report, tally,
    target_line, ProbeArgs, ProbeError, ProbeSettings, Tally, ToolResult, Verdict,
};
use effectfence::text::CountError;
use rmcp::model::{CallToolResult, ContentBlock};

fn args(v: &[&str]) -> Vec<String> {
    v.iter().map(|s| s.to_string()).collect()
}

fn number(n: &str) -> Json {
    Json::Number(n.to_string())
}

fn object(members: Vec<(&str, Json)>) -> Json {
    Json::Object(members.into_iter().map(|(k, v)| (k.to_string(), v)).collect())
}

fn json(value: &serde_json::Value) -> Json {
    match value {
        serde_json::Value::Null => Json::Null,
        serde_json::Value::Bool(b) => Json::Bool(*b),
        serde_json::Value::Number(n) => Json::Number(n.to_string()),
        serde_json::Value::String(s) => Json::String(s.clone()),
        serde_json::Value::Array(items) => Json::Array(items.iter().map(json).collect()),
        serde_json::Value::Object(m) => {
            Json::Object(m.iter().map(|(k, v)| (k.clone(), json(v))).collect())
        }
    }
}

fn seen(result: &CallToolResult) -> ToolResult {
    ToolResult {
        content: json(&serde_json::to_value(&result.content).unwrap()),
        structured: result.structured_content.as_ref().map(json),
        is_error: result.is_error,
    }
}

#[test]
fn parse_requires_tool_and_child_command() {
    assert!(parse(&args(&["--", "python3", "srv.py"])).is_err()); // no --tool
    assert!(parse(&args(&["--tool", "charge"])).is_err()); // no child cmd
}

#[test]
fn parse_reads_tool_args_calls_and_child() {
    let p = parse(&args(&[
        "--tool",
        "charge_card",
        "--args",
        r#"{"amount":4900}"#,
        "--calls",
        "7",
        "--",
        "python3",
        "srv.py",
    ]))
    .unwrap();
    assert_eq!(p.tool, "charge_card");
    assert_eq!(p.calls, 7);
    assert_eq!(p.args, object(vec![("amount", number("4900"))]));
    assert_eq!(
        p.child_cmd,
        vec!["python3".to_string(), "srv.py".to_string()]
    );
}

#[test]
fn parse_defaults_calls_to_twelve_and_args_to_empty_object() {
    let p = parse(&args(&["--tool", "t", "--", "srv"])).unwrap();
    assert_eq!(p.calls, 12);
    assert_eq!(p.args, object(vec![]));
}

#[test]
fn parse_rejects_zero_calls_and_bad_json() {
    assert!(parse(&args(&["--tool", "t", "--calls", "0", "--", "srv"])).is_err());
    assert!(parse(&args(&["--tool", "t", "--args", "{not json", "--", "srv"])).is_err());
}

#[test]
fn canonical_is_key_order_independent() {
    let a = object(vec![
        ("b", number("1")),
        ("a", object(vec![("y", number("2")), ("x", number("3"))])),
    ]);
    let b = object(vec![
        ("a", object(vec![("x", number("3")), ("y", number("2"))])),
        ("b", number("1")),
    ]);
    assert_eq!(canonical(&a), canonical(&b));
    assert_eq!(canonical(&a), r#"{"a":{"x":3,"y":2},"b":1}"#);
}

#[test]
fn distinct_results_have_distinct_fingerprints() {
    // Two "charges" with different ids are the double-fire the probe must see.
    let r1 = seen(&CallToolResult::success(vec![ContentBlock::text(r#"{"charge_id":"ch_1"}"#)]));
    let r2 = seen(&CallToolResult::success(vec![ContentBlock::text(r#"{"charge_id":"ch_2"}"#)]));
    assert_ne!(fingerprint(&r1), fingerprint(&r2));
    // Identical payloads collapse to one bucket (the fenced/replay case).
    let r3 = seen(&CallToolResult::success(vec![ContentBlock::text(r#"{"charge_id":"ch_1"}"#)]));
    assert_eq!(fingerprint(&r1), fingerprint(&r3));
}

#[test]
fn a_fingerprint_is_the_canonical_payload() {
    let result = ToolResult {
        content: Json::Array(vec![object(vec![
            ("type", Json::String("text".into())),
            ("text", Json::String("hi".into())),
        ])]),
        structured: None,
        is_error: Some(false),
    };
    assert_eq!(
        fingerprint(&result),
        r#"{"content":[{"text":"hi","type":"text"}],"is_error":false,"structured":null}"#
    );
}

fn error_of(v: &[&str]) -> ProbeError {
    parse(&args(v)).unwrap_err()
}

#[test]
fn every_mistake_on_the_command_line_has_its_error() {
    assert_eq!(error_of(&["--tool"]), ProbeError::ToolNeedsValue);
    assert_eq!(error_of(&["--tool", "t", "--args"]), ProbeError::ArgsNeedsValue);
    assert_eq!(error_of(&["--calls"]), ProbeError::CallsNeedsValue);
    assert_eq!(error_of(&["--calls", "many"]), ProbeError::CallsNotANumber(CountError::InvalidDigit));
    assert_eq!(error_of(&["--calls", "-1"]), ProbeError::CallsNotANumber(CountError::InvalidDigit));
    assert_eq!(error_of(&["--calls", ""]), ProbeError::CallsNotANumber(CountError::Empty));
    assert_eq!(
        error_of(&["--calls", "99999999999999999999"]),
        ProbeError::CallsNotANumber(CountError::TooLarge)
    );
    assert_eq!(error_of(&["srv"]), ProbeError::Unexpected("srv".to_string()));
    assert_eq!(error_of(&[]), ProbeError::ToolRequired);
    assert_eq!(error_of(&["--", "srv"]), ProbeError::ToolRequired);
    assert_eq!(error_of(&["--tool", "t", "--calls", "0", "--", "srv"]), ProbeError::ZeroCalls);
    assert_eq!(error_of(&["--tool", "t", "--calls", "0"]), ProbeError::ZeroCalls);
    assert_eq!(error_of(&["--tool", "t", "--"]), ProbeError::NoCommand);
    assert_eq!(
        error_of(&["--tool", "t", "--args", "{", "--", "srv"]),
        ProbeError::ArgsNotJson("EOF while parsing an object at line 1 column 1".to_string())
    );
    // The command is asked for before the arguments are read.
    assert_eq!(error_of(&["--tool", "t", "--args", "{"]), ProbeError::NoCommand);
}

#[test]
fn mistakes_are_explained() {
    let usage = "Usage: effectfence probe --tool <name> [--args '<json>'] [--calls N] -- <command> [args...]";
    assert_eq!(ProbeError::ToolNeedsValue.message(), "--tool needs a value");
    assert_eq!(ProbeError::ArgsNeedsValue.message(), "--args needs a JSON value");
    assert_eq!(ProbeError::CallsNeedsValue.message(), "--calls needs a number");
    assert_eq!(
        ProbeError::CallsNotANumber(CountError::Empty).message(),
        "--calls must be a positive integer"
    );
    assert_eq!(
        ProbeError::Unexpected("-x".to_string()).message(),
        format!("probe: unexpected argument `-x`. {usage}")
    );
    assert_eq!(
        ProbeError::ToolRequired.message(),
        format!("probe: --tool is required. {usage}")
    );
    assert_eq!(ProbeError::ZeroCalls.message(), "probe: --calls must be at least 1");
    assert_eq!(
        ProbeError::NoCommand.message(),
        "probe: no server command after `--`. Usage: ... -- <command> [args...]"
    );
    assert_eq!(
        ProbeError::ArgsNotJson(String::new()).message(),
        "probe: --args is not valid JSON"
    );
}

#[test]
fn what_could_not_be_read_is_the_cause() {
    for text in ["", "+", "-", "-1", "1x", "x", "99999999999999999999", "99999999999999999999x"] {
        assert_eq!(
            error_of(&["--calls", text]).cause(),
            Some(text.parse::<usize>().unwrap_err().to_string()),
            "{text:?}"
        );
    }
    for text in ["", "{", "{not json", "[1,]", "1e999", "{} {}", "\n\"\u{1}\""] {
        let error = serde_json::from_str::<serde_json::Value>(text).unwrap_err();
        assert_eq!(
            error_of(&["--tool", "t", "--args", text, "--", "s"]).cause(),
            Some(error.to_string()),
            "{text:?}"
        );
    }
    assert_eq!(ProbeError::ToolRequired.cause(), None);
    assert_eq!(ProbeError::CallsNeedsValue.cause(), None);
}

#[test]
fn the_last_of_repeated_flags_counts_and_nothing_after_the_dashes_is_a_flag() {
    let p = parse(&args(&[
        "--tool", "a", "--calls", "3", "--tool", "b", "--calls", "+4", "--", "--tool", "c",
    ]))
    .unwrap();
    assert_eq!(p.tool, "b");
    assert_eq!(p.calls, 4);
    assert_eq!(p.child_cmd, args(&["--tool", "c"]));
}

fn read(text: &str) -> Option<Json> {
    parse(&args(&["--tool", "t", "--args", text, "--", "s"])).ok().map(|p| p.args)
}

#[test]
fn arguments_are_read_as_json() {
    assert_eq!(
        read(" { \"a\" : [ 1 , null ] } "),
        Some(object(vec![("a", Json::Array(vec![number("1"), Json::Null]))]))
    );
    assert_eq!(
        read("[true,false,\"\\u00e9\\n\",-0.5,18446744073709551615]"),
        Some(Json::Array(vec![
            Json::Bool(true),
            Json::Bool(false),
            Json::String("é\n".to_string()),
            number("-0.5"),
            number("18446744073709551615"),
        ]))
    );
    // The last of two members with one name is the one that is read.
    assert_eq!(read("{\"a\":1,\"a\":{}}"), Some(object(vec![("a", object(vec![]))])));
    for text in ["", " ", "{", "{} {}", "nul", "'a'", "01", "1e999", "{\"a\":1,}"] {
        assert_eq!(read(text), None, "{text:?}");
    }
    for text in ["0", "-1", "1.5", "1e300", "-2.5E-7", "123456789012345678901234567890"] {
        let n = match read(text) {
            Some(Json::Number(n)) => n,
            other => panic!("{other:?}"),
        };
        assert!(n.starts_with(|c: char| c == '-' || c.is_ascii_digit()), "{n}");
        assert!(n.chars().all(|c| c.is_ascii_digit() || "+-.eE".contains(c)), "{n}");
    }
}

#[test]
fn settings_ask_for_arguments_only_where_there_are_some() {
    let settings = parse_settings(&args(&["--tool", "t", "--", "s"])).unwrap();
    assert_eq!(
        settings,
        ProbeSettings {
            tool: "t".to_string(),
            args_json: None,
            calls: 12,
            child_cmd: args(&["s"]),
        }
    );
    assert_eq!(complete(settings, None).unwrap().args, object(vec![]));
    let settings = parse_settings(&args(&["--tool", "t", "--args", "[", "--", "s"])).unwrap();
    assert_eq!(settings.args_json.as_deref(), Some("["));
    assert_eq!(
        complete(settings, Some(Err("open".to_string()))),
        Err(ProbeError::ArgsNotJson("open".to_string()))
    );
    let settings = parse_settings(&args(&["--tool", "t", "--args", "[ ]", "--", "s"])).unwrap();
    assert_eq!(
        complete(settings, Some(Ok(Json::Array(vec![])))).unwrap().args,
        Json::Array(vec![])
    );
}

#[test]
fn arguments_are_an_object_or_null() {
    assert_eq!(arguments(&object(vec![])), Ok(Some(&vec![])));
    assert_eq!(
        arguments(&object(vec![("a", number("1"))])),
        Ok(Some(&vec![("a".to_string(), number("1"))]))
    );
    assert_eq!(arguments(&Json::Null), Ok(None));
    assert_eq!(
        arguments(&Json::Array(vec![number("1")])),
        Err("probe: --args must be a JSON object, got [1]".to_string())
    );
    let members = object(vec![("b", Json::Null), ("a", Json::Null)]);
    assert_eq!(
        arguments(&Json::Array(vec![members])),
        Err("probe: --args must be a JSON object, got [{\"a\":null,\"b\":null}]".to_string())
    );
    assert_eq!(
        arguments(&Json::String("null".to_string())),
        Err("probe: --args must be a JSON object, got \"null\"".to_string())
    );
}

#[test]
fn a_tool_that_is_not_there_is_named() {
    assert_eq!(check_tool("b", &args(&["a", "b"])), None);
    assert_eq!(
        check_tool("c", &args(&["a", "b"])),
        Some("probe: target server has no tool `c`. Available: a, b".to_string())
    );
    assert_eq!(
        check_tool("c", &args(&[])),
        Some("probe: target server has no tool `c`. Available: ".to_string())
    );
}

fn answer(id: &str, is_error: Option<bool>) -> Option<ToolResult> {
    Some(ToolResult { content: Json::String(id.to_string()), structured: None, is_error })
}

#[test]
fn a_tally_counts_every_call_once() {
    let t = tally(&vec![
        answer("1", None),
        answer("2", Some(false)),
        answer("1", None),
        answer("3", Some(true)),
        None,
        None,
    ]);
    assert_eq!(t, Tally { succeeded: 3, errors: 1, transport_failures: 2, distinct: 2 });
    assert_eq!(t.verdict(), Verdict::DoubleFire);
}

#[test]
fn only_different_results_prove_a_double_fire() {
    let same = tally(&vec![answer("1", None), answer("1", None)]);
    assert_eq!(same.verdict(), Verdict::Inconclusive);
    let one = tally(&vec![answer("1", None), answer("2", Some(true)), None]);
    assert_eq!(one.verdict(), Verdict::NoRace);
    let none = tally(&vec![]);
    assert_eq!(none, Tally { succeeded: 0, errors: 0, transport_failures: 0, distinct: 0 });
    assert_eq!(none.verdict(), Verdict::NoRace);
    // The flag that there was no error is part of what was returned.
    let flagged = tally(&vec![answer("1", None), answer("1", Some(false))]);
    assert_eq!(flagged.verdict(), Verdict::DoubleFire);
}

fn probe() -> ProbeArgs {
    parse(&args(&["--tool", "charge_card", "--", "npx", "-y", "srv"])).unwrap()
}

#[test]
fn the_target_is_named_before_the_calls_are_fired() {
    assert_eq!(
        target_line(&probe()),
        "[effectfence-probe] target: `npx -y srv`  tool: `charge_card`  concurrent calls: 12"
    );
}

#[test]
fn a_double_fire_is_reported() {
    let t = Tally { succeeded: 12, errors: 0, transport_failures: 0, distinct: 12 };
    assert_eq!(
        report(&probe(), &t),
        "\n\x1b[1mEffectFence probe — twin-caller race report\x1b[0m\n\
         --------------------------------------------\n\
         \x20 tool                : charge_card\n\
         \x20 identical calls     : 12\n\
         \x20 succeeded           : 12\n\
         \x20 tool-level errors   : 0\n\
         \x20 transport failures  : 0\n\
         \x20 DISTINCT effects    : 12\n\
         \n\
         \x20 \x1b[31mPROVEN DOUBLE-FIRE.\x1b[0m 12 byte-identical calls produced 12 DIFFERENT\n\
         \x20 results. Each distinct result is a separate real execution of one\n\
         \x20 intended action — the duplicate side effect you cannot take back.\n\
         \n\
         \x20 \x1b[1mBehind the fence:\x1b[0m  effectfence wrap -- npx -y srv\n\
         \x20 those 12 identical calls admit \x1b[1mexactly one\x1b[0m execution; every duplicate\n\
         \x20 is handed the recorded result instead of firing again. Verify it:\n\
         \x20 re-run this probe through `wrap` and DISTINCT effects drops to 1.\n\n"
    );
}

#[test]
fn what_proves_nothing_is_reported_as_such() {
    let t = Tally { succeeded: 5, errors: 6, transport_failures: 1, distinct: 1 };
    let text = report(&probe(), &t);
    assert!(text.contains(
        "  \x1b[33mINCONCLUSIVE from responses.\x1b[0m 5 calls each returned the SAME\n  payload. Either the tool is idempotent, or it fired 5 times and\n  does not reveal it in the response. The probe reports only what the\n  server shows — it will not claim a zero it cannot prove.\n"
    ));
    assert!(text.contains("  tool-level errors   : 6\n  transport failures  : 1\n"));
    let t = Tally { succeeded: 1, errors: 11, transport_failures: 0, distinct: 1 };
    assert!(report(&probe(), &t).contains(
        "  Only one call succeeded; no race surface observed at this concurrency.\n"
    ));
}
