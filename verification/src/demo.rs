//! The demonstration: the probe against a built-in server whose one tool
//! charges a card anew on every call, first without and then with a fence in
//! front of it.

use vstd::prelude::*;
use vstd::string::*;
use crate::demo_laws::lemma_answer_is_one_line;
use crate::json::{canon, json_reading, json_text, lemma_member_trees, lemma_trees, member,
    member_trees, read_json, text_of, trees, Json, Tree};
use crate::json_laws::one_line;
use crate::order::same_text;
use crate::server::version;
use crate::text::{padded, padded_text, texts, trim, trimmed};

verus! {

/// The text of the `counter`-th charge.
pub open spec fn charge_text(counter: u64) -> Seq<char> {
    "{\"charge_id\":\"ch_"@ + padded(counter as nat, 5) + "\",\"status\":\"captured\"}"@
}

/// The method that a message asks for: none where it names none.
pub open spec fn method_of(msg: Tree) -> Seq<char> {
    match member(msg, "method"@) {
        Some(m) => match text_of(m) {
            Some(text) => text,
            None => ""@,
        },
        None => ""@,
    }
}

/// The id of a message, or `null`.
pub open spec fn id_of(msg: Tree) -> Tree {
    match member(msg, "id"@) {
        Some(id) => id,
        None => Tree::Null,
    }
}

/// The version of the protocol that the client asks for.
pub open spec fn protocol_of(msg: Tree) -> Seq<char> {
    match member(msg, "params"@) {
        Some(params) => match member(params, "protocolVersion"@) {
            Some(v) => match text_of(v) {
                Some(text) => text,
                None => "2025-06-18"@,
            },
            None => "2025-06-18"@,
        },
        None => "2025-06-18"@,
    }
}

/// An object with one member.
pub open spec fn object1(key: Seq<char>, value: Tree) -> Tree {
    Tree::Object(seq![(key, value)])
}

/// An object with two members.
pub open spec fn object2(k1: Seq<char>, v1: Tree, k2: Seq<char>, v2: Tree) -> Tree {
    Tree::Object(seq![(k1, v1), (k2, v2)])
}

/// An object with three members.
pub open spec fn object3(
    k1: Seq<char>,
    v1: Tree,
    k2: Seq<char>,
    v2: Tree,
    k3: Seq<char>,
    v3: Tree,
) -> Tree {
    Tree::Object(seq![(k1, v1), (k2, v2), (k3, v3)])
}

/// A reply to a message: its outcome stands under `kind`.
pub open spec fn envelope(msg: Tree, kind: Seq<char>, outcome: Tree) -> Tree {
    object3("jsonrpc"@, Tree::String("2.0"@), "id"@, id_of(msg), kind, outcome)
}

/// What the server says of itself.
pub open spec fn greeting(msg: Tree) -> Tree {
    object3(
        "protocolVersion"@,
        Tree::String(protocol_of(msg)),
        "capabilities"@,
        object1("tools"@, Tree::Object(Seq::empty())),
        "serverInfo"@,
        object2(
            "name"@,
            Tree::String("effectfence-demo"@),
            "version"@,
            Tree::String("0.1.7"@),
        ),
    )
}

/// The server's only tool.
pub open spec fn charge_tool() -> Tree {
    object3(
        "name"@,
        Tree::String("charge_card"@),
        "description"@,
        Tree::String(
            "DEMO tool: 'charges a card' by minting a fresh id every call. Intentionally has NO idempotency -- it is here to be double-fired."@,
        ),
        "inputSchema"@,
        object2(
            "type"@,
            Tree::String("object"@),
            "properties"@,
            object1("amount"@, object1("type"@, Tree::String("integer"@))),
        ),
    )
}

/// The result of a charge.
pub open spec fn charge_result(counter: u64) -> Tree {
    object2(
        "content"@,
        Tree::Array(
            seq![
                object2(
                    "type"@,
                    Tree::String("text"@),
                    "text"@,
                    Tree::String(charge_text(counter)),
                ),
            ],
        ),
        "isError"@,
        Tree::Bool(false),
    )
}

/// What the server replies to a message after `counter` charges, and how many
/// charges there are then.
pub open spec fn demo_reply(counter: u64, msg: Tree) -> (u64, Option<Tree>) {
    let method = method_of(msg);
    if method == "initialize"@ {
        (counter, Some(envelope(msg, "result"@, greeting(msg))))
    } else if method == "notifications/initialized"@ {
        (counter, None)
    } else if method == "tools/list"@ {
        (
            counter,
            Some(
                envelope(
                    msg,
                    "result"@,
                    object1("tools"@, Tree::Array(seq![charge_tool()])),
                ),
            ),
        )
    } else if method == "tools/call"@ {
        let next = (counter + 1) as u64;
        (next, Some(envelope(msg, "result"@, charge_result(next))))
    } else if member(msg, "id"@) is Some {
        (
            counter,
            Some(
                envelope(
                    msg,
                    "error"@,
                    object2(
                        "code"@,
                        Tree::Number("-32601"@),
                        "message"@,
                        Tree::String("method not found"@),
                    ),
                ),
            ),
        )
    } else {
        (counter, None)
    }
}

fn text(s: &str) -> (json: Json)
    ensures
        json@ == Tree::String(s@),
{
    Json::String(s.to_owned())
}

fn make1(key: &str, value: Json) -> (json: Json)
    ensures
        json@ == object1(key@, value@),
{
    let mut members: Vec<(String, Json)> = Vec::new();
    members.push((key.to_owned(), value));
    proof {
        lemma_member_trees(members@);
        assert(member_trees(members@) =~= object1(key@, value@)->Object_0);
    }
    Json::Object(members)
}

fn make2(k1: &str, v1: Json, k2: &str, v2: Json) -> (json: Json)
    ensures
        json@ == object2(k1@, v1@, k2@, v2@),
{
    let mut members: Vec<(String, Json)> = Vec::new();
    members.push((k1.to_owned(), v1));
    members.push((k2.to_owned(), v2));
    proof {
        lemma_member_trees(members@);
        assert(member_trees(members@) =~= object2(k1@, v1@, k2@, v2@)->Object_0);
    }
    Json::Object(members)
}

fn make3(k1: &str, v1: Json, k2: &str, v2: Json, k3: &str, v3: Json) -> (json: Json)
    ensures
        json@ == object3(k1@, v1@, k2@, v2@, k3@, v3@),
{
    let mut members: Vec<(String, Json)> = Vec::new();
    members.push((k1.to_owned(), v1));
    members.push((k2.to_owned(), v2));
    members.push((k3.to_owned(), v3));
    proof {
        lemma_member_trees(members@);
        assert(member_trees(members@) =~= object3(k1@, v1@, k2@, v2@, k3@, v3@)->Object_0);
    }
    Json::Object(members)
}

fn single(item: Json) -> (json: Json)
    ensures
        json@ == Tree::Array(seq![item@]),
{
    let mut items: Vec<Json> = Vec::new();
    items.push(item);
    proof {
        lemma_trees(items@);
        assert(trees(items@) =~= seq![item@]);
    }
    Json::Array(items)
}

fn empty_object() -> (json: Json)
    ensures
        json@ == Tree::Object(Seq::empty()),
{
    let members: Vec<(String, Json)> = Vec::new();
    Json::Object(members)
}

fn id_json(msg: &Json) -> (json: Json)
    ensures
        json@ == id_of(msg@),
{
    match msg.get("id") {
        Some(id) => id.clone(),
        None => Json::Null,
    }
}

fn wrap_reply(msg: &Json, kind: &str, outcome: Json) -> (json: Json)
    ensures
        json@ == envelope(msg@, kind@, outcome@),
{
    make3("jsonrpc", text("2.0"), "id", id_json(msg), kind, outcome)
}

fn protocol(msg: &Json) -> (version: String)
    ensures
        version@ == protocol_of(msg@),
{
    match msg.get("params") {
        Some(params) => match params.get("protocolVersion") {
            Some(v) => match v.as_str() {
                Some(s) => s.to_owned(),
                None => "2025-06-18".to_owned(),
            },
            None => "2025-06-18".to_owned(),
        },
        None => "2025-06-18".to_owned(),
    }
}

fn greet(msg: &Json) -> (json: Json)
    ensures
        json@ == greeting(msg@),
{
    make3(
        "protocolVersion",
        Json::String(protocol(msg)),
        "capabilities",
        make1("tools", empty_object()),
        "serverInfo",
        make2("name", text("effectfence-demo"), "version", text(version())),
    )
}

fn tool() -> (json: Json)
    ensures
        json@ == charge_tool(),
{
    make3(
        "name",
        text("charge_card"),
        "description",
        text(
            "DEMO tool: 'charges a card' by minting a fresh id every call. Intentionally has NO idempotency -- it is here to be double-fired.",
        ),
        "inputSchema",
        make2(
            "type",
            text("object"),
            "properties",
            make1("amount", make1("type", text("integer"))),
        ),
    )
}

/// The text of the `counter`-th charge.
pub fn charge(counter: u64) -> (s: String)
    ensures
        s@ == charge_text(counter),
{
    let mut out: String = String::new();
    out.append("{\"charge_id\":\"ch_");
    out.append(padded_text(counter, 5).as_str());
    out.append("\",\"status\":\"captured\"}");
    assert(out@ =~= charge_text(counter));
    out
}

fn charged(counter: u64) -> (json: Json)
    ensures
        json@ == charge_result(counter),
{
    make2(
        "content",
        single(make2("type", text("text"), "text", Json::String(charge(counter)))),
        "isError",
        Json::Bool(false),
    )
}

/// The reply of the built-in server to a message, if it gets one. `counter` is
/// the number of charges so far: every `tools/call` makes one more, which is
/// what the probe is to find out.
pub fn reply(counter: &mut u64, msg: &Json) -> (answer: Option<Json>)
    requires
        method_of(msg@) == "tools/call"@ ==> *old(counter) < u64::MAX,
    ensures
        *final(counter) == demo_reply(*old(counter), msg@).0,
        match answer {
            Some(json) => demo_reply(*old(counter), msg@).1 == Some(json@),
            None => demo_reply(*old(counter), msg@).1 is None,
        },
{
    let method: &str = match msg.get("method") {
        Some(m) => match m.as_str() {
            Some(s) => s,
            None => "",
        },
        None => "",
    };
    assert(method@ == method_of(msg@));
    if same_text(method, "initialize") {
        Some(wrap_reply(msg, "result", greet(msg)))
    } else if same_text(method, "notifications/initialized") {
        None
    } else if same_text(method, "tools/list") {
        Some(wrap_reply(msg, "result", make1("tools", single(tool()))))
    } else if same_text(method, "tools/call") {
        *counter = *counter + 1;
        Some(wrap_reply(msg, "result", charged(*counter)))
    } else if msg.get("id").is_some() {
        let outcome: Json = make2(
            "code",
            Json::Number("-32601".to_owned()),
            "message",
            text("method not found"),
        );
        Some(wrap_reply(msg, "error", outcome))
    } else {
        None
    }
}

/// What the server writes for a line after `counter` charges, given what the
/// line reads as, and how many charges there are then.
pub open spec fn answer_line(counter: u64, reading: Option<Tree>) -> (u64, Option<Seq<char>>) {
    match reading {
        None => (counter, None),
        Some(msg) => (
            demo_reply(counter, msg).0,
            match demo_reply(counter, msg).1 {
                Some(reply) => Some(json_text(canon(reply))),
                None => None,
            },
        ),
    }
}

/// What the line reads as: white space around it does not count, and a blank
/// line is no message.
pub open spec fn line_reading(line: Seq<char>) -> Option<Tree> {
    if trimmed(line).len() == 0 {
        None
    } else {
        match json_reading(trimmed(line)) {
            Ok(msg) => Some(msg),
            Err(_) => None,
        }
    }
}

/// The line that the server writes for what it has read, if it writes one: a
/// line that is no JSON gets none.
pub fn answer(counter: &mut u64, reading: &Option<Json>) -> (line: Option<String>)
    requires
        match *reading {
            Some(msg) => method_of(msg@) == "tools/call"@ ==> *old(counter) < u64::MAX,
            None => true,
        },
    ensures
        ({
            let expected = answer_line(
                *old(counter),
                match *reading {
                    Some(json) => Some(json@),
                    None => None,
                },
            );
            &&& *final(counter) == expected.0
            &&& match line {
                Some(text) => expected.1 == Some(text@),
                None => expected.1 is None,
            }
        }),
{
    match reading {
        Some(msg) => match reply(counter, msg) {
            Some(json) => Some(json.canonicalize().to_text()),
            None => None,
        },
        None => None,
    }
}

/// Serves one line of input: the line to write back, if there is one. It holds
/// no line break, so that one line is answered by one line.
pub fn serve_line(counter: &mut u64, line: &str) -> (written: Option<String>)
    requires
        *old(counter) < u64::MAX,
    ensures
        *final(counter) == answer_line(*old(counter), line_reading(line@)).0,
        match written {
            Some(text) => answer_line(*old(counter), line_reading(line@)).1 == Some(text@),
            None => answer_line(*old(counter), line_reading(line@)).1 is None,
        },
        written is Some ==> one_line(written->Some_0@),
{
    let line: &str = trim(line);
    if line.unicode_len() == 0 {
        return None;
    }
    let reading: Option<Json> = match read_json(line) {
        Ok(msg) => Some(msg),
        Err(_) => None,
    };
    proof {
        if reading is Some {
            lemma_answer_is_one_line(*counter, reading->Some_0@);
        }
    }
    answer(counter, &reading)
}

/// The command line of the probe that the demonstration runs against `child`.
pub open spec fn demo_args(child: Seq<Seq<char>>) -> Seq<Seq<char>> {
    seq![
        "--tool"@,
        "charge_card"@,
        "--args"@,
        "{\"amount\":4900}"@,
        "--calls"@,
        "12"@,
        "--"@,
    ] + child
}

/// The words that start the built-in server.
pub open spec fn server_words(exe: Seq<char>) -> Seq<Seq<char>> {
    seq![exe, "__demo-server"@]
}

/// The words that start the built-in server behind the fence.
pub open spec fn fenced_words(exe: Seq<char>) -> Seq<Seq<char>> {
    seq![exe, "wrap"@, "--"@, exe, "__demo-server"@]
}

/// The command line of the probe that the demonstration runs against `child`.
pub fn probe_args(child: &Vec<String>) -> (args: Vec<String>)
    ensures
        texts(args@) == seq![
            "--tool"@,
            "charge_card"@,
            "--args"@,
            "{\"amount\":4900}"@,
            "--calls"@,
            "12"@,
            "--"@,
        ] + texts(child@),        texts(args@) == demo_args(texts(child@)),
{
    let mut args: Vec<String> = Vec::new();
    args.push("--tool".to_owned());
    args.push("charge_card".to_owned());
    args.push("--args".to_owned());
    args.push("{\"amount\":4900}".to_owned());
    args.push("--calls".to_owned());
    args.push("12".to_owned());
    args.push("--".to_owned());
    let ghost flags = texts(args@);
    let mut i: usize = 0;
    while i < child.len()
        invariant
            i <= child@.len(),
            flags.len() == 7,
            args@.len() == 7 + i,
            forall|j: int| 0 <= j < 7 ==> (#[trigger] args@[j])@ == flags[j],
            forall|j: int| 0 <= j < i ==> #[trigger] args@[7 + j]@ == child@[j]@,
        decreases child@.len() - i,
    {
        args.push(child[i].clone());
        i = i + 1;
    }
    proof {
        let target = flags + texts(child@);
        assert forall|j: int| 0 <= j < target.len() implies texts(args@)[j] == target[j] by {
            if j < 7 {
                assert(args@[j]@ == flags[j]);
            } else {
                assert(args@[7 + (j - 7)]@ == child@[j - 7]@);
            }
        }
        assert(texts(args@) =~= target);
        assert(flags =~= seq![
            "--tool"@,
            "charge_card"@,
            "--args"@,
            "{\"amount\":4900}"@,
            "--calls"@,
            "12"@,
            "--"@,
        ]);
    }
    args
}

/// The command that starts the built-in server.
pub fn raw_command(exe: &str) -> (command: Vec<String>)
    ensures
        texts(command@) == seq![exe@, "__demo-server"@],
        texts(command@) == server_words(exe@),
{
    let mut command: Vec<String> = Vec::new();
    command.push(exe.to_owned());
    command.push("__demo-server".to_owned());
    assert(texts(command@) =~= seq![exe@, "__demo-server"@]);
    command
}

/// The command that starts the built-in server behind the fence.
pub fn fenced_command(exe: &str) -> (command: Vec<String>)
    ensures
        texts(command@) == seq![exe@, "wrap"@, "--"@, exe@, "__demo-server"@],
        texts(command@) == fenced_words(exe@),
{
    let mut command: Vec<String> = Vec::new();
    command.push(exe.to_owned());
    command.push("wrap".to_owned());
    command.push("--".to_owned());
    command.push(exe.to_owned());
    command.push("__demo-server".to_owned());
    assert(texts(command@) =~= seq![exe@, "wrap"@, "--"@, exe@, "__demo-server"@]);
    command
}

} // verus!
