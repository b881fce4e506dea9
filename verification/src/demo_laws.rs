//! What holds of the demonstration.

use vstd::prelude::*;
use crate::cli::{command_of, without_dashes, CommandModel};
use crate::demo::{answer_line, charge_result, charge_text, charge_tool, demo_args, demo_reply,
    fenced_words, greeting, id_of,
    line_reading, method_of, object1, object2, object3, protocol_of, server_words};
use crate::json::{canon, json_reading, json_text, member, Tree};
use crate::json_laws::{compact_text_is_one_line, has_key, is_last, is_number, items_well_formed,
    lemma_canon_well_formed,
    lemma_last_members, lemma_member_well_formed, lemma_members_well_formed, one_line, same_value,
    well_formed};
use crate::probe::{fingerprint_of, no_flags, payload, read_flags, settings_of, FlagsModel,
    ProbeErrorModel, ToolResult};
use crate::probe_laws::{fingerprint_identifies_the_payload, result_wf};
use crate::strmap::last_members;
use crate::text::{count_of, first_mistake, is_digit, lemma_padded_injective, padded, trimmed,
    value, CountError};
use crate::value_laws::lemma_distinct_members;

verus! {

/// Every call of the tool is one more charge, and no other message is.
pub proof fn every_call_is_a_charge(counter: u64, msg: Tree)
    requires
        counter < u64::MAX,
    ensures
        demo_reply(counter, msg).0 == counter + (if method_of(msg) == "tools/call"@ {
            1int
        } else {
            0int
        }),
{
    reveal_strlit("initialize");
    reveal_strlit("notifications/initialized");
    reveal_strlit("tools/list");
    reveal_strlit("tools/call");
    assert("tools/call"@.len() == 10);
    assert("tools/list"@.len() == 10);
    assert("initialize"@.len() == 10);
    assert("notifications/initialized"@.len() == 25);
    assert("tools/call"@[6] == 'c');
    assert("tools/list"@[6] == 'l');
    assert("initialize"@[0] == 'i');
    assert("tools/call"@[0] == 't');
}

/// Whether the server knows a method.
pub open spec fn is_known(method: Seq<char>) -> bool {
    ||| method == "initialize"@
    ||| method == "notifications/initialized"@
    ||| method == "tools/list"@
    ||| method == "tools/call"@
}

/// Whether the server has nothing to say to a line: it is blank or no JSON, it
/// is the notice that the client is ready, or it asks for something unknown and
/// has no id to answer under.
pub open spec fn is_passed_over(line: Seq<char>) -> bool {
    match line_reading(line) {
        None => true,
        Some(msg) => {
            ||| method_of(msg) == "notifications/initialized"@
            ||| !is_known(method_of(msg)) && member(msg, "id"@) is None
        },
    }
}

/// The code of the error that a reply carries, if it carries one.
pub open spec fn error_code(reply: Tree) -> Option<Tree> {
    match member(reply, "error"@) {
        Some(error) => member(error, "code"@),
        None => None,
    }
}

/// Whether `reply` is a reply to `msg`: it has the id of the message, `null`
/// where that has none. It has an error where the method is unknown, and a
/// result where it is known, not both.
pub open spec fn is_reply_to(reply: Tree, msg: Tree) -> bool {
    &&& member(reply, "jsonrpc"@) == Some(Tree::String("2.0"@))
    &&& member(reply, "id"@) == Some(id_of(msg))
    &&& member(reply, "result"@) is Some <==> is_known(method_of(msg))
    &&& error_code(reply) == if is_known(method_of(msg)) {
        None
    } else {
        Some(Tree::Number("-32601"@))
    }
}

/// Whether what is written is the text of a reply to the message on a line.
pub open spec fn answers(written: Option<Seq<char>>, line: Seq<char>) -> bool {
    exists|reply: Tree| #[trigger]
        is_reply_to(reply, line_reading(line)->Some_0) && written == Some(json_text(canon(reply)))
}

/// What the server writes for each of the lines, one after the other.
pub open spec fn transcript(counter: u64, lines: Seq<Seq<char>>) -> Seq<Option<Seq<char>>>
    decreases lines.len(),
{
    if lines.len() == 0 {
        Seq::empty()
    } else {
        let (next, written) = answer_line(counter, line_reading(lines[0]));
        seq![written] + transcript(next, lines.drop_first())
    }
}

proof fn lemma_three_members(
    k1: Seq<char>,
    v1: Tree,
    k2: Seq<char>,
    v2: Tree,
    k3: Seq<char>,
    v3: Tree,
)
    requires
        k1 != k2,
        k1 != k3,
        k2 != k3,
    ensures
        member(object3(k1, v1, k2, v2, k3, v3), k1) == Some(v1),
        member(object3(k1, v1, k2, v2, k3, v3), k2) == Some(v2),
        member(object3(k1, v1, k2, v2, k3, v3), k3) == Some(v3),
        forall|k: Seq<char>|
            k != k1 && k != k2 && k != k3 ==> (#[trigger] member(
                object3(k1, v1, k2, v2, k3, v3),
                k,
            )) is None,
{
    let members = object3(k1, v1, k2, v2, k3, v3)->Object_0;
    lemma_last_members(members);
    assert(members.len() == 3);
    assert(members[0].0 == k1 && members[1].0 == k2 && members[2].0 == k3);
    assert(is_last(members, 0));
    assert(is_last(members, 1));
    assert(is_last(members, 2));
    assert(has_key(members, k1) && has_key(members, k2) && has_key(members, k3));
    assert(last_members(members).contains_key(k1));
    assert(last_members(members).contains_key(k2));
    assert(last_members(members).contains_key(k3));
}

proof fn lemma_error_code(text: Seq<char>)
    ensures
        member(
            object2("code"@, Tree::Number("-32601"@), "message"@, Tree::String(text)),
            "code"@,
        ) == Some(Tree::Number("-32601"@)),
{
    reveal_strlit("code");
    reveal_strlit("message");
    assert("code"@.len() == 4 && "message"@.len() == 7);
    let members = object2("code"@, Tree::Number("-32601"@), "message"@, Tree::String(text))->Object_0;
    lemma_last_members(members);
    assert(members[0].0.len() == 4 && members[1].0.len() == 7);
    assert(is_last(members, 0));
    assert(has_key(members, "code"@));
    assert(last_members(members).contains_key("code"@));
}

/// A message gets a reply to it, and only the notice that the client is ready and
/// an unknown request without an id get none.
pub proof fn replies_belong_to_their_messages(counter: u64, msg: Tree)
    ensures
        demo_reply(counter, msg).1 is None <==> method_of(msg) == "notifications/initialized"@ || (
        !is_known(method_of(msg)) && member(msg, "id"@) is None),
        demo_reply(counter, msg).1 is Some ==> is_reply_to(
            demo_reply(counter, msg).1->Some_0,
            msg,
        ),
{
    reveal_strlit("initialize");
    reveal_strlit("notifications/initialized");
    reveal_strlit("jsonrpc");
    reveal_strlit("id");
    reveal_strlit("result");
    reveal_strlit("error");
    assert("initialize"@.len() == 10 && "notifications/initialized"@.len() == 25);
    assert("jsonrpc"@.len() == 7 && "id"@.len() == 2 && "result"@.len() == 6 && "error"@.len() == 5);
    if demo_reply(counter, msg).1 is Some {
        let reply = demo_reply(counter, msg).1->Some_0;
        let last = reply->Object_0[2];
        lemma_three_members(
            "jsonrpc"@,
            Tree::String("2.0"@),
            "id"@,
            id_of(msg),
            last.0,
            last.1,
        );
        lemma_error_code("method not found"@);
        assert(reply == object3(
            "jsonrpc"@,
            Tree::String("2.0"@),
            "id"@,
            id_of(msg),
            last.0,
            last.1,
        ));
    }
}

/// The server answers line by line, in order. Whatever the lines are, those that
/// are passed over get no answer, and every other gets one line that is the text
/// of a reply to the message on it.
pub proof fn every_line_is_answered(counter: u64, lines: Seq<Seq<char>>)
    requires
        counter + lines.len() <= u64::MAX,
    ensures
        transcript(counter, lines).len() == lines.len(),
        forall|i: int|
            0 <= i < lines.len() ==> ((#[trigger] transcript(counter, lines)[i]) is None
                <==> is_passed_over(lines[i])),
        forall|i: int|
            0 <= i < lines.len() && !is_passed_over(lines[i]) ==> answers(
                #[trigger] transcript(counter, lines)[i],
                lines[i],
            ),
    decreases lines.len(),
{
    if lines.len() > 0 {
        let (next, written) = answer_line(counter, line_reading(lines[0]));
        let rest = lines.drop_first();
        let all = transcript(counter, lines);
        if line_reading(lines[0]) is Some {
            let msg = line_reading(lines[0])->Some_0;
            every_call_is_a_charge(counter, msg);
            replies_belong_to_their_messages(counter, msg);
            if written is Some {
                let reply = demo_reply(counter, msg).1->Some_0;
                assert(is_reply_to(reply, msg) && written == Some(json_text(canon(reply))));
                assert(answers(written, lines[0]));
            }
        }
        every_line_is_answered(next, rest);
        assert(all[0] == written);
        assert forall|i: int| 0 <= i < lines.len() implies ((#[trigger] all[i]) is None
            <==> is_passed_over(lines[i])) by {
            if i > 0 {
                assert(all[i] == transcript(next, rest)[i - 1]);
                assert(rest[i - 1] == lines[i]);
            }
        }
        assert forall|i: int| 0 <= i < lines.len() && !is_passed_over(lines[i]) implies answers(
            #[trigger] all[i],
            lines[i],
        ) by {
            if i > 0 {
                assert(all[i] == transcript(next, rest)[i - 1]);
                assert(rest[i - 1] == lines[i]);
            }
        }
    }
}

proof fn lemma_object1_well_formed(key: Seq<char>, value: Tree)
    requires
        well_formed(value),
    ensures
        well_formed(object1(key, value)),
{
    lemma_members_well_formed(object1(key, value)->Object_0);
}

proof fn lemma_object2_well_formed(k1: Seq<char>, v1: Tree, k2: Seq<char>, v2: Tree)
    requires
        well_formed(v1),
        well_formed(v2),
    ensures
        well_formed(object2(k1, v1, k2, v2)),
{
    lemma_members_well_formed(object2(k1, v1, k2, v2)->Object_0);
}

proof fn lemma_object3_well_formed(
    k1: Seq<char>,
    v1: Tree,
    k2: Seq<char>,
    v2: Tree,
    k3: Seq<char>,
    v3: Tree,
)
    requires
        well_formed(v1),
        well_formed(v2),
        well_formed(v3),
    ensures
        well_formed(object3(k1, v1, k2, v2, k3, v3)),
{
    lemma_members_well_formed(object3(k1, v1, k2, v2, k3, v3)->Object_0);
}

proof fn lemma_single_well_formed(item: Tree)
    requires
        well_formed(item),
    ensures
        well_formed(Tree::Array(seq![item])),
{
    let items = seq![item];
    assert(items.drop_first() =~= Seq::empty());
    assert(items_well_formed(items.drop_first()));
    assert(items_well_formed(items));
}

proof fn lemma_greeting_well_formed(msg: Tree)
    ensures
        well_formed(greeting(msg)),
{
    let none = Tree::Object(Seq::empty());
    let name = Tree::String("effectfence-demo"@);
    let number = Tree::String("0.1.7"@);
    lemma_object1_well_formed("tools"@, none);
    lemma_object2_well_formed("name"@, name, "version"@, number);
    lemma_object3_well_formed(
        "protocolVersion"@,
        Tree::String(protocol_of(msg)),
        "capabilities"@,
        object1("tools"@, none),
        "serverInfo"@,
        object2("name"@, name, "version"@, number),
    );
}

proof fn lemma_tool_well_formed()
    ensures
        well_formed(charge_tool()),
{
    let integer = object1("type"@, Tree::String("integer"@));
    let properties = object1("amount"@, integer);
    let schema = object2("type"@, Tree::String("object"@), "properties"@, properties);
    let tool = charge_tool()->Object_0;
    lemma_object1_well_formed("type"@, Tree::String("integer"@));
    lemma_object1_well_formed("amount"@, integer);
    lemma_object2_well_formed("type"@, Tree::String("object"@), "properties"@, properties);
    lemma_object3_well_formed(
        "name"@,
        tool[0].1,
        "description"@,
        tool[1].1,
        "inputSchema"@,
        schema,
    );
}

proof fn lemma_charge_well_formed(counter: u64)
    ensures
        well_formed(charge_result(counter)),
{
    let kind = Tree::String("text"@);
    let text = Tree::String(charge_text(counter));
    lemma_object2_well_formed("type"@, kind, "text"@, text);
    lemma_single_well_formed(object2("type"@, kind, "text"@, text));
    lemma_object2_well_formed(
        "content"@,
        Tree::Array(seq![object2("type"@, kind, "text"@, text)]),
        "isError"@,
        Tree::Bool(false),
    );
}

proof fn lemma_error_well_formed()
    ensures
        well_formed(
            object2(
                "code"@,
                Tree::Number("-32601"@),
                "message"@,
                Tree::String("method not found"@),
            ),
        ),
{
    reveal_strlit("-32601");
    assert(is_number("-32601"@));
    lemma_object2_well_formed(
        "code"@,
        Tree::Number("-32601"@),
        "message"@,
        Tree::String("method not found"@),
    );
}

/// The reply to a well-formed message is well formed.
pub proof fn replies_are_well_formed(counter: u64, msg: Tree)
    requires
        well_formed(msg),
        demo_reply(counter, msg).1 is Some,
    ensures
        well_formed(demo_reply(counter, msg).1->Some_0),
{
    let tools = Tree::Array(seq![charge_tool()]);
    let reply = demo_reply(counter, msg).1->Some_0;
    let last = reply->Object_0[2];
    if member(msg, "id"@) is Some {
        lemma_member_well_formed(msg, "id"@);
    }
    lemma_greeting_well_formed(msg);
    lemma_tool_well_formed();
    lemma_single_well_formed(charge_tool());
    lemma_object1_well_formed("tools"@, tools);
    lemma_charge_well_formed((counter + 1) as u64);
    lemma_error_well_formed();
    lemma_object3_well_formed(
        "jsonrpc"@,
        Tree::String("2.0"@),
        "id"@,
        id_of(msg),
        last.0,
        last.1,
    );
}

/// The text of a reply stays on one line.
pub proof fn lemma_answer_is_one_line(counter: u64, msg: Tree)
    requires
        well_formed(msg),
    ensures
        answer_line(counter, Some(msg)).1 is Some ==> one_line(
            answer_line(counter, Some(msg)).1->Some_0,
        ),
{
    if demo_reply(counter, msg).1 is Some {
        let reply = demo_reply(counter, msg).1->Some_0;
        replies_are_well_formed(counter, msg);
        lemma_canon_well_formed(reply);
        compact_text_is_one_line(canon(reply));
    }
}

/// Different charges have different texts.
pub proof fn charges_are_distinct(a: u64, b: u64)
    requires
        charge_text(a) == charge_text(b),
    ensures
        a == b,
{
    let x = "{\"charge_id\":\"ch_"@;
    let y = "\",\"status\":\"captured\"}"@;
    let p = padded(a as nat, 5);
    let q = padded(b as nat, 5);
    assert(charge_text(a).len() == x.len() + p.len() + y.len());
    assert(charge_text(b).len() == x.len() + q.len() + y.len());
    assert forall|i: int| 0 <= i < p.len() implies p[i] == q[i] by {
        assert(charge_text(a)[x.len() + i] == p[i]);
        assert(charge_text(b)[x.len() + i] == q[i]);
    }
    assert(p =~= q);
    lemma_padded_injective(a as nat, b as nat, 5);
}

/// The content of the result of a charge.
pub open spec fn charge_content(counter: u64) -> Tree {
    Tree::Array(
        seq![
            object2("type"@, Tree::String("text"@), "text"@, Tree::String(charge_text(counter))),
        ],
    )
}

/// The probe sees different charges as different effects.
pub proof fn charges_have_distinct_fingerprints(a: u64, ra: ToolResult, b: u64, rb: ToolResult)
    requires
        a != b,
        ra.content@ == charge_content(a),
        rb.content@ == charge_content(b),
        result_wf(ra),
        result_wf(rb),
    ensures
        fingerprint_of(ra) != fingerprint_of(rb),
        charge_result(a)->Object_0[0].1 == charge_content(a),
{
    if fingerprint_of(ra) == fingerprint_of(rb) {
        fingerprint_identifies_the_payload(ra, rb);
        reveal_strlit("content");
        reveal_strlit("structured");
        reveal_strlit("is_error");
        reveal_strlit("type");
        reveal_strlit("text");
        let p = payload(ra)->Object_0;
        let q = payload(rb)->Object_0;
        assert("content"@.len() == 7 && "structured"@.len() == 10 && "is_error"@.len() == 8);
        assert(p.len() == 3 && q.len() == 3);
        assert(p[1].0.len() == 10 && p[2].0.len() == 8 && q[1].0.len() == 10 && q[2].0.len() == 8);
        assert(is_last(p, 0));
        assert(is_last(q, 0));
        assert(same_value(p[0].1, q[0].1));
        let u = charge_content(a)->Array_0;
        let v = charge_content(b)->Array_0;
        assert(same_value(u[0], v[0]));
        let m = u[0]->Object_0;
        let n = v[0]->Object_0;
        assert(is_last(m, 1));
        assert(is_last(n, 1));
        assert(same_value(m[1].1, n[1].1));
        charges_are_distinct(a, b);
    }
}

proof fn lemma_twelve()
    ensures
        count_of("12"@) == Ok::<usize, CountError>(12usize),
{
    reveal_strlit("12");
    let s = "12"@;
    assert(s.len() == 2 && s[0] == '1' && s[1] == '2');
    assert(is_digit(s[0]) && is_digit(s[1]));
    let t = s.drop_last();
    assert(t.drop_last() =~= Seq::<char>::empty());
    assert(value(t.drop_last()) == 0);
    assert(value(t) == 1);
    assert(value(s) == 12);
    assert(first_mistake(t.drop_last()) is None);
    assert(first_mistake(t) is None);
    assert(first_mistake(s) is None);
}

/// The command line that the demonstration hands to the probe is accepted, and
/// asks for twelve calls of the tool against the given command.
pub proof fn demonstration_is_a_valid_probe(child: Seq<Seq<char>>)
    requires
        child.len() > 0,
    ensures
        settings_of(
            seq![
                "--tool"@,
                "charge_card"@,
                "--args"@,
                "{\"amount\":4900}"@,
                "--calls"@,
                "12"@,
                "--"@,
            ] + child,
        ) == Ok::<FlagsModel, ProbeErrorModel>(
            FlagsModel {
                tool: Some("charge_card"@),
                args: Some("{\"amount\":4900}"@),
                calls: 12,
                child,
            },
        ),
{
    reveal_strlit("--tool");
    reveal_strlit("--args");
    reveal_strlit("--calls");
    reveal_strlit("--");
    assert("--tool"@.len() == 6 && "--args"@.len() == 6 && "--calls"@.len() == 7 && "--"@.len() == 2);
    assert("--tool"@[2] == 't' && "--args"@[2] == 'a');
    lemma_twelve();
    let raw = seq![
        "--tool"@,
        "charge_card"@,
        "--args"@,
        "{\"amount\":4900}"@,
        "--calls"@,
        "12"@,
        "--"@,
    ] + child;
    let f0 = no_flags();
    let f1 = FlagsModel { tool: Some("charge_card"@), ..f0 };
    let f2 = FlagsModel { args: Some("{\"amount\":4900}"@), ..f1 };
    let f3 = FlagsModel { calls: 12, ..f2 };
    let r1 = raw.skip(2);
    let r2 = r1.skip(2);
    let r3 = r2.skip(2);
    assert(r1[0] == raw[2] && r1[1] == raw[3]);
    assert(r2[0] == raw[4] && r2[1] == raw[5]);
    assert(r3[0] == raw[6]);
    assert(read_flags(raw, f0) == read_flags(r1, f1));
    assert(read_flags(r1, f1) == read_flags(r2, f2));
    assert(read_flags(r2, f2) == read_flags(r3, f3));
    assert(r3.skip(1) =~= child);
}

/// The two commands that the demonstration probes start the built-in server,
/// and the fence in front of it.
pub proof fn demonstration_starts_its_own_server(exe: Seq<char>)
    requires
        exe != "--"@,
    ensures
        command_of(seq![exe, "__demo-server"@]) == CommandModel::DemoServer,
        command_of(seq![exe, "wrap"@, "--"@, exe, "__demo-server"@]) == CommandModel::Wrap(
            seq![exe, "__demo-server"@],
        ),
{
    reveal_strlit("wrap");
    reveal_strlit("probe");
    reveal_strlit("demo");
    reveal_strlit("__demo-server");
    assert("__demo-server"@.len() == 13 && "wrap"@.len() == 4 && "probe"@.len() == 5 && "demo"@.len()
        == 4);
    let rest = seq![exe, "wrap"@, "--"@, exe, "__demo-server"@].skip(2);
    assert(rest =~= seq!["--"@, exe, "__demo-server"@]);
    assert(rest.drop_first() =~= seq![exe, "__demo-server"@]);
    assert(without_dashes(rest) == without_dashes(rest.drop_first()));
    assert(without_dashes(rest.drop_first()) == rest.drop_first());
}

proof fn lemma_two_members(k1: Seq<char>, v1: Tree, k2: Seq<char>, v2: Tree)
    requires
        k1 != k2,
    ensures
        member(object2(k1, v1, k2, v2), k1) == Some(v1),
        member(object2(k1, v1, k2, v2), k2) == Some(v2),
{
    let members = object2(k1, v1, k2, v2)->Object_0;
    assert(members[0].0 == k1 && members[1].0 == k2);
    lemma_distinct_members(members);
}

proof fn lemma_one_member(key: Seq<char>, value: Tree)
    ensures
        member(object1(key, value), key) == Some(value),
{
    let members = object1(key, value)->Object_0;
    assert(members[0].0 == key);
    lemma_distinct_members(members);
}

/// What a message says is read from its members: the method where it is a string,
/// the id where there is one, and the version of the protocol where the parameters
/// give one as a string.
pub proof fn messages_are_read_by_their_members(msg: Tree)
    ensures
        member(msg, "method"@) matches Some(Tree::String(method)) ==> method_of(msg) == method,
        !(member(msg, "method"@) is Some && member(msg, "method"@)->Some_0 is String) ==> method_of(
            msg,
        ) == ""@,
        member(msg, "id"@) is Some ==> id_of(msg) == member(msg, "id"@)->Some_0,
        member(msg, "id"@) is None ==> id_of(msg) is Null,
        (member(msg, "params"@) matches Some(params) && (member(
            params,
            "protocolVersion"@,
        ) matches Some(Tree::String(version)) && protocol_of(msg) == version)) || (!(member(
            msg,
            "params"@,
        ) matches Some(params) && (member(params, "protocolVersion"@) matches Some(v) && v is String))
            && protocol_of(msg) == "2025-06-18"@),
{
}

/// A charge is replied with its own number: one more than the charges before it.
pub proof fn charges_are_replied_with_their_number(counter: u64, msg: Tree)
    requires
        method_of(msg) == "tools/call"@,
        counter < u64::MAX,
    ensures
        ({
            let result = member(demo_reply(counter, msg).1->Some_0, "result"@)->Some_0;
            let content = member(result, "content"@)->Some_0;
            let item = content->Array_0[0];
            &&& demo_reply(counter, msg).0 == counter + 1
            &&& demo_reply(counter, msg).1 is Some
            &&& member(demo_reply(counter, msg).1->Some_0, "result"@) is Some
            &&& member(result, "isError"@) == Some(Tree::Bool(false))
            &&& member(result, "content"@) is Some
            &&& content is Array
            &&& content->Array_0.len() == 1
            &&& member(item, "type"@) == Some(Tree::String("text"@))
            &&& member(item, "text"@) == Some(
                Tree::String(
                    "{\"charge_id\":\"ch_"@ + padded((counter + 1) as nat, 5)
                        + "\",\"status\":\"captured\"}"@,
                ),
            )
        }),
{
    every_call_is_a_charge(counter, msg);
    lemma_method_names();
    reveal_strlit("jsonrpc");
    reveal_strlit("id");
    reveal_strlit("result");
    reveal_strlit("content");
    reveal_strlit("isError");
    reveal_strlit("type");
    reveal_strlit("text");
    assert("jsonrpc"@.len() == 7 && "id"@.len() == 2 && "result"@.len() == 6);
    assert("content"@[0] == 'c' && "isError"@[0] == 'i');
    assert("type"@[1] == 'y' && "text"@[1] == 'e');
    let next = (counter + 1) as u64;
    let result = charge_result(next);
    let item = object2("type"@, Tree::String("text"@), "text"@, Tree::String(charge_text(next)));
    lemma_three_members("jsonrpc"@, Tree::String("2.0"@), "id"@, id_of(msg), "result"@, result);
    lemma_two_members("content"@, Tree::Array(seq![item]), "isError"@, Tree::Bool(false));
    lemma_two_members("type"@, Tree::String("text"@), "text"@, Tree::String(charge_text(next)));
    assert(seq![item][0] == item);
}

proof fn lemma_method_names()
    ensures
        "tools/call"@ != "initialize"@,
        "tools/call"@ != "notifications/initialized"@,
        "tools/call"@ != "tools/list"@,
        "tools/list"@ != "initialize"@,
        "tools/list"@ != "notifications/initialized"@,
        "initialize"@ != "notifications/initialized"@,
{
    reveal_strlit("initialize");
    reveal_strlit("notifications/initialized");
    reveal_strlit("tools/list");
    reveal_strlit("tools/call");
    assert("tools/call"@.len() == 10 && "tools/list"@.len() == 10 && "initialize"@.len() == 10);
    assert("notifications/initialized"@.len() == 25);
    assert("tools/call"@[6] == 'c' && "tools/list"@[6] == 'l');
    assert("initialize"@[0] == 'i' && "tools/call"@[0] == 't' && "tools/list"@[0] == 't');
}

/// A greeting names the version of the protocol that was asked for, and the server.
pub proof fn greetings_name_the_version_asked_for(counter: u64, msg: Tree)
    requires
        method_of(msg) == "initialize"@,
    ensures
        ({
            let result = member(demo_reply(counter, msg).1->Some_0, "result"@)->Some_0;
            let server = member(result, "serverInfo"@)->Some_0;
            &&& demo_reply(counter, msg).0 == counter
            &&& demo_reply(counter, msg).1 is Some
            &&& member(demo_reply(counter, msg).1->Some_0, "result"@) is Some
            &&& member(result, "protocolVersion"@) == Some(Tree::String(protocol_of(msg)))
            &&& member(result, "capabilities"@) is Some
            &&& member(member(result, "capabilities"@)->Some_0, "tools"@) is Some
            &&& member(result, "serverInfo"@) is Some
            &&& member(server, "name"@) == Some(Tree::String("effectfence-demo"@))
            &&& member(server, "version"@) == Some(Tree::String("0.1.7"@))
        }),
{
    reveal_strlit("jsonrpc");
    reveal_strlit("id");
    reveal_strlit("result");
    reveal_strlit("protocolVersion");
    reveal_strlit("capabilities");
    reveal_strlit("serverInfo");
    reveal_strlit("name");
    reveal_strlit("version");
    assert("jsonrpc"@.len() == 7 && "id"@.len() == 2 && "result"@.len() == 6);
    assert("protocolVersion"@.len() == 15 && "capabilities"@.len() == 12 && "serverInfo"@.len()
        == 10);
    assert("name"@.len() == 4 && "version"@.len() == 7);
    let none = Tree::Object(Seq::empty());
    let name = Tree::String("effectfence-demo"@);
    let number = Tree::String("0.1.7"@);
    lemma_three_members(
        "jsonrpc"@,
        Tree::String("2.0"@),
        "id"@,
        id_of(msg),
        "result"@,
        greeting(msg),
    );
    lemma_three_members(
        "protocolVersion"@,
        Tree::String(protocol_of(msg)),
        "capabilities"@,
        object1("tools"@, none),
        "serverInfo"@,
        object2("name"@, name, "version"@, number),
    );
    lemma_one_member("tools"@, none);
    lemma_two_members("name"@, name, "version"@, number);
}

/// The server lists its one tool, which takes an amount.
pub proof fn the_one_tool_is_listed(counter: u64, msg: Tree)
    requires
        method_of(msg) == "tools/list"@,
    ensures
        ({
            let result = member(demo_reply(counter, msg).1->Some_0, "result"@)->Some_0;
            let tools = member(result, "tools"@)->Some_0;
            let tool = tools->Array_0[0];
            let schema = member(tool, "inputSchema"@)->Some_0;
            &&& demo_reply(counter, msg).0 == counter
            &&& demo_reply(counter, msg).1 is Some
            &&& member(demo_reply(counter, msg).1->Some_0, "result"@) is Some
            &&& member(result, "tools"@) is Some
            &&& tools is Array
            &&& tools->Array_0.len() == 1
            &&& member(tool, "name"@) == Some(Tree::String("charge_card"@))
            &&& member(tool, "inputSchema"@) is Some
            &&& member(schema, "type"@) == Some(Tree::String("object"@))
            &&& member(schema, "properties"@) is Some
            &&& member(member(schema, "properties"@)->Some_0, "amount"@) is Some
        }),
{
    lemma_method_names();
    reveal_strlit("jsonrpc");
    reveal_strlit("id");
    reveal_strlit("result");
    reveal_strlit("name");
    reveal_strlit("description");
    reveal_strlit("inputSchema");
    reveal_strlit("type");
    reveal_strlit("properties");
    assert("jsonrpc"@.len() == 7 && "id"@.len() == 2 && "result"@.len() == 6);
    assert("name"@.len() == 4 && "description"@.len() == 11 && "inputSchema"@.len() == 11);
    assert("description"@[0] == 'd' && "inputSchema"@[0] == 'i');
    assert("type"@.len() == 4 && "properties"@.len() == 10);
    let tool = charge_tool();
    let tools = Tree::Array(seq![tool]);
    let amount = object1("type"@, Tree::String("integer"@));
    lemma_three_members(
        "jsonrpc"@,
        Tree::String("2.0"@),
        "id"@,
        id_of(msg),
        "result"@,
        object1("tools"@, tools),
    );
    lemma_one_member("tools"@, tools);
    assert(seq![tool][0] == tool);
    let parts = tool->Object_0;
    lemma_three_members(
        "name"@,
        parts[0].1,
        "description"@,
        parts[1].1,
        "inputSchema"@,
        parts[2].1,
    );
    assert(tool == object3(
        "name"@,
        parts[0].1,
        "description"@,
        parts[1].1,
        "inputSchema"@,
        parts[2].1,
    ));
    lemma_two_members(
        "type"@,
        Tree::String("object"@),
        "properties"@,
        object1("amount"@, amount),
    );
    lemma_one_member("amount"@, amount);
}

/// A line is read without the white space around it, and a blank one is no message.
pub proof fn lines_are_read_without_white_space(line: Seq<char>)
    ensures
        trimmed(line).len() == 0 ==> line_reading(line) is None,
        trimmed(line).len() > 0 ==> line_reading(line) == match json_reading(trimmed(line)) {
            Ok(msg) => Some(msg),
            Err(_) => None,
        },
{
}

/// A line counts as one charge exactly if it is read as a call of the tool, and as
/// none otherwise.
pub proof fn lines_count_their_charges(counter: u64, reading: Option<Tree>)
    requires
        counter < u64::MAX,
    ensures
        answer_line(counter, reading).0 == counter + (if reading is Some && method_of(
            reading->Some_0,
        ) == "tools/call"@ {
            1int
        } else {
            0int
        }),
        reading is None ==> answer_line(counter, reading).1 is None,
{
    if reading is Some {
        every_call_is_a_charge(counter, reading->Some_0);
    }
}

/// The demonstration probes the one tool of its own server, twelve times, first
/// without and then with the fence before it.
pub proof fn demonstration_probes_its_own_server(exe: Seq<char>)
    requires
        exe != "--"@,
    ensures
        settings_of(demo_args(server_words(exe))) is Ok,
        settings_of(demo_args(fenced_words(exe))) is Ok,
        ({
            let raw = settings_of(demo_args(server_words(exe)))->Ok_0;
            let fenced = settings_of(demo_args(fenced_words(exe)))->Ok_0;
            &&& raw.tool == Some("charge_card"@) && fenced.tool == raw.tool
            &&& raw.args == Some("{\"amount\":4900}"@) && fenced.args == raw.args
            &&& raw.calls == 12 && fenced.calls == 12
            &&& command_of(raw.child) is DemoServer
            &&& command_of(fenced.child) == CommandModel::Wrap(raw.child)
            &&& raw.child.len() == 2 && raw.child[0] == exe && fenced.child[0] == exe
        }),
{
    demonstration_is_a_valid_probe(server_words(exe));
    demonstration_is_a_valid_probe(fenced_words(exe));
    demonstration_starts_its_own_server(exe);
}

} // verus!
