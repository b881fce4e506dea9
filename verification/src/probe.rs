//! Probe mode: does a tool server fire twice when it is called twice?
//!
//! The probe fires a number of identical calls at one tool at the same time and
//! counts how many different results come back. Different results to identical
//! calls prove that the action ran more than once. Identical results prove
//! nothing, and the report says so.

use vstd::prelude::*;
use vstd::string::*;
use crate::json::{canon, json_reading, json_text, lemma_member_trees, member_trees, read_json, Json,
    Tree};
use crate::json_laws::well_formed;
use crate::order::same_text;
use crate::strmap::StrMap;
use crate::text::{append_decimal, count_error_text, count_of, decimal, join, joined_text, parse_count,
    texts, texts_from, CountError};

verus! {

/// A parsed `probe` command line.
#[derive(Debug, PartialEq, Eq)]
pub struct ProbeArgs {
    pub tool: String,
    /// The arguments of the calls.
    pub args: Json,
    /// How many calls are fired.
    pub calls: usize,
    /// The command that starts the server.
    pub child_cmd: Vec<String>,
}

/// A `probe` command line of which the arguments of the calls have not been
/// read yet.
#[derive(Debug, PartialEq, Eq)]
pub struct ProbeSettings {
    pub tool: String,
    pub args_json: Option<String>,
    pub calls: usize,
    pub child_cmd: Vec<String>,
}

/// What is wrong with a `probe` command line.
#[derive(Debug, PartialEq, Eq)]
pub enum ProbeError {
    /// `--tool` stands last.
    ToolNeedsValue,
    /// `--args` stands last.
    ArgsNeedsValue,
    /// `--calls` stands last.
    CallsNeedsValue,
    /// What follows `--calls` is no number, and why.
    CallsNotANumber(CountError),
    /// Something that is no flag.
    Unexpected(String),
    /// There is no `--tool`.
    ToolRequired,
    /// No calls are to be fired.
    ZeroCalls,
    /// No command follows `--`.
    NoCommand,
    /// What follows `--args` is no JSON, and why.
    ArgsNotJson(String),
}

/// What is wrong with a command line.
#[verifier::ext_equal]
pub enum ProbeErrorModel {
    ToolNeedsValue,
    ArgsNeedsValue,
    CallsNeedsValue,
    CallsNotANumber(CountError),
    Unexpected(Seq<char>),
    ToolRequired,
    ZeroCalls,
    NoCommand,
    ArgsNotJson(Seq<char>),
}

/// What the flags of a command line say.
#[verifier::ext_equal]
pub struct FlagsModel {
    pub tool: Option<Seq<char>>,
    pub args: Option<Seq<char>>,
    pub calls: usize,
    pub child: Seq<Seq<char>>,
}

/// What a parsed command line stands for.
#[verifier::ext_equal]
pub struct ProbeModel {
    pub tool: Seq<char>,
    pub args: Tree,
    pub calls: usize,
    pub child: Seq<Seq<char>>,
}

impl View for ProbeError {
    type V = ProbeErrorModel;

    open spec fn view(&self) -> ProbeErrorModel {
        match self {
            ProbeError::ToolNeedsValue => ProbeErrorModel::ToolNeedsValue,
            ProbeError::ArgsNeedsValue => ProbeErrorModel::ArgsNeedsValue,
            ProbeError::CallsNeedsValue => ProbeErrorModel::CallsNeedsValue,
            ProbeError::CallsNotANumber(cause) => ProbeErrorModel::CallsNotANumber(*cause),
            ProbeError::Unexpected(arg) => ProbeErrorModel::Unexpected(arg@),
            ProbeError::ToolRequired => ProbeErrorModel::ToolRequired,
            ProbeError::ZeroCalls => ProbeErrorModel::ZeroCalls,
            ProbeError::NoCommand => ProbeErrorModel::NoCommand,
            ProbeError::ArgsNotJson(cause) => ProbeErrorModel::ArgsNotJson(cause@),
        }
    }
}

impl View for ProbeArgs {
    type V = ProbeModel;

    open spec fn view(&self) -> ProbeModel {
        ProbeModel {
            tool: self.tool@,
            args: self.args@,
            calls: self.calls,
            child: texts(self.child_cmd@),
        }
    }
}

impl View for ProbeSettings {
    type V = FlagsModel;

    open spec fn view(&self) -> FlagsModel {
        FlagsModel {
            tool: Some(self.tool@),
            args: match self.args_json {
                Some(text) => Some(text@),
                None => None,
            },
            calls: self.calls,
            child: texts(self.child_cmd@),
        }
    }
}

/// What a command line says that says nothing.
pub open spec fn no_flags() -> FlagsModel {
    FlagsModel { tool: None, args: None, calls: 12, child: Seq::empty() }
}

/// What a command line says, read from left to right up to `--`, given what was
/// said before it. A flag that is repeated counts where it stands last.
pub open spec fn read_flags(raw: Seq<Seq<char>>, said: FlagsModel) -> Result<
    FlagsModel,
    ProbeErrorModel,
>
    decreases raw.len(),
{
    if raw.len() == 0 {
        Ok(said)
    } else if raw[0] == "--tool"@ {
        if raw.len() < 2 {
            Err(ProbeErrorModel::ToolNeedsValue)
        } else {
            read_flags(raw.skip(2), FlagsModel { tool: Some(raw[1]), ..said })
        }
    } else if raw[0] == "--args"@ {
        if raw.len() < 2 {
            Err(ProbeErrorModel::ArgsNeedsValue)
        } else {
            read_flags(raw.skip(2), FlagsModel { args: Some(raw[1]), ..said })
        }
    } else if raw[0] == "--calls"@ {
        if raw.len() < 2 {
            Err(ProbeErrorModel::CallsNeedsValue)
        } else {
            match count_of(raw[1]) {
                Ok(calls) => read_flags(raw.skip(2), FlagsModel { calls, ..said }),
                Err(cause) => Err(ProbeErrorModel::CallsNotANumber(cause)),
            }
        }
    } else if raw[0] == "--"@ {
        Ok(FlagsModel { child: raw.skip(1), ..said })
    } else {
        Err(ProbeErrorModel::Unexpected(raw[0]))
    }
}

/// The settings of a command line: its flags, if a tool, a number of calls and
/// a command are there.
pub open spec fn settings_of(raw: Seq<Seq<char>>) -> Result<FlagsModel, ProbeErrorModel> {
    match read_flags(raw, no_flags()) {
        Err(error) => Err(error),
        Ok(flags) => if flags.tool is None {
            Err(ProbeErrorModel::ToolRequired)
        } else if flags.calls == 0 {
            Err(ProbeErrorModel::ZeroCalls)
        } else if flags.child.len() == 0 {
            Err(ProbeErrorModel::NoCommand)
        } else {
            Ok(flags)
        },
    }
}

/// The probe that settings ask for, given what their arguments read as. Settings
/// without arguments ask for an empty object.
pub open spec fn probe_of(
    settings: FlagsModel,
    reading: Option<Result<Tree, Seq<char>>>,
) -> Result<ProbeModel, ProbeErrorModel> {
    let args = match reading {
        Some(read) => read,
        None => Ok(Tree::Object(Seq::empty())),
    };
    match args {
        Ok(args) => Ok(
            ProbeModel {
                tool: settings.tool->Some_0,
                args,
                calls: settings.calls,
                child: settings.child,
            },
        ),
        Err(cause) => Err(ProbeErrorModel::ArgsNotJson(cause)),
    }
}

/// What a command line is parsed to.
pub open spec fn parsed(raw: Seq<Seq<char>>) -> Result<ProbeModel, ProbeErrorModel> {
    match settings_of(raw) {
        Err(error) => Err(error),
        Ok(settings) => probe_of(
            settings,
            match settings.args {
                Some(text) => Some(json_reading(text)),
                None => None,
            },
        ),
    }
}

/// How a probe is called.
pub open spec fn usage_text() -> Seq<char> {
    "Usage: effectfence probe --tool <name> [--args '<json>'] [--calls N] -- <command> [args...]"@
}

/// The text of what is wrong with a command line.
pub open spec fn probe_error_text(error: ProbeErrorModel) -> Seq<char> {
    match error {
        ProbeErrorModel::ToolNeedsValue => "--tool needs a value"@,
        ProbeErrorModel::ArgsNeedsValue => "--args needs a JSON value"@,
        ProbeErrorModel::CallsNeedsValue => "--calls needs a number"@,
        ProbeErrorModel::CallsNotANumber(_) => "--calls must be a positive integer"@,
        ProbeErrorModel::Unexpected(arg) => "probe: unexpected argument `"@ + arg + "`. "@
            + usage_text(),
        ProbeErrorModel::ToolRequired => "probe: --tool is required. "@ + usage_text(),
        ProbeErrorModel::ZeroCalls => "probe: --calls must be at least 1"@,
        ProbeErrorModel::NoCommand =>
            "probe: no server command after `--`. Usage: ... -- <command> [args...]"@,
        ProbeErrorModel::ArgsNotJson(_) => "probe: --args is not valid JSON"@,
    }
}

/// The text of what lies behind an error, where something was to be read and could
/// not be.
pub open spec fn probe_error_cause(error: ProbeErrorModel) -> Option<Seq<char>> {
    match error {
        ProbeErrorModel::CallsNotANumber(cause) => Some(count_error_text(cause)),
        ProbeErrorModel::ArgsNotJson(cause) => Some(cause),
        _ => None,
    }
}

impl ProbeError {
    /// What lies behind the error, if it has a cause.
    pub fn cause(&self) -> (text: Option<String>)
        ensures
            match text {
                Some(cause) => probe_error_cause(self@) == Some(cause@),
                None => probe_error_cause(self@) is None,
            },
    {
        match self {
            ProbeError::CallsNotANumber(cause) => Some(cause.message().to_owned()),
            ProbeError::ArgsNotJson(cause) => Some(cause.clone()),
            _ => None,
        }
    }

    /// The text of what is wrong.
    pub fn message(&self) -> (text: String)
        ensures
            text@ == probe_error_text(self@),
    {
        let mut out: String = String::new();
        match self {
            ProbeError::ToolNeedsValue => {
                out.append("--tool needs a value");
            },
            ProbeError::ArgsNeedsValue => {
                out.append("--args needs a JSON value");
            },
            ProbeError::CallsNeedsValue => {
                out.append("--calls needs a number");
            },
            ProbeError::CallsNotANumber(_) => {
                out.append("--calls must be a positive integer");
            },
            ProbeError::Unexpected(arg) => {
                out.append("probe: unexpected argument `");
                out.append(arg.as_str());
                out.append("`. ");
                out.append(
                    "Usage: effectfence probe --tool <name> [--args '<json>'] [--calls N] -- <command> [args...]",
                );
            },
            ProbeError::ToolRequired => {
                out.append("probe: --tool is required. ");
                out.append(
                    "Usage: effectfence probe --tool <name> [--args '<json>'] [--calls N] -- <command> [args...]",
                );
            },
            ProbeError::ZeroCalls => {
                out.append("probe: --calls must be at least 1");
            },
            ProbeError::NoCommand => {
                out.append(
                    "probe: no server command after `--`. Usage: ... -- <command> [args...]",
                );
            },
            ProbeError::ArgsNotJson(_) => {
                out.append("probe: --args is not valid JSON");
            },
        }
        assert(out@ =~= probe_error_text(self@));
        out
    }
}

/// What the answer to parsing settings stands for.
pub open spec fn settings_view(answer: Result<ProbeSettings, ProbeError>) -> Result<
    FlagsModel,
    ProbeErrorModel,
> {
    match answer {
        Ok(settings) => Ok(settings@),
        Err(error) => Err(error@),
    }
}

/// What the answer to parsing stands for.
pub open spec fn parse_view(answer: Result<ProbeArgs, ProbeError>) -> Result<
    ProbeModel,
    ProbeErrorModel,
> {
    match answer {
        Ok(args) => Ok(args@),
        Err(error) => Err(error@),
    }
}

spec fn flags_view(
    tool: Option<String>,
    args: Option<String>,
    calls: usize,
    child: Seq<Seq<char>>,
) -> FlagsModel {
    FlagsModel {
        tool: match tool {
            Some(text) => Some(text@),
            None => None,
        },
        args: match args {
            Some(text) => Some(text@),
            None => None,
        },
        calls,
        child,
    }
}

/// Reads the settings from a command line.
pub fn parse_settings(raw: &Vec<String>) -> (answer: Result<ProbeSettings, ProbeError>)
    ensures
        settings_view(answer) == settings_of(texts(raw@)),
{
    let mut tool: Option<String> = None;
    let mut args_json: Option<String> = None;
    let mut calls: usize = 12;
    let mut child_cmd: Vec<String> = Vec::new();
    let mut i: usize = 0;
    let ghost mut open = true;
    let ghost words = texts(raw@);
    let ghost target = read_flags(words, no_flags());
    assert(words.skip(0) =~= words);
    assert(texts(child_cmd@) =~= Seq::<Seq<char>>::empty());
    while i < raw.len()
        invariant
            words == texts(raw@),
            target == read_flags(words, no_flags()),
            i <= raw@.len(),
            !open ==> i == raw@.len(),
            open ==> texts(child_cmd@) == Seq::<Seq<char>>::empty(),
            open ==> target == read_flags(
                words.skip(i as int),
                flags_view(tool, args_json, calls, texts(child_cmd@)),
            ),
            !open ==> target == Ok::<FlagsModel, ProbeErrorModel>(
                flags_view(tool, args_json, calls, texts(child_cmd@)),
            ),
        decreases raw@.len() - i,
    {
        let ghost here = words.skip(i as int);
        assert(here[0] == raw@[i as int]@);
        if i + 1 < raw.len() {
            assert(here[1] == raw@[i + 1]@);
            assert(here.skip(2) =~= words.skip(i + 2));
        }
        let word: &str = raw[i].as_str();
        if same_text(word, "--tool") {
            if i + 1 >= raw.len() {
                return Err(ProbeError::ToolNeedsValue);
            }
            tool = Some(raw[i + 1].clone());
            i = i + 2;
        } else if same_text(word, "--args") {
            if i + 1 >= raw.len() {
                return Err(ProbeError::ArgsNeedsValue);
            }
            args_json = Some(raw[i + 1].clone());
            i = i + 2;
        } else if same_text(word, "--calls") {
            if i + 1 >= raw.len() {
                return Err(ProbeError::CallsNeedsValue);
            }
            match parse_count(raw[i + 1].as_str()) {
                Ok(n) => {
                    calls = n;
                },
                Err(cause) => {
                    return Err(ProbeError::CallsNotANumber(cause));
                },
            }
            i = i + 2;
        } else if same_text(word, "--") {
            assert(here.skip(1) =~= words.skip(i + 1));
            child_cmd = texts_from(raw, i + 1);
            i = raw.len();
            proof {
                open = false;
            }
        } else {
            return Err(ProbeError::Unexpected(raw[i].clone()));
        }
    }
    assert(target == Ok::<FlagsModel, ProbeErrorModel>(
        flags_view(tool, args_json, calls, texts(child_cmd@)),
    ));
    match tool {
        None => Err(ProbeError::ToolRequired),
        Some(tool) => {
            if calls == 0 {
                Err(ProbeError::ZeroCalls)
            } else if child_cmd.len() == 0 {
                Err(ProbeError::NoCommand)
            } else {
                Ok(ProbeSettings { tool, args_json, calls, child_cmd })
            }
        },
    }
}

/// What the reading of arguments stands for.
pub open spec fn reading_view(reading: Option<Result<Json, String>>) -> Option<
    Result<Tree, Seq<char>>,
> {
    match reading {
        Some(Ok(json)) => Some(Ok(json@)),
        Some(Err(error)) => Some(Err(error@)),
        None => None,
    }
}

/// The probe that `settings` ask for. `reading` is what their arguments read as,
/// if they have some.
pub fn complete(settings: ProbeSettings, reading: Option<Result<Json, String>>) -> (answer: Result<
    ProbeArgs,
    ProbeError,
>)
    ensures
        parse_view(answer) == probe_of(settings@, reading_view(reading)),
{
    let args: Json = match reading {
        None => {
            let members: Vec<(String, Json)> = Vec::new();
            Json::Object(members)
        },
        Some(Ok(json)) => json,
        Some(Err(cause)) => {
            return Err(ProbeError::ArgsNotJson(cause));
        },
    };
    Ok(
        ProbeArgs {
            tool: settings.tool,
            args,
            calls: settings.calls,
            child_cmd: settings.child_cmd,
        },
    )
}

/// Parses a `probe` command line.
pub fn parse(raw: &Vec<String>) -> (answer: Result<ProbeArgs, ProbeError>)
    ensures
        parse_view(answer) == parsed(texts(raw@)),
        answer is Ok ==> well_formed(answer->Ok_0.args@),
{
    assert(well_formed(Tree::Object(Seq::empty())));
    match parse_settings(raw) {
        Err(error) => Err(error),
        Ok(settings) => {
            let reading: Option<Result<Json, String>> = match &settings.args_json {
                Some(text) => Some(read_json(text.as_str())),
                None => None,
            };
            complete(settings, reading)
        },
    }
}

/// The members that a call is made with, or what is wrong with its arguments.
pub open spec fn arguments_of(args: Tree) -> Result<Option<Seq<(Seq<char>, Tree)>>, Seq<char>> {
    match args {
        Tree::Object(members) => Ok(Some(members)),
        Tree::Null => Ok(None),
        _ => Err("probe: --args must be a JSON object, got "@ + json_text(canon(args))),
    }
}

/// The members that a call is made with: those of an object, none for `null`.
/// Anything else is no arguments.
pub fn arguments(args: &Json) -> (answer: Result<Option<&Vec<(String, Json)>>, String>)
    ensures
        match answer {
            Ok(Some(members)) => *args == Json::Object(*members),
            Ok(None) => *args is Null,
            Err(text) => {
                &&& !(*args is Object)
                &&& !(*args is Null)
                &&& text@ == "probe: --args must be a JSON object, got "@ + json_text(
                    canon(args@),
                )
            },
        },
        arguments_of(args@) == match answer {
            Ok(Some(members)) => Ok(Some(member_trees(members@))),
            Ok(None) => Ok(None),
            Err(text) => Err(text@),
        },
{
    match args {
        Json::Object(members) => Ok(Some(members)),
        Json::Null => Ok(None),
        _ => {
            let mut out: String = String::new();
            out.append("probe: --args must be a JSON object, got ");
            out.append(args.canonicalize().to_text().as_str());
            assert(out@ =~= "probe: --args must be a JSON object, got "@ + json_text(canon(args@)));
            Err(out)
        },
    }
}

/// What is wrong where the server does not have the tool.
pub open spec fn missing_tool(tool: Seq<char>, names: Seq<Seq<char>>) -> Option<Seq<char>> {
    if names.contains(tool) {
        None
    } else {
        Some(
            "probe: target server has no tool `"@ + tool + "`. Available: "@ + joined_text(
                names,
                ", "@,
            ),
        )
    }
}

/// Whether the server has the tool; what is wrong if it does not, so that a
/// misspelt name does not read as no effects.
pub fn check_tool(tool: &str, names: &Vec<String>) -> (error: Option<String>)
    ensures
        match error {
            None => texts(names@).contains(tool@),
            Some(text) => {
                &&& !texts(names@).contains(tool@)
                &&& text@ == "probe: target server has no tool `"@ + tool@ + "`. Available: "@
                    + joined_text(texts(names@), ", "@)
            },
        },
        missing_tool(tool@, texts(names@)) == match error {
            Some(text) => Some(text@),
            None => None,
        },
{
    let mut i: usize = 0;
    while i < names.len()
        invariant
            i <= names@.len(),
            forall|j: int| 0 <= j < i ==> #[trigger] texts(names@)[j] != tool@,
        decreases names@.len() - i,
    {
        if same_text(names[i].as_str(), tool) {
            assert(texts(names@)[i as int] == tool@);
            return None;
        }
        i = i + 1;
    }
    let mut out: String = String::new();
    out.append("probe: target server has no tool `");
    out.append(tool);
    out.append("`. Available: ");
    out.append(join(names, ", ").as_str());
    assert(out@ =~= "probe: target server has no tool `"@ + tool@ + "`. Available: "@
        + joined_text(texts(names@), ", "@));
    Some(out)
}

/// What a tool call returned, as far as a caller can see it.
#[derive(Debug, PartialEq, Eq)]
pub struct ToolResult {
    pub content: Json,
    pub structured: Option<Json>,
    pub is_error: Option<bool>,
}

/// The payload of a result as one JSON value.
pub open spec fn payload(result: ToolResult) -> Tree {
    Tree::Object(
        seq![
            ("content"@, result.content@),
            (
                "structured"@,
                match result.structured {
                    Some(json) => json@,
                    None => Tree::Null,
                },
            ),
            (
                "is_error"@,
                match result.is_error {
                    Some(b) => Tree::Bool(b),
                    None => Tree::Null,
                },
            ),
        ],
    )
}

/// The fingerprint of a result: the canonical text of its payload.
pub open spec fn fingerprint_of(result: ToolResult) -> Seq<char> {
    json_text(canon(payload(result)))
}

/// The canonical text of a JSON value.
pub fn canonical(v: &Json) -> (text: String)
    ensures
        text@ == json_text(canon(v@)),
{
    v.canonicalize().to_text()
}

/// The fingerprint of a result: two results are grouped together exactly if
/// their fingerprints are the same.
pub fn fingerprint(result: &ToolResult) -> (text: String)
    ensures
        text@ == fingerprint_of(*result),
{
    let structured: Json = match &result.structured {
        Some(json) => json.clone(),
        None => Json::Null,
    };
    let is_error: Json = match result.is_error {
        Some(b) => Json::Bool(b),
        None => Json::Null,
    };
    let mut members: Vec<(String, Json)> = Vec::new();
    members.push(("content".to_owned(), result.content.clone()));
    members.push(("structured".to_owned(), structured));
    members.push(("is_error".to_owned(), is_error));
    proof {
        lemma_member_trees(members@);
        assert(member_trees(members@) =~= payload(*result)->Object_0);
    }
    canonical(&Json::Object(members))
}

/// What came back from the calls.
#[derive(Debug, Clone, Copy, PartialEq, Eq)]
pub struct Tally {
    /// Calls that succeeded.
    pub succeeded: usize,
    /// Calls whose tool failed.
    pub errors: usize,
    /// Calls that never came back.
    pub transport_failures: usize,
    /// Different results among the calls that succeeded.
    pub distinct: usize,
}

/// Whether a call came back with a result that is no error.
pub open spec fn success(result: Option<ToolResult>) -> bool {
    result matches Some(r) && r.is_error != Some(true)
}

/// Whether a call came back with an error of the tool.
pub open spec fn tool_error(result: Option<ToolResult>) -> bool {
    result matches Some(r) && r.is_error == Some(true)
}

/// How many calls succeeded.
pub open spec fn successes(results: Seq<Option<ToolResult>>) -> nat
    decreases results.len(),
{
    if results.len() == 0 {
        0
    } else {
        successes(results.drop_last()) + if success(results.last()) {
            1nat
        } else {
            0nat
        }
    }
}

/// How many calls came back with an error of the tool.
pub open spec fn tool_errors(results: Seq<Option<ToolResult>>) -> nat
    decreases results.len(),
{
    if results.len() == 0 {
        0
    } else {
        tool_errors(results.drop_last()) + if tool_error(results.last()) {
            1nat
        } else {
            0nat
        }
    }
}

/// The fingerprints of the calls that succeeded.
pub open spec fn fingerprints(results: Seq<Option<ToolResult>>) -> Set<Seq<char>>
    decreases results.len(),
{
    if results.len() == 0 {
        Set::empty()
    } else if success(results.last()) {
        fingerprints(results.drop_last()).insert(fingerprint_of(results.last()->Some_0))
    } else {
        fingerprints(results.drop_last())
    }
}

/// Counts what came back. A call that never came back is `None`.
pub fn tally(results: &Vec<Option<ToolResult>>) -> (t: Tally)
    ensures
        t.succeeded == successes(results@),
        t.errors == tool_errors(results@),
        t.succeeded + t.errors + t.transport_failures == results@.len(),
        fingerprints(results@).finite(),
        t.distinct == fingerprints(results@).len(),
{
    let mut seen: StrMap<bool> = StrMap::new();
    let mut succeeded: usize = 0;
    let mut errors: usize = 0;
    let mut transport_failures: usize = 0;
    let mut i: usize = 0;
    assert(results@.take(0) =~= Seq::<Option<ToolResult>>::empty());
    assert(seen@.dom() =~= fingerprints(results@.take(0)));
    while i < results.len()
        invariant
            i <= results@.len(),
            succeeded == successes(results@.take(i as int)),
            errors == tool_errors(results@.take(i as int)),
            succeeded + errors + transport_failures == i,
            seen@.dom() == fingerprints(results@.take(i as int)),
        decreases results@.len() - i,
    {
        proof {
            let next = results@.take(i + 1);
            assert(next.drop_last() =~= results@.take(i as int));
            assert(next.last() == results@[i as int]);
        }
        match &results[i] {
            Some(result) => match result.is_error {
                Some(true) => {
                    errors = errors + 1;
                },
                _ => {
                    let print: String = fingerprint(result);
                    let ghost before_call = seen@.dom();
                    let ghost mark = print@;
                    seen.insert(print, true);
                    assert(seen@.dom() =~= before_call.insert(mark));
                    succeeded = succeeded + 1;
                },
            },
            None => {
                transport_failures = transport_failures + 1;
            },
        }
        i = i + 1;
    }
    assert(results@.take(i as int) =~= results@);
    Tally { succeeded, errors, transport_failures, distinct: seen.len() }
}

/// What the probe concludes.
#[derive(Debug, Clone, Copy, PartialEq, Eq)]
pub enum Verdict {
    /// Identical calls gave different results: the action ran more than once.
    DoubleFire,
    /// Several calls gave the same result, which proves nothing.
    Inconclusive,
    /// At most one call succeeded.
    NoRace,
}

impl Tally {
    /// What the counts prove.
    pub fn verdict(&self) -> (v: Verdict)
        ensures
            v == verdict_of(*self),
    {
        if self.distinct > 1 {
            Verdict::DoubleFire
        } else if self.succeeded > 1 {
            Verdict::Inconclusive
        } else {
            Verdict::NoRace
        }
    }
}

/// What the counts prove: different results prove that the action ran more than
/// once, several results that are all the same prove nothing.
pub open spec fn verdict_of(t: Tally) -> Verdict {
    if t.distinct > 1 {
        Verdict::DoubleFire
    } else if t.succeeded > 1 {
        Verdict::Inconclusive
    } else {
        Verdict::NoRace
    }
}

/// The line that is logged before a probe starts.
pub fn target_line(p: &ProbeArgs) -> (line: String)
    ensures
        line@ == "[effectfence-probe] target: `"@ + joined_text(texts(p.child_cmd@), " "@)
            + "`  tool: `"@ + p.tool@ + "`  concurrent calls: "@ + decimal(p.calls as nat),
{
    let mut out: String = String::new();
    out.append("[effectfence-probe] target: `");
    out.append(join(&p.child_cmd, " ").as_str());
    out.append("`  tool: `");
    out.append(p.tool.as_str());
    out.append("`  concurrent calls: ");
    append_decimal(&mut out, p.calls as u128);
    assert(out@ =~= "[effectfence-probe] target: `"@ + joined_text(texts(p.child_cmd@), " "@)
        + "`  tool: `"@ + p.tool@ + "`  concurrent calls: "@ + decimal(p.calls as nat));
    out
}

/// The counts of a report.
pub open spec fn counts_text(p: ProbeModel, t: Tally) -> Seq<char> {
    "\n\x1b[1mEffectFence probe — twin-caller race report\x1b[0m\n"@
        + "--------------------------------------------\n"@ + "  tool                : "@ + p.tool
        + "\n  identical calls     : "@ + decimal(p.calls as nat) + "\n  succeeded           : "@
        + decimal(t.succeeded as nat) + "\n  tool-level errors   : "@ + decimal(t.errors as nat)
        + "\n  transport failures  : "@ + decimal(t.transport_failures as nat)
        + "\n  DISTINCT effects    : "@ + decimal(t.distinct as nat) + "\n\n"@
}

/// The conclusion of a report.
pub open spec fn verdict_text(p: ProbeModel, t: Tally) -> Seq<char> {
    match verdict_of(t) {
        Verdict::DoubleFire => "  \x1b[31mPROVEN DOUBLE-FIRE.\x1b[0m "@ + decimal(p.calls as nat)
            + " byte-identical calls produced "@ + decimal(t.distinct as nat)
            + " DIFFERENT\n  results. Each distinct result is a separate real execution of one\n  intended action — the duplicate side effect you cannot take back.\n"@,
        Verdict::Inconclusive => "  \x1b[33mINCONCLUSIVE from responses.\x1b[0m "@ + decimal(
            t.succeeded as nat,
        )
            + " calls each returned the SAME\n  payload. Either the tool is idempotent, or it fired "@
            + decimal(t.succeeded as nat)
            + " times and\n  does not reveal it in the response. The probe reports only what the\n  server shows — it will not claim a zero it cannot prove.\n"@,
        Verdict::NoRace =>
            "  Only one call succeeded; no race surface observed at this concurrency.\n"@,
    }
}

/// The advice of a report.
pub open spec fn advice_text(p: ProbeModel) -> Seq<char> {
    "\n  \x1b[1mBehind the fence:\x1b[0m  effectfence wrap -- "@ + joined_text(p.child, " "@)
        + "\n  those "@ + decimal(p.calls as nat)
        + " identical calls admit \x1b[1mexactly one\x1b[0m execution; every duplicate\n  is handed the recorded result instead of firing again. Verify it:\n  re-run this probe through `wrap` and DISTINCT effects drops to 1.\n\n"@
}

/// The report of a probe.
pub fn report(p: &ProbeArgs, t: &Tally) -> (text: String)
    ensures
        text@ == counts_text(p@, *t) + verdict_text(p@, *t) + advice_text(p@),
{
    let mut out: String = String::new();
    append_counts(&mut out, p, t);
    append_verdict(&mut out, p, t);
    append_advice(&mut out, p);
    assert(out@ =~= counts_text(p@, *t) + verdict_text(p@, *t) + advice_text(p@));
    out
}

fn append_counts(out: &mut String, p: &ProbeArgs, t: &Tally)
    ensures
        final(out)@ == old(out)@ + counts_text(p@, *t),
{
    out.append("\n\x1b[1mEffectFence probe — twin-caller race report\x1b[0m\n");
    out.append("--------------------------------------------\n");
    out.append("  tool                : ");
    out.append(p.tool.as_str());
    out.append("\n  identical calls     : ");
    append_decimal(out, p.calls as u128);
    out.append("\n  succeeded           : ");
    append_decimal(out, t.succeeded as u128);
    out.append("\n  tool-level errors   : ");
    append_decimal(out, t.errors as u128);
    out.append("\n  transport failures  : ");
    append_decimal(out, t.transport_failures as u128);
    out.append("\n  DISTINCT effects    : ");
    append_decimal(out, t.distinct as u128);
    out.append("\n\n");
    assert(out@ =~= old(out)@ + counts_text(p@, *t));
}

fn append_verdict(out: &mut String, p: &ProbeArgs, t: &Tally)
    ensures
        final(out)@ == old(out)@ + verdict_text(p@, *t),
{
    match t.verdict() {
        Verdict::DoubleFire => {
            out.append("  \x1b[31mPROVEN DOUBLE-FIRE.\x1b[0m ");
            append_decimal(out, p.calls as u128);
            out.append(" byte-identical calls produced ");
            append_decimal(out, t.distinct as u128);
            out.append(
                " DIFFERENT\n  results. Each distinct result is a separate real execution of one\n  intended action — the duplicate side effect you cannot take back.\n",
            );
        },
        Verdict::Inconclusive => {
            out.append("  \x1b[33mINCONCLUSIVE from responses.\x1b[0m ");
            append_decimal(out, t.succeeded as u128);
            out.append(
                " calls each returned the SAME\n  payload. Either the tool is idempotent, or it fired ",
            );
            append_decimal(out, t.succeeded as u128);
            out.append(
                " times and\n  does not reveal it in the response. The probe reports only what the\n  server shows — it will not claim a zero it cannot prove.\n",
            );
        },
        Verdict::NoRace => {
            out.append("  Only one call succeeded; no race surface observed at this concurrency.\n");
        },
    }
    assert(out@ =~= old(out)@ + verdict_text(p@, *t));
}

fn append_advice(out: &mut String, p: &ProbeArgs)
    ensures
        final(out)@ == old(out)@ + advice_text(p@),
{
    out.append("\n  \x1b[1mBehind the fence:\x1b[0m  effectfence wrap -- ");
    out.append(join(&p.child_cmd, " ").as_str());
    out.append("\n  those ");
    append_decimal(out, p.calls as u128);
    out.append(
        " identical calls admit \x1b[1mexactly one\x1b[0m execution; every duplicate\n  is handed the recorded result instead of firing again. Verify it:\n  re-run this probe through `wrap` and DISTINCT effects drops to 1.\n\n",
    );
    assert(out@ =~= old(out)@ + advice_text(p@));
}

} // verus!
