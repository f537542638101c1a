//! Checks tool calls against the tools a request declares, and repairs the
//! mistakes that have one obvious reading.
use vstd::prelude::*;

use super::decode::{call_views, CallView, ToolCall};
use super::model::{tool_views, Tool, ToolView};
use crate::json::{
    field, field_of, float_of, is_alike, is_sound, items_in, items_of_value, json_of, json_text,
    lists, parse, parse_float, reads_back, render, same_names_same_order, seen_json, sorted_keys,
    text_in, text_of_value, views, Json, JsonObject, JsonView,
};
use crate::text::{
    before_is_total, chars_of, decimal, decimal_reads_back, decimal_text, int_of, integers_read_back,
    is_blank, is_digit, join, join_texts, lowercase_of, push_lowercase, read_int,
    same_text, signed_decimal, signed_text, strs, text_of, trim, trimmed,
    trimming_undoes_padding,
};

verus! {

/// Why a call fails.
#[derive(Debug, Clone, Copy, PartialEq, Eq, Structural)]
pub enum ErrorCategory {
    /// It names a tool that the request does not declare.
    UnknownTool,
    /// Its arguments are not a JSON object.
    BadArguments,
    /// A required field is missing from its arguments.
    MissingArgument,
    /// An argument is not of its declared type.
    WrongType,
}

impl ErrorCategory {
    /// The tag that the category is stored under.
    pub open spec fn tag(self) -> Seq<char> {
        match self {
            ErrorCategory::UnknownTool => "unknown_tool"@,
            ErrorCategory::BadArguments => "bad_arguments"@,
            ErrorCategory::MissingArgument => "missing_argument"@,
            ErrorCategory::WrongType => "wrong_type"@,
        }
    }

    /// The tag that the category is stored under.
    pub fn as_str(self) -> (tag: &'static str)
        ensures
            tag@ == self.tag(),
    {
        match self {
            ErrorCategory::UnknownTool => "unknown_tool",
            ErrorCategory::BadArguments => "bad_arguments",
            ErrorCategory::MissingArgument => "missing_argument",
            ErrorCategory::WrongType => "wrong_type",
        }
    }
}

/// What checking a batch of calls finds.
#[derive(Debug, PartialEq)]
pub enum Validation {
    /// Every call is in order.
    Valid,
    /// The call at `offending` is not; `nudge` tells the model what to mend.
    NeedsRetry { category: ErrorCategory, nudge: String, offending: usize },
}

/// What checking a batch of calls finds, by views.
#[verifier::ext_equal]
pub enum ValidationView {
    Valid,
    NeedsRetry { category: ErrorCategory, nudge: Seq<char>, offending: int },
}

impl View for Validation {
    type V = ValidationView;

    open spec fn view(&self) -> ValidationView {
        match self {
            Validation::Valid => ValidationView::Valid,
            Validation::NeedsRetry { category, nudge, offending } => ValidationView::NeedsRetry {
                category: *category,
                nudge: nudge@,
                offending: *offending as int,
            },
        }
    }
}

// ── what a tool declares ────────────────────────────────────────────────────

/// The first tool of a name.
pub open spec fn find_tool(tools: Seq<ToolView>, name: Seq<char>) -> Option<ToolView>
    decreases tools.len(),
{
    if tools.len() == 0 {
        None
    } else if tools[0].name == name {
        Some(tools[0])
    } else {
        find_tool(tools.drop_first(), name)
    }
}

fn tool_named<'a>(tools: &'a [Tool], name: &str) -> (tool: Option<&'a Tool>)
    ensures
        match tool {
            Some(t) => find_tool(tool_views(tools@), name@) == Some(t@),
            None => find_tool(tool_views(tools@), name@) is None,
        },
{
    let ghost all = tool_views(tools@);
    assert(all.skip(0) =~= all);
    for i in 0..tools.len()
        invariant
            all == tool_views(tools@),
            find_tool(all, name@) == find_tool(all.skip(i as int), name@),
    {
        assert(all.skip(i as int)[0] == tools@[i as int]@);
        assert(all.skip(i as int).drop_first() =~= all.skip(i + 1));
        if same_text(tools[i].function.name.as_str(), name) {
            return Some(&tools[i]);
        }
    }
    None
}

/// The parameter schema of a tool.
pub open spec fn parameters(tool: ToolView) -> Option<JsonView> {
    JsonView::Object(tool.function_rest).get("parameters"@)
}

/// The texts among the first `n` items.
pub open spec fn texts_among(items: Seq<JsonView>, n: int) -> Seq<Seq<char>>
    decreases n,
{
    if n <= 0 {
        Seq::empty()
    } else {
        match items[n - 1].as_text() {
            Some(text) => texts_among(items, n - 1).push(text),
            None => texts_among(items, n - 1),
        }
    }
}

/// The fields that a tool requires.
pub open spec fn required(tool: ToolView) -> Seq<Seq<char>> {
    match items_in(field(parameters(tool), "required"@)) {
        Some(items) => texts_among(items, items.len() as int),
        None => Seq::empty(),
    }
}

/// The properties that a tool declares.
pub open spec fn properties(tool: ToolView) -> Option<Map<Seq<char>, JsonView>> {
    match field(parameters(tool), "properties"@) {
        Some(v) => v.as_members(),
        None => None,
    }
}

/// The type that a property is declared with.
pub open spec fn declared_type(
    properties: Map<Seq<char>, JsonView>,
    key: Seq<char>,
) -> Option<Seq<char>> {
    text_in(field(JsonView::Object(properties).get(key), "type"@))
}

/// The fields that a tool requires.
pub fn required_parameters(tool: &Tool) -> (names: Vec<&str>)
    ensures
        strs(names@) == required(tool@),
{
    let mut names: Vec<&str> = Vec::new();
    if let Some(items) = items_of_value(
        field_of(tool.function.rest.get("parameters"), "required"),
    ) {
        for i in 0..items.len()
            invariant
                strs(names@) == texts_among(views(items@), i as int),
        {
            let ghost read = strs(names@);
            assert(views(items@)[i as int] == items@[i as int]@);
            if let Some(text) = items[i].as_str() {
                names.push(text);
                assert(strs(names@) =~= read.push(text@));
            }
        }
    }
    names
}

/// The properties that a tool declares.
pub fn parameter_properties(tool: &Tool) -> (found: Option<&JsonObject>)
    ensures
        match found {
            Some(p) => properties(tool@) == Some(p@),
            None => properties(tool@) is None,
        },
{
    match field_of(tool.function.rest.get("parameters"), "properties") {
        Some(v) => v.as_object(),
        None => None,
    }
}

fn type_of_property<'a>(properties: &'a JsonObject, key: &str) -> (declared: Option<&'a str>)
    ensures
        crate::json::seen_text(declared) == declared_type(properties@, key@),
{
    text_of_value(field_of(properties.get(key), "type"))
}

/// Whether a value is of a schema type. A type that is not known is met by any
/// value.
pub open spec fn is_of_type(declared: Seq<char>, value: JsonView) -> bool {
    if declared == "string"@ {
        value is Str
    } else if declared == "number"@ {
        value is Int || value is Real
    } else if declared == "integer"@ {
        value is Int
    } else if declared == "boolean"@ {
        value is Bool
    } else if declared == "object"@ {
        value is Object
    } else if declared == "array"@ {
        value is Array
    } else if declared == "null"@ {
        value is Null
    } else {
        true
    }
}

pub fn type_matches(declared: &str, value: &Json) -> (yes: bool)
    ensures
        yes == is_of_type(declared@, value@),
{
    if same_text(declared, "string") {
        matches!(value, Json::Str(_))
    } else if same_text(declared, "number") {
        matches!(value, Json::Unsigned(_) | Json::Signed(_) | Json::Real(_))
    } else if same_text(declared, "integer") {
        matches!(value, Json::Unsigned(_) | Json::Signed(_))
    } else if same_text(declared, "boolean") {
        matches!(value, Json::Bool(_))
    } else if same_text(declared, "object") {
        matches!(value, Json::Object(_))
    } else if same_text(declared, "array") {
        matches!(value, Json::Array(_))
    } else if same_text(declared, "null") {
        matches!(value, Json::Null)
    } else {
        true
    }
}

/// The members that arguments text holds, where it is a JSON object.
pub open spec fn arguments_of(text: Seq<char>) -> Option<Map<Seq<char>, JsonView>> {
    match json_of(text) {
        Some(v) => v.as_members(),
        None => None,
    }
}

pub fn arguments_object(arguments: &str) -> (object: Option<JsonObject>)
    ensures
        match object {
            Some(o) => arguments_of(arguments@) == Some(o@),
            None => arguments_of(arguments@) is None,
        },
{
    match parse(arguments) {
        Some(Json::Object(object)) => Some(object),
        _ => None,
    }
}

// ── nudges ──────────────────────────────────────────────────────────────────

pub open spec fn unknown_tool_text(name: Seq<char>, tools: Seq<ToolView>) -> Seq<char> {
    "You called a tool named \""@ + name
        + "\" which does not exist. Call one of the available tools instead: "@ + join(
        tools.map_values(|t: ToolView| t.name),
        ", "@,
    ) + "."@
}

pub open spec fn bad_arguments_text(name: Seq<char>) -> Seq<char> {
    "The arguments for tool \""@ + name
        + "\" were not a valid JSON object. Reply with a single tool call whose arguments are a JSON object."@
}

pub open spec fn missing_argument_text(name: Seq<char>, missing: Seq<char>) -> Seq<char> {
    "The arguments for tool \""@ + name + "\" were missing required field \""@ + missing
        + "\". Reply with a single tool call whose arguments include all required fields."@
}

pub open spec fn wrong_type_text(
    name: Seq<char>,
    key: Seq<char>,
    expected: Seq<char>,
) -> Seq<char> {
    "The argument \""@ + key + "\" for tool \""@ + name
        + "\" had the wrong type; it must be a "@ + expected
        + ". Reply with a single tool call whose arguments match the declared types."@
}

pub fn unknown_tool_nudge(name: &str, tools: &[Tool]) -> (nudge: String)
    ensures
        nudge@ == unknown_tool_text(name@, tool_views(tools@)),
{
    let ghost all = tool_views(tools@).map_values(|t: ToolView| t.name);
    let mut names: Vec<&str> = Vec::new();
    for i in 0..tools.len()
        invariant
            all == tool_views(tools@).map_values(|t: ToolView| t.name),
            strs(names@) == all.take(i as int),
    {
        let ghost read = strs(names@);
        let tool_name = tools[i].function.name.as_str();
        names.push(tool_name);
        assert(strs(names@) =~= read.push(tool_name@));
        assert(strs(names@) =~= all.take(i + 1));
    }
    assert(strs(names@) =~= all);
    let list = join_texts(&names, ", ");
    "You called a tool named \"".to_owned().concat(name).concat(
        "\" which does not exist. Call one of the available tools instead: ",
    ).concat(list.as_str()).concat(".")
}

pub fn bad_arguments_nudge(name: &str) -> (nudge: String)
    ensures
        nudge@ == bad_arguments_text(name@),
{
    "The arguments for tool \"".to_owned().concat(name).concat(
        "\" were not a valid JSON object. Reply with a single tool call whose arguments are a JSON object.",
    )
}

pub fn missing_argument_nudge(name: &str, required: &str) -> (nudge: String)
    ensures
        nudge@ == missing_argument_text(name@, required@),
{
    "The arguments for tool \"".to_owned().concat(name).concat(
        "\" were missing required field \"",
    ).concat(required).concat(
        "\". Reply with a single tool call whose arguments include all required fields.",
    )
}

pub fn wrong_type_nudge(name: &str, field: &str, expected: &str) -> (nudge: String)
    ensures
        nudge@ == wrong_type_text(name@, field@, expected@),
{
    "The argument \"".to_owned().concat(field).concat("\" for tool \"").concat(name).concat(
        "\" had the wrong type; it must be a ",
    ).concat(expected).concat(
        ". Reply with a single tool call whose arguments match the declared types.",
    )
}

// ── validation ──────────────────────────────────────────────────────────────

/// The first of `names`, from `from` on, that is missing from the arguments.
pub open spec fn first_missing(
    names: Seq<Seq<char>>,
    from: int,
    arguments: Map<Seq<char>, JsonView>,
) -> Option<Seq<char>>
    decreases names.len() - from,
{
    if !(0 <= from < names.len()) {
        None
    } else if !arguments.contains_key(names[from]) {
        Some(names[from])
    } else {
        first_missing(names, from + 1, arguments)
    }
}

/// The first of `keys`, from `from` on, whose argument is not of the type that
/// it is declared with; and that type.
pub open spec fn first_mistyped(
    keys: Seq<Seq<char>>,
    from: int,
    arguments: Map<Seq<char>, JsonView>,
    declared: Map<Seq<char>, JsonView>,
) -> Option<(Seq<char>, Seq<char>)>
    decreases keys.len() - from,
{
    if !(0 <= from < keys.len()) {
        None
    } else {
        match declared_type(declared, keys[from]) {
            Some(kind) => if is_of_type(kind, arguments[keys[from]]) {
                first_mistyped(keys, from + 1, arguments, declared)
            } else {
                Some((keys[from], kind))
            },
            None => first_mistyped(keys, from + 1, arguments, declared),
        }
    }
}

/// What is wrong with a call, if anything: the first of an unknown tool,
/// arguments that are no object, a missing required field, and an argument of
/// the wrong type.
pub open spec fn problem(call: CallView, tools: Seq<ToolView>) -> Option<
    (ErrorCategory, Seq<char>),
> {
    match find_tool(tools, call.name) {
        None => Some((ErrorCategory::UnknownTool, unknown_tool_text(call.name, tools))),
        Some(tool) => match arguments_of(call.arguments) {
            None => Some((ErrorCategory::BadArguments, bad_arguments_text(call.name))),
            Some(arguments) => match first_missing(required(tool), 0, arguments) {
                Some(missing) => Some(
                    (ErrorCategory::MissingArgument, missing_argument_text(call.name, missing)),
                ),
                None => match properties(tool) {
                    Some(declared) => match first_mistyped(
                        sorted_keys(arguments),
                        0,
                        arguments,
                        declared,
                    ) {
                        Some((key, kind)) => Some(
                            (ErrorCategory::WrongType, wrong_type_text(call.name, key, kind)),
                        ),
                        None => None,
                    },
                    None => None,
                },
            },
        },
    }
}

/// What checking the calls from `from` on finds.
pub open spec fn validation_from(
    calls: Seq<CallView>,
    tools: Seq<ToolView>,
    from: int,
) -> ValidationView
    decreases calls.len() - from,
{
    if !(0 <= from < calls.len()) {
        ValidationView::Valid
    } else {
        match problem(calls[from], tools) {
            Some((category, nudge)) => ValidationView::NeedsRetry {
                category,
                nudge,
                offending: from,
            },
            None => validation_from(calls, tools, from + 1),
        }
    }
}

/// What checking calls finds: the first problem of the first call that has one.
pub open spec fn validation(calls: Seq<CallView>, tools: Seq<ToolView>) -> ValidationView {
    validation_from(calls, tools, 0)
}

/// What is wrong with one call.
fn find_problem(call: &ToolCall, tools: &[Tool]) -> (found: Option<(ErrorCategory, String)>)
    ensures
        match found {
            Some((category, nudge)) => problem(call@, tool_views(tools@)) == Some(
                (category, nudge@),
            ),
            None => problem(call@, tool_views(tools@)) is None,
        },
{
    let name = call.name.as_str();
    let tool = match tool_named(tools, name) {
        Some(tool) => tool,
        None => {
            return Some((ErrorCategory::UnknownTool, unknown_tool_nudge(name, tools)));
        },
    };
    let arguments = match arguments_object(call.arguments.as_str()) {
        Some(arguments) => arguments,
        None => {
            return Some((ErrorCategory::BadArguments, bad_arguments_nudge(name)));
        },
    };
    let names = required_parameters(tool);
    for i in 0..names.len()
        invariant
            strs(names@) == required(tool@),
            name@ == call@.name,
            find_tool(tool_views(tools@), call@.name) == Some(tool@),
            arguments_of(call@.arguments) == Some(arguments@),
            first_missing(required(tool@), 0, arguments@) == first_missing(
                required(tool@),
                i as int,
                arguments@,
            ),
    {
        assert(strs(names@)[i as int] == names@[i as int]@);
        if !arguments.contains_key(names[i]) {
            return Some((ErrorCategory::MissingArgument, missing_argument_nudge(name, names[i])));
        }
    }
    if let Some(declared) = parameter_properties(tool) {
        let n: usize = arguments.len();
        for i in 0..n
            invariant
                n == sorted_keys(arguments@).len(),
                name@ == call@.name,
                find_tool(tool_views(tools@), call@.name) == Some(tool@),
                arguments_of(call@.arguments) == Some(arguments@),
                first_missing(required(tool@), 0, arguments@) is None,
                properties(tool@) == Some(declared@),
                first_mistyped(sorted_keys(arguments@), 0, arguments@, declared@)
                    == first_mistyped(sorted_keys(arguments@), i as int, arguments@, declared@),
        {
            let (key, value) = arguments.entry(i);
            if let Some(kind) = type_of_property(declared, key) {
                if !type_matches(kind, value) {
                    return Some((ErrorCategory::WrongType, wrong_type_nudge(name, key, kind)));
                }
            }
        }
    }
    None
}

/// Checks calls against the declared tools. No calls at all are in order.
pub fn validate(calls: &[ToolCall], tools: &[Tool]) -> (result: Validation)
    ensures
        result@ == validation(call_views(calls@), tool_views(tools@)),
{
    for i in 0..calls.len()
        invariant
            validation(call_views(calls@), tool_views(tools@)) == validation_from(
                call_views(calls@),
                tool_views(tools@),
                i as int,
            ),
    {
        assert(call_views(calls@)[i as int] == calls@[i as int]@);
        if let Some((category, nudge)) = find_problem(&calls[i], tools) {
            return Validation::NeedsRetry { category, nudge, offending: i };
        }
    }
    Validation::Valid
}

/// Calls are in order exactly where none of them has a problem.
pub proof fn valid_means_no_problem(calls: Seq<CallView>, tools: Seq<ToolView>)
    ensures
        validation(calls, tools) is Valid <==> forall|i: int|
            0 <= i < calls.len() ==> problem(#[trigger] calls[i], tools) is None,
        validation(calls, tools) matches ValidationView::NeedsRetry { category, nudge, offending }
            ==> 0 <= offending < calls.len() && problem(calls[offending], tools) == Some(
            (category, nudge),
        ) && forall|i: int| 0 <= i < offending ==> problem(#[trigger] calls[i], tools) is None,
{
    valid_from(calls, tools, 0);
}

proof fn valid_from(calls: Seq<CallView>, tools: Seq<ToolView>, from: int)
    requires
        0 <= from,
    ensures
        validation_from(calls, tools, from) is Valid <==> forall|i: int|
            from <= i < calls.len() ==> problem(#[trigger] calls[i], tools) is None,
        validation_from(calls, tools, from) matches ValidationView::NeedsRetry {
            category,
            nudge,
            offending,
        } ==> from <= offending < calls.len() && problem(calls[offending], tools) == Some(
            (category, nudge),
        ) && forall|i: int| from <= i < offending ==> problem(#[trigger] calls[i], tools) is None,
    decreases calls.len() - from,
{
    if from < calls.len() {
        if problem(calls[from], tools) is None {
            valid_from(calls, tools, from + 1);
        }
    }
}

// ── name repair ─────────────────────────────────────────────────────────────

/// A key without case and separators.
pub open spec fn normalized(key: Seq<char>) -> Seq<char>
    decreases key.len(),
{
    if key.len() == 0 {
        Seq::empty()
    } else {
        let before = normalized(key.drop_last());
        let c = key.last();
        if c == '_' || c == '-' || c == ' ' {
            before
        } else {
            before + lowercase_of(c)
        }
    }
}

pub fn normalize_key(key: &str) -> (norm: String)
    ensures
        norm@ == normalized(key@),
{
    let chars = chars_of(key);
    let mut norm = String::new();
    for i in 0..chars.len()
        invariant
            chars@ == key@,
            norm@ == normalized(key@.take(i as int)),
    {
        assert(key@.take(i + 1).drop_last() =~= key@.take(i as int));
        let c: char = chars[i];
        if !(c == '_' || c == '-' || c == ' ') {
            push_lowercase(&mut norm, c);
        }
    }
    assert(key@.take(key@.len() as int) =~= key@);
    norm
}

/// Those of the first `n` names that are missing from the arguments.
pub open spec fn missing_of(
    names: Seq<Seq<char>>,
    arguments: Map<Seq<char>, JsonView>,
    n: int,
) -> Seq<Seq<char>>
    decreases n,
{
    if n <= 0 {
        Seq::empty()
    } else if arguments.contains_key(names[n - 1]) {
        missing_of(names, arguments, n - 1)
    } else {
        missing_of(names, arguments, n - 1).push(names[n - 1])
    }
}

/// Those of the first `n` keys that name no declared property.
pub open spec fn unknown_of(
    keys: Seq<Seq<char>>,
    declared: Map<Seq<char>, JsonView>,
    n: int,
) -> Seq<Seq<char>>
    decreases n,
{
    if n <= 0 {
        Seq::empty()
    } else if declared.contains_key(keys[n - 1]) {
        unknown_of(keys, declared, n - 1)
    } else {
        unknown_of(keys, declared, n - 1).push(keys[n - 1])
    }
}

/// Those of the first `n` missing fields that a key names in another style.
pub open spec fn hits(key: Seq<char>, missing: Seq<Seq<char>>, n: int) -> Seq<Seq<char>>
    decreases n,
{
    if n <= 0 {
        Seq::empty()
    } else if normalized(missing[n - 1]) == normalized(key) {
        hits(key, missing, n - 1).push(missing[n - 1])
    } else {
        hits(key, missing, n - 1)
    }
}

/// A key and the name that it is given.
pub type RenameView = (Seq<char>, Seq<char>);

/// The renames that the first `n` unknown keys stand for: each to the one
/// missing field that it names in another style.
pub open spec fn renames_of(unknown: Seq<Seq<char>>, missing: Seq<Seq<char>>, n: int) -> Seq<
    RenameView,
>
    decreases n,
{
    if n <= 0 {
        Seq::empty()
    } else {
        let found = hits(unknown[n - 1], missing, missing.len() as int);
        if found.len() == 1 {
            renames_of(unknown, missing, n - 1).push((unknown[n - 1], found[0]))
        } else {
            renames_of(unknown, missing, n - 1)
        }
    }
}

/// Whether no other rename has the same target as the one at `i`.
pub open spec fn is_sole(renames: Seq<RenameView>, i: int) -> bool {
    forall|j: int| 0 <= j < renames.len() && j != i ==> (#[trigger] renames[j]).1 != renames[i].1
}

/// The arguments after the first `n` renames, and whether any was carried out:
/// one with a rival for its target is not, nor one whose target is there.
pub open spec fn renamed(
    arguments: Map<Seq<char>, JsonView>,
    renames: Seq<RenameView>,
    n: int,
) -> (Map<Seq<char>, JsonView>, bool)
    decreases n,
{
    if n <= 0 {
        (arguments, false)
    } else {
        let (before, changed) = renamed(arguments, renames, n - 1);
        let (source, target) = renames[n - 1];
        if is_sole(renames, n - 1) && !before.contains_key(target) && before.contains_key(source) {
            (before.remove(source).insert(target, before[source]), true)
        } else {
            (before, changed)
        }
    }
}

/// The arguments of a call with its misnamed keys mended, where any is.
pub open spec fn mended_names(
    arguments: Map<Seq<char>, JsonView>,
    names: Seq<Seq<char>>,
    declared: Map<Seq<char>, JsonView>,
) -> (Map<Seq<char>, JsonView>, bool) {
    let missing = missing_of(names, arguments, names.len() as int);
    let keys = sorted_keys(arguments);
    let unknown = unknown_of(keys, declared, keys.len() as int);
    let renames = renames_of(unknown, missing, unknown.len() as int);
    renamed(arguments, renames, renames.len() as int)
}

/// A call with its misnamed keys mended; nothing where it stays as it is.
pub open spec fn name_repair(call: CallView, tools: Seq<ToolView>) -> Option<CallView> {
    match find_tool(tools, call.name) {
        Some(tool) => match (properties(tool), arguments_of(call.arguments)) {
            (Some(declared), Some(arguments)) => {
                let (mended, changed) = mended_names(arguments, required(tool), declared);
                if changed {
                    Some(CallView { arguments: json_text(JsonView::Object(mended)), ..call })
                } else {
                    None
                }
            },
            _ => None,
        },
        None => None,
    }
}

/// The arguments of a call with its misnamed keys mended.
pub open spec fn renamed_in(call: CallView, tools: Seq<ToolView>) -> Map<Seq<char>, JsonView> {
    let tool = find_tool(tools, call.name)->0;
    mended_names(arguments_of(call.arguments)->0, required(tool), properties(tool)->0).0
}

/// Whether a call whose keys are mended holds, as text, the mended arguments:
/// those that are read back as they were written.
pub open spec fn holds_renamed(before: CallView, after: CallView, tools: Seq<ToolView>) -> bool {
    name_repair(before, tools) is Some && reads_back(JsonView::Object(renamed_in(before, tools)))
        ==> arguments_of(after.arguments) == Some(renamed_in(before, tools))
}

/// Each call as `repair` leaves it.
pub open spec fn repaired_calls(
    calls: Seq<CallView>,
    repair: spec_fn(CallView) -> Option<CallView>,
) -> Seq<CallView> {
    calls.map_values(
        |c: CallView|
            match repair(c) {
                Some(mended) => mended,
                None => c,
            },
    )
}

/// Whether `repair` changes any of the calls.
pub open spec fn any_repaired(
    calls: Seq<CallView>,
    repair: spec_fn(CallView) -> Option<CallView>,
) -> bool {
    exists|i: int| 0 <= i < calls.len() && repair(#[trigger] calls[i]) is Some
}

/// How names are repaired, given the tools.
pub open spec fn names_repair(tools: Seq<ToolView>) -> spec_fn(CallView) -> Option<CallView> {
    |c: CallView| name_repair(c, tools)
}

/// The arguments of a call with its misnamed keys mended, where any is.
fn mend_names(
    arguments: &JsonObject,
    names: &Vec<&str>,
    declared: &JsonObject,
) -> (mended: Option<JsonObject>)
    ensures
        ({
            let (result, changed) = mended_names(arguments@, strs(names@), declared@);
            match mended {
                Some(object) => changed && object@ == result,
                None => !changed,
            }
        }),
{
    let ghost all_names = strs(names@);
    let ghost keys = sorted_keys(arguments@);
    let mut missing: Vec<&str> = Vec::new();
    for i in 0..names.len()
        invariant
            all_names == strs(names@),
            strs(missing@) == missing_of(all_names, arguments@, i as int),
    {
        let ghost read = strs(missing@);
        assert(all_names[i as int] == names@[i as int]@);
        if !arguments.contains_key(names[i]) {
            missing.push(names[i]);
            assert(strs(missing@) =~= read.push(names@[i as int]@));
        }
    }
    let mut unknown: Vec<&str> = Vec::new();
    let count: usize = arguments.len();
    for i in 0..count
        invariant
            keys == sorted_keys(arguments@),
            count == keys.len(),
            strs(unknown@) == unknown_of(keys, declared@, i as int),
    {
        let ghost read = strs(unknown@);
        let (key, _) = arguments.entry(i);
        if !declared.contains_key(key) {
            unknown.push(key);
            assert(strs(unknown@) =~= read.push(key@));
        }
    }
    let ghost gone = strs(missing@);
    let ghost strays = strs(unknown@);
    let mut renames: Vec<(&str, &str)> = Vec::new();
    for i in 0..unknown.len()
        invariant
            gone == strs(missing@),
            strays == strs(unknown@),
            rename_views(renames@) == renames_of(strays, gone, i as int),
    {
        let ghost read = rename_views(renames@);
        assert(strays[i as int] == unknown@[i as int]@);
        let norm = normalize_key(unknown[i]);
        let mut found: Vec<&str> = Vec::new();
        for j in 0..missing.len()
            invariant
                gone == strs(missing@),
                norm@ == normalized(strays[i as int]),
                strs(found@) == hits(strays[i as int], gone, j as int),
        {
            let ghost seen_so_far = strs(found@);
            assert(gone[j as int] == missing@[j as int]@);
            let other = normalize_key(missing[j]);
            if same_text(other.as_str(), norm.as_str()) {
                found.push(missing[j]);
                assert(strs(found@) =~= seen_so_far.push(missing@[j as int]@));
            }
        }
        if found.len() == 1 {
            assert(strs(found@)[0] == found@[0]@);
            renames.push((unknown[i], found[0]));
            assert(rename_views(renames@) =~= read.push((unknown@[i as int]@, found@[0]@)));
        }
    }
    let ghost list = rename_views(renames@);
    let mut result = arguments.clone();
    let mut changed: bool = false;
    for i in 0..renames.len()
        invariant
            list == rename_views(renames@),
            renamed(arguments@, list, i as int) == (result@, changed),
    {
        let (source, target) = renames[i];
        assert(list[i as int] == (source@, target@));
        if sole_target(&renames, i) && !result.contains_key(target) {
            if let Some(value) = result.get(source) {
                let value = value.clone();
                result.remove(source);
                result.insert(target, value);
                changed = true;
            }
        }
    }
    if changed {
        Some(result)
    } else {
        None
    }
}

/// Renames by their views.
pub open spec fn rename_views(renames: Seq<(&str, &str)>) -> Seq<RenameView> {
    renames.map_values(|r: (&str, &str)| (r.0@, r.1@))
}

fn sole_target(renames: &Vec<(&str, &str)>, i: usize) -> (yes: bool)
    requires
        i < renames@.len(),
    ensures
        yes == is_sole(rename_views(renames@), i as int),
{
    let ghost list = rename_views(renames@);
    for j in 0..renames.len()
        invariant
            i < renames@.len(),
            list == rename_views(renames@),
            forall|k: int| 0 <= k < j && k != i ==> (#[trigger] list[k]).1 != list[i as int].1,
    {
        assert(list[j as int] == (renames@[j as int].0@, renames@[j as int].1@));
        assert(list[i as int] == (renames@[i as int].0@, renames@[i as int].1@));
        if j != i && same_text(renames[j].1, renames[i].1) {
            return false;
        }
    }
    true
}

/// Mends argument keys that name a declared property in another casing or
/// separator style. Only a missing required field is filled, only from a key
/// that names no property, and only where there is one way to read it. Says
/// whether any call changed. The text of a mended call reads as the mended
/// arguments.
pub fn repair_argument_names(calls: &mut Vec<ToolCall>, tools: &[Tool]) -> (changed: bool)
    ensures
        call_views(final(calls)@) == repaired_calls(
            call_views(old(calls)@),
            names_repair(tool_views(tools@)),
        ),
        changed == any_repaired(call_views(old(calls)@), names_repair(tool_views(tools@))),
        forall|i: int|
            0 <= i < old(calls)@.len() ==> holds_renamed(
                (#[trigger] old(calls)@[i])@,
                final(calls)@[i]@,
                tool_views(tools@),
            ),
{
    let ghost before = call_views(calls@);
    let ghost repair = names_repair(tool_views(tools@));
    let mut changed: bool = false;
    let n: usize = calls.len();
    for i in 0..n
        invariant
            n == calls@.len(),
            before.len() == n,
            before == call_views(old(calls)@),
            repair == names_repair(tool_views(tools@)),
            forall|k: int|
                0 <= k < i ==> (#[trigger] calls@[k])@ == repaired_calls(before, repair)[k],
            forall|k: int| i <= k < n ==> (#[trigger] calls@[k])@ == before[k],
            forall|k: int|
                0 <= k < i ==> holds_renamed(
                    #[trigger] before[k],
                    calls@[k]@,
                    tool_views(tools@),
                ),
            changed == exists|k: int| 0 <= k < i && repair(#[trigger] before[k]) is Some,
    {
        let mended = mend_call(&calls[i], tools);
        assert(repair(before[i as int]) == name_repair(before[i as int], tool_views(tools@)));
        if let Some(arguments) = mended {
            let fixed = ToolCall {
                id: super::decode::copy_text(&calls[i].id),
                name: calls[i].name.clone(),
                arguments,
            };
            calls.set(i, fixed);
            changed = true;
        }
    }
    proof {
        assert(call_views(calls@) =~= repaired_calls(before, repair));
        assert forall|i: int| 0 <= i < n implies holds_renamed(
            (#[trigger] old(calls)@[i])@,
            calls@[i]@,
            tool_views(tools@),
        ) by {
            assert(before[i] == old(calls)@[i]@);
        }
    }
    changed
}

fn mend_call(call: &ToolCall, tools: &[Tool]) -> (mended: Option<String>)
    ensures
        match mended {
            Some(arguments) => {
                let after = CallView { arguments: arguments@, ..call@ };
                &&& name_repair(call@, tool_views(tools@)) == Some(after)
                &&& holds_renamed(call@, after, tool_views(tools@))
            },
            None => name_repair(call@, tool_views(tools@)) is None,
        },
{
    match tool_named(tools, call.name.as_str()) {
        Some(tool) => match parameter_properties(tool) {
            Some(declared) => match arguments_object(call.arguments.as_str()) {
                Some(arguments) => {
                    let names = required_parameters(tool);
                    match mend_names(&arguments, &names, declared) {
                        Some(object) => Some(render(&Json::Object(object))),
                        None => None,
                    }
                },
                None => None,
            },
            None => None,
        },
        None => None,
    }
}

// ── coercion ────────────────────────────────────────────────────────────────

/// A scalar read as another type where there is one way to read it.
pub open spec fn coerced(declared: Seq<char>, value: JsonView) -> Option<JsonView> {
    if declared == "string"@ {
        match value {
            JsonView::Int(n) => Some(JsonView::Str(signed_decimal(n))),
            JsonView::Real(text) => Some(JsonView::Str(text)),
            JsonView::Bool(b) => Some(JsonView::Str(if b { "true"@ } else { "false"@ })),
            _ => None,
        }
    } else {
        match value {
            JsonView::Str(s) => if declared == "integer"@ {
                match int_of(trim(s)) {
                    Some(n) => Some(JsonView::Int(n)),
                    None => None,
                }
            } else if declared == "number"@ {
                match int_of(trim(s)) {
                    Some(n) => Some(JsonView::Int(n)),
                    None => float_of(trim(s)),
                }
            } else if declared == "boolean"@ {
                if trim(s) == "true"@ {
                    Some(JsonView::Bool(true))
                } else if trim(s) == "false"@ {
                    Some(JsonView::Bool(false))
                } else {
                    None
                }
            } else {
                None
            },
            _ => None,
        }
    }
}

/// Reads a scalar as the declared type where there is one way to read it. What
/// comes out is of that type.
pub fn coerce_scalar(declared: &str, value: &Json) -> (fixed: Option<Json>)
    ensures
        seen_json(fixed) == coerced(declared@, value@),
        fixed matches Some(json) ==> is_of_type(declared@, json@),
{
    proof {
        reveal_strlit("string");
        reveal_strlit("integer");
        reveal_strlit("number");
        reveal_strlit("boolean");
        assert("string"@[0] == 's' && "number"@[0] == 'n');
        assert("integer"@[0] == 'i' && "boolean"@[0] == 'b');
    }
    if same_text(declared, "string") {
        return match value {
            Json::Unsigned(n) => Some(Json::Str(decimal_text(*n))),
            Json::Signed(n) => Some(Json::Str(signed_text(*n))),
            Json::Real(r) => Some(Json::Str(r.text())),
            Json::Bool(b) => Some(Json::text(if *b { "true" } else { "false" })),
            _ => None,
        };
    }
    let text = match value {
        Json::Str(s) => {
            let chars = chars_of(s.as_str());
            text_of(trimmed(chars.as_slice()))
        },
        _ => {
            return None;
        },
    };
    let text = text.as_str();
    if same_text(declared, "integer") {
        match read_int(text) {
            Some(n) => Some(Json::Signed(n)),
            None => None,
        }
    } else if same_text(declared, "number") {
        match read_int(text) {
            Some(n) => Some(Json::Signed(n)),
            None => parse_float(text),
        }
    } else if same_text(declared, "boolean") {
        if same_text(text, "true") {
            Some(Json::Bool(true))
        } else if same_text(text, "false") {
            Some(Json::Bool(false))
        } else {
            None
        }
    } else {
        None
    }
}

/// What an argument is coerced to; nothing where it stays as it is.
pub open spec fn argument_coercion(
    declared: Map<Seq<char>, JsonView>,
    key: Seq<char>,
    value: JsonView,
) -> Option<JsonView> {
    match declared_type(declared, key) {
        Some(kind) => if is_of_type(kind, value) {
            None
        } else {
            coerced(kind, value)
        },
        None => None,
    }
}

/// The arguments after the coercion of those under the first `n` keys, and
/// whether any was coerced.
pub open spec fn coerced_arguments(
    arguments: Map<Seq<char>, JsonView>,
    declared: Map<Seq<char>, JsonView>,
    keys: Seq<Seq<char>>,
    n: int,
) -> (Map<Seq<char>, JsonView>, bool)
    decreases n,
{
    if n <= 0 {
        (arguments, false)
    } else {
        let (before, changed) = coerced_arguments(arguments, declared, keys, n - 1);
        match argument_coercion(declared, keys[n - 1], arguments[keys[n - 1]]) {
            Some(fixed) => (before.insert(keys[n - 1], fixed), true),
            None => (before, changed),
        }
    }
}

/// A call with its mistyped scalars coerced; nothing where it stays as it is.
pub open spec fn type_repair(call: CallView, tools: Seq<ToolView>) -> Option<CallView> {
    match find_tool(tools, call.name) {
        Some(tool) => match (properties(tool), arguments_of(call.arguments)) {
            (Some(declared), Some(arguments)) => {
                let keys = sorted_keys(arguments);
                let (fixed, changed) = coerced_arguments(
                    arguments,
                    declared,
                    keys,
                    keys.len() as int,
                );
                if changed {
                    Some(CallView { arguments: json_text(JsonView::Object(fixed)), ..call })
                } else {
                    None
                }
            },
            _ => None,
        },
        None => None,
    }
}

/// Whether an argument is of the type that it is declared with, if it is with
/// any.
pub open spec fn is_typed(
    declared: Map<Seq<char>, JsonView>,
    key: Seq<char>,
    value: JsonView,
) -> bool {
    declared_type(declared, key) matches Some(kind) ==> is_of_type(kind, value)
}

/// The arguments of a call with its mistyped scalars coerced.
pub open spec fn coerced_in(call: CallView, tools: Seq<ToolView>) -> Map<Seq<char>, JsonView> {
    let tool = find_tool(tools, call.name)->0;
    let arguments = arguments_of(call.arguments)->0;
    let keys = sorted_keys(arguments);
    coerced_arguments(arguments, properties(tool)->0, keys, keys.len() as int).0
}

/// Whether nothing is wrong with a call but arguments that can be coerced.
pub open spec fn is_mendable(call: CallView, tools: Seq<ToolView>) -> bool {
    match (find_tool(tools, call.name), arguments_of(call.arguments)) {
        (Some(tool), Some(arguments)) => {
            &&& first_missing(required(tool), 0, arguments) is None
            &&& properties(tool) matches Some(declared) ==> are_mendable(arguments, declared)
        },
        _ => false,
    }
}

/// Whether each argument is of its declared type or can be coerced to it.
pub open spec fn are_mendable(
    arguments: Map<Seq<char>, JsonView>,
    declared: Map<Seq<char>, JsonView>,
) -> bool {
    forall|key: Seq<char>| #[trigger]
        arguments.contains_key(key) ==> is_typed(declared, key, arguments[key])
            || argument_coercion(declared, key, arguments[key]) is Some
}

/// Whether a call stays as it is, or the arguments that it is left with are read
/// back, but for the digits of numbers that are no integers.
pub open spec fn is_kept(call: CallView, tools: Seq<ToolView>) -> bool {
    type_repair(call, tools) is Some ==> is_sound(JsonView::Object(coerced_in(call, tools)), 100)
}

/// What coercion makes of a call: its text reads as the coerced arguments, there
/// is nothing left to coerce, and where nothing else was wrong the call is in
/// order.
pub open spec fn is_settled(before: CallView, after: CallView, tools: Seq<ToolView>) -> bool {
    &&& type_repair(before, tools) is Some && reads_back(
        JsonView::Object(coerced_in(before, tools)),
    ) ==> arguments_of(after.arguments) == Some(coerced_in(before, tools))
    &&& is_kept(before, tools) ==> type_repair(after, tools) is None
    &&& is_kept(before, tools) && is_mendable(before, tools) ==> problem(after, tools) is None
}

/// How types are repaired, given the tools.
pub open spec fn types_repair(tools: Seq<ToolView>) -> spec_fn(CallView) -> Option<CallView> {
    |c: CallView| type_repair(c, tools)
}

fn coerce_call(call: &ToolCall, tools: &[Tool]) -> (mended: Option<String>)
    ensures
        match mended {
            Some(arguments) => {
                let after = CallView { arguments: arguments@, ..call@ };
                &&& type_repair(call@, tool_views(tools@)) == Some(after)
                &&& is_settled(call@, after, tool_views(tools@))
            },
            None => {
                &&& type_repair(call@, tool_views(tools@)) is None
                &&& is_settled(call@, call@, tool_views(tools@))
            },
        },
{
    let tool = match tool_named(tools, call.name.as_str()) {
        Some(tool) => tool,
        None => {
            return None;
        },
    };
    let declared = match parameter_properties(tool) {
        Some(declared) => declared,
        None => {
            return None;
        },
    };
    let arguments = match arguments_object(call.arguments.as_str()) {
        Some(arguments) => arguments,
        None => {
            return None;
        },
    };
    let ghost keys = sorted_keys(arguments@);
    let n: usize = arguments.len();
    let mut result = arguments.clone();
    let mut changed: bool = false;
    for i in 0..n
        invariant
            keys == sorted_keys(arguments@),
            n == keys.len(),
            lists(keys, arguments@),
            coerced_arguments(arguments@, declared@, keys, i as int) == (result@, changed),
            result@.dom() == arguments@.dom(),
            !changed ==> result@ == arguments@,
            forall|j: int| i <= j < n ==> result@[#[trigger] keys[j]] == arguments@[keys[j]],
            forall|j: int|
                0 <= j < i ==> argument_coercion(
                    declared@,
                    #[trigger] keys[j],
                    result@[keys[j]],
                ) is None,
            are_mendable(arguments@, declared@) ==> forall|j: int|
                0 <= j < i ==> is_typed(declared@, #[trigger] keys[j], result@[keys[j]]),
    {
        let ghost earlier = result@;
        let (key, value) = arguments.entry(i);
        proof {
            assert(keys.contains(key@));
            assert forall|j: int| 0 <= j < n && j != i implies #[trigger] keys[j] != key@ by {
                before_is_total(key@, key@);
            }
        }
        if let Some(kind) = type_of_property(declared, key) {
            if !type_matches(kind, value) {
                if let Some(fixed) = coerce_scalar(kind, value) {
                    result.insert(key, fixed);
                    changed = true;
                    assert(result@.dom() =~= earlier.dom());
                }
            }
        }
    }
    if changed {
        let text = render(&Json::Object(result));
        proof {
            if is_sound(JsonView::Object(result@), 100) {
                let read = arguments_of(text@)->0;
                settled(arguments@, result@, read, declared@, required(tool@));
            }
        }
        Some(text)
    } else {
        proof {
            settled(arguments@, arguments@, arguments@, declared@, required(tool@));
        }
        None
    }
}

/// Arguments that are like those that coercion leaves are left as they are, and
/// in order where nothing else was wrong.
proof fn settled(
    arguments: Map<Seq<char>, JsonView>,
    coerced: Map<Seq<char>, JsonView>,
    read: Map<Seq<char>, JsonView>,
    declared: Map<Seq<char>, JsonView>,
    names: Seq<Seq<char>>,
)
    requires
        lists(sorted_keys(arguments), arguments),
        arguments.dom() == coerced.dom(),
        coerced.dom() == read.dom(),
        read == coerced || is_alike(JsonView::Object(read), JsonView::Object(coerced), 100),
        forall|j: int|
            0 <= j < sorted_keys(arguments).len() ==> argument_coercion(
                declared,
                #[trigger] sorted_keys(arguments)[j],
                coerced[sorted_keys(arguments)[j]],
            ) is None,
        are_mendable(arguments, declared) ==> forall|j: int|
            0 <= j < sorted_keys(arguments).len() ==> is_typed(
                declared,
                #[trigger] sorted_keys(arguments)[j],
                coerced[sorted_keys(arguments)[j]],
            ),
    ensures
        ({
            let keys = sorted_keys(read);
            &&& coerced_arguments(read, declared, keys, keys.len() as int) == (read, false)
            &&& are_mendable(arguments, declared) ==> first_mistyped(keys, 0, read, declared) is None
            &&& first_missing(names, 0, arguments) is None ==> first_missing(names, 0, read) is None
        }),
{
    same_names_same_order(arguments, read);
    let keys = sorted_keys(arguments);
    assert forall|j: int| 0 <= j < keys.len() implies argument_coercion(
        declared,
        #[trigger] keys[j],
        read[keys[j]],
    ) is None && (is_typed(declared, keys[j], coerced[keys[j]]) ==> is_typed(
        declared,
        keys[j],
        read[keys[j]],
    )) by {
        assert(keys.contains(keys[j]));
        assert(arguments.dom().contains(keys[j]));
        assert(read.contains_key(keys[j]));
        assert(argument_coercion(declared, keys[j], coerced[keys[j]]) is None);
        assert(read == coerced || is_alike(read[keys[j]], coerced[keys[j]], 99));
    }
    nothing_to_coerce(read, declared, keys, keys.len() as int);
    if are_mendable(arguments, declared) {
        nothing_mistyped(keys, 0, read, declared);
    }
    if first_missing(names, 0, arguments) is None {
        nothing_lost(names, 0, arguments, read);
    }
}

proof fn nothing_mistyped(
    keys: Seq<Seq<char>>,
    from: int,
    arguments: Map<Seq<char>, JsonView>,
    declared: Map<Seq<char>, JsonView>,
)
    requires
        0 <= from,
        forall|j: int|
            0 <= j < keys.len() ==> is_typed(declared, #[trigger] keys[j], arguments[keys[j]]),
    ensures
        first_mistyped(keys, from, arguments, declared) is None,
    decreases keys.len() - from,
{
    if from < keys.len() {
        assert(is_typed(declared, keys[from], arguments[keys[from]]));
        nothing_mistyped(keys, from + 1, arguments, declared);
    }
}

proof fn nothing_lost(
    names: Seq<Seq<char>>,
    from: int,
    arguments: Map<Seq<char>, JsonView>,
    others: Map<Seq<char>, JsonView>,
)
    requires
        0 <= from,
        arguments.dom() == others.dom(),
        first_missing(names, from, arguments) is None,
    ensures
        first_missing(names, from, others) is None,
    decreases names.len() - from,
{
    if from < names.len() {
        assert(arguments.dom().contains(names[from]) == others.dom().contains(names[from]));
        nothing_lost(names, from + 1, arguments, others);
    }
}

/// Coerces scalar arguments that are plainly of the wrong type to the declared
/// one. Says whether any call changed. The text of a call that did reads as the
/// coerced arguments. A second time there is nothing to coerce, and calls with
/// which nothing else was wrong are in order.
pub fn coerce_arguments(calls: &mut Vec<ToolCall>, tools: &[Tool]) -> (changed: bool)
    ensures
        call_views(final(calls)@) == repaired_calls(
            call_views(old(calls)@),
            types_repair(tool_views(tools@)),
        ),
        changed == any_repaired(call_views(old(calls)@), types_repair(tool_views(tools@))),
        forall|i: int|
            0 <= i < old(calls)@.len() ==> is_settled(
                (#[trigger] old(calls)@[i])@,
                final(calls)@[i]@,
                tool_views(tools@),
            ),
        (forall|i: int|
            0 <= i < old(calls)@.len() ==> is_kept(
                (#[trigger] old(calls)@[i])@,
                tool_views(tools@),
            )) ==> !any_repaired(call_views(final(calls)@), types_repair(tool_views(tools@))),
        (forall|i: int|
            0 <= i < old(calls)@.len() ==> is_kept(
                (#[trigger] old(calls)@[i])@,
                tool_views(tools@),
            ) && is_mendable(old(calls)@[i]@, tool_views(tools@))) ==> validation(
            call_views(final(calls)@),
            tool_views(tools@),
        ) is Valid,
{
    let ghost before = call_views(calls@);
    let ghost repair = types_repair(tool_views(tools@));
    let mut changed: bool = false;
    let n: usize = calls.len();
    for i in 0..n
        invariant
            n == calls@.len(),
            before.len() == n,
            before == call_views(old(calls)@),
            repair == types_repair(tool_views(tools@)),
            forall|k: int|
                0 <= k < i ==> (#[trigger] calls@[k])@ == repaired_calls(before, repair)[k],
            forall|k: int| i <= k < n ==> (#[trigger] calls@[k])@ == before[k],
            forall|k: int|
                0 <= k < i ==> is_settled(#[trigger] before[k], calls@[k]@, tool_views(tools@)),
            changed == exists|k: int| 0 <= k < i && repair(#[trigger] before[k]) is Some,
    {
        let mended = coerce_call(&calls[i], tools);
        assert(repair(before[i as int]) == type_repair(before[i as int], tool_views(tools@)));
        if let Some(arguments) = mended {
            let fixed = ToolCall {
                id: super::decode::copy_text(&calls[i].id),
                name: calls[i].name.clone(),
                arguments,
            };
            calls.set(i, fixed);
            changed = true;
        }
    }
    proof {
        let all = tool_views(tools@);
        let after = call_views(calls@);
        assert(after =~= repaired_calls(before, repair));
        assert forall|i: int| 0 <= i < n implies is_settled(
            (#[trigger] old(calls)@[i])@,
            calls@[i]@,
            all,
        ) by {
            assert(before[i] == old(calls)@[i]@);
        }
        if forall|i: int| 0 <= i < n ==> is_kept((#[trigger] old(calls)@[i])@, all) {
            assert forall|i: int| 0 <= i < n implies repair(#[trigger] after[i]) is None by {
                assert(is_kept(old(calls)@[i]@, all));
            }
            if forall|i: int| 0 <= i < n ==> is_mendable((#[trigger] old(calls)@[i])@, all) {
                assert forall|i: int| 0 <= i < n implies problem(#[trigger] after[i], all) is None by {
                    assert(is_mendable(old(calls)@[i]@, all));
                }
                valid_means_no_problem(after, all);
            }
        }
    }
    changed
}

// ── laws ────────────────────────────────────────────────────────────────────

proof fn nothing_missing(names: Seq<Seq<char>>, arguments: Map<Seq<char>, JsonView>, n: int)
    requires
        0 <= n <= names.len(),
        first_missing(names, 0, arguments) is None,
    ensures
        missing_of(names, arguments, n) == Seq::<Seq<char>>::empty(),
    decreases n,
{
    if n > 0 {
        nothing_missing(names, arguments, n - 1);
        present_from(names, 0, arguments, n - 1);
    }
}

proof fn present_from(
    names: Seq<Seq<char>>,
    from: int,
    arguments: Map<Seq<char>, JsonView>,
    i: int,
)
    requires
        0 <= from <= i < names.len(),
        first_missing(names, from, arguments) is None,
    ensures
        arguments.contains_key(names[i]),
    decreases i - from,
{
    if from < i {
        present_from(names, from + 1, arguments, i);
    }
}

proof fn nothing_to_rename(unknown: Seq<Seq<char>>, n: int)
    ensures
        renames_of(unknown, Seq::empty(), n) == Seq::<RenameView>::empty(),
    decreases n,
{
    if n > 0 {
        nothing_to_rename(unknown, n - 1);
    }
}

proof fn typed_from(
    keys: Seq<Seq<char>>,
    from: int,
    arguments: Map<Seq<char>, JsonView>,
    declared: Map<Seq<char>, JsonView>,
    i: int,
)
    requires
        0 <= from <= i < keys.len(),
        first_mistyped(keys, from, arguments, declared) is None,
    ensures
        argument_coercion(declared, keys[i], arguments[keys[i]]) is None,
    decreases i - from,
{
    if from < i {
        typed_from(keys, from + 1, arguments, declared, i);
    }
}

proof fn nothing_to_coerce(
    arguments: Map<Seq<char>, JsonView>,
    declared: Map<Seq<char>, JsonView>,
    keys: Seq<Seq<char>>,
    n: int,
)
    requires
        0 <= n <= keys.len(),
        forall|j: int|
            0 <= j < n ==> argument_coercion(declared, #[trigger] keys[j], arguments[keys[j]]) is None,
    ensures
        coerced_arguments(arguments, declared, keys, n) == (arguments, false),
    decreases n,
{
    if n > 0 {
        nothing_to_coerce(arguments, declared, keys, n - 1);
        assert(argument_coercion(declared, keys[n - 1], arguments[keys[n - 1]]) is None);
    }
}

/// A call that is in order is never touched by either repair.
pub proof fn a_valid_call_is_untouched(call: CallView, tools: Seq<ToolView>)
    requires
        problem(call, tools) is None,
    ensures
        name_repair(call, tools) is None,
        type_repair(call, tools) is None,
{
    let tool = find_tool(tools, call.name)->0;
    let arguments = arguments_of(call.arguments)->0;
    if let Some(declared) = properties(tool) {
        let names = required(tool);
        nothing_missing(names, arguments, names.len() as int);
        let keys = sorted_keys(arguments);
        let unknown = unknown_of(keys, declared, keys.len() as int);
        nothing_to_rename(unknown, unknown.len() as int);
        assert forall|j: int| 0 <= j < keys.len() implies argument_coercion(
            declared,
            #[trigger] keys[j],
            arguments[keys[j]],
        ) is None by {
            typed_from(keys, 0, arguments, declared, j);
        }
        nothing_to_coerce(arguments, declared, keys, keys.len() as int);
    }
}

proof fn sources_are_unknown(
    keys: Seq<Seq<char>>,
    declared: Map<Seq<char>, JsonView>,
    n: int,
    i: int,
)
    requires
        0 <= i < unknown_of(keys, declared, n).len(),
    ensures
        !declared.contains_key(unknown_of(keys, declared, n)[i]),
    decreases n,
{
    if n > 0 {
        let before = unknown_of(keys, declared, n - 1);
        if i < before.len() {
            sources_are_unknown(keys, declared, n - 1, i);
        }
    }
}

proof fn rename_sources(unknown: Seq<Seq<char>>, missing: Seq<Seq<char>>, n: int, i: int) -> (j: int)
    requires
        0 <= n <= unknown.len(),
        0 <= i < renames_of(unknown, missing, n).len(),
    ensures
        0 <= j < unknown.len(),
        renames_of(unknown, missing, n)[i].0 == unknown[j],
    decreases n,
{
    let before = renames_of(unknown, missing, n - 1);
    if i < before.len() {
        rename_sources(unknown, missing, n - 1, i)
    } else {
        n - 1
    }
}

proof fn renaming_keeps(
    arguments: Map<Seq<char>, JsonView>,
    renames: Seq<RenameView>,
    n: int,
    key: Seq<char>,
)
    requires
        0 <= n <= renames.len(),
        arguments.contains_key(key),
        forall|i: int| 0 <= i < renames.len() ==> (#[trigger] renames[i]).0 != key,
    ensures
        renamed(arguments, renames, n).0.contains_key(key),
        renamed(arguments, renames, n).0[key] == arguments[key],
    decreases n,
{
    if n > 0 {
        renaming_keeps(arguments, renames, n - 1, key);
        assert(renames[n - 1].0 != key);
    }
}

/// Name repair keeps every argument that names a declared property, with its
/// value: it never overwrites one.
pub proof fn name_repair_keeps_declared(
    arguments: Map<Seq<char>, JsonView>,
    names: Seq<Seq<char>>,
    declared: Map<Seq<char>, JsonView>,
    key: Seq<char>,
)
    requires
        arguments.contains_key(key),
        declared.contains_key(key),
    ensures
        mended_names(arguments, names, declared).0.contains_key(key),
        mended_names(arguments, names, declared).0[key] == arguments[key],
{
    let missing = missing_of(names, arguments, names.len() as int);
    let keys = sorted_keys(arguments);
    let unknown = unknown_of(keys, declared, keys.len() as int);
    let renames = renames_of(unknown, missing, unknown.len() as int);
    assert forall|i: int| 0 <= i < renames.len() implies (#[trigger] renames[i]).0 != key by {
        let j = rename_sources(unknown, missing, unknown.len() as int, i);
        sources_are_unknown(keys, declared, keys.len() as int, j);
    }
    renaming_keeps(arguments, renames, renames.len() as int, key);
}

proof fn missing_is_missing(
    names: Seq<Seq<char>>,
    arguments: Map<Seq<char>, JsonView>,
    n: int,
    i: int,
)
    requires
        0 <= n <= names.len(),
        0 <= i < missing_of(names, arguments, n).len(),
    ensures
        names.contains(missing_of(names, arguments, n)[i]),
        !arguments.contains_key(missing_of(names, arguments, n)[i]),
    decreases n,
{
    if n > 0 {
        if i < missing_of(names, arguments, n - 1).len() {
            missing_is_missing(names, arguments, n - 1, i);
        } else {
            assert(names[n - 1] == missing_of(names, arguments, n)[i]);
        }
    }
}

proof fn hits_are_missing(key: Seq<char>, missing: Seq<Seq<char>>, n: int, i: int) -> (j: int)
    requires
        0 <= n <= missing.len(),
        0 <= i < hits(key, missing, n).len(),
    ensures
        0 <= j < missing.len(),
        hits(key, missing, n)[i] == missing[j],
        normalized(missing[j]) == normalized(key),
    decreases n,
{
    if i < hits(key, missing, n - 1).len() {
        hits_are_missing(key, missing, n - 1, i)
    } else {
        n - 1
    }
}

proof fn rename_targets(unknown: Seq<Seq<char>>, missing: Seq<Seq<char>>, n: int, i: int) -> (j: int)
    requires
        0 <= n <= unknown.len(),
        0 <= i < renames_of(unknown, missing, n).len(),
    ensures
        0 <= j < missing.len(),
        renames_of(unknown, missing, n)[i].1 == missing[j],
        normalized(missing[j]) == normalized(renames_of(unknown, missing, n)[i].0),
    decreases n,
{
    if i < renames_of(unknown, missing, n - 1).len() {
        rename_targets(unknown, missing, n - 1, i)
    } else {
        hits_are_missing(unknown[n - 1], missing, missing.len() as int, 0)
    }
}

proof fn unknown_is_given(
    keys: Seq<Seq<char>>,
    declared: Map<Seq<char>, JsonView>,
    n: int,
    i: int,
)
    requires
        0 <= n <= keys.len(),
        0 <= i < unknown_of(keys, declared, n).len(),
    ensures
        keys.contains(unknown_of(keys, declared, n)[i]),
    decreases n,
{
    if n > 0 {
        if i < unknown_of(keys, declared, n - 1).len() {
            unknown_is_given(keys, declared, n - 1, i);
        } else {
            assert(keys[n - 1] == unknown_of(keys, declared, n)[i]);
        }
    }
}

/// Whether a key may be given the name of a field: it names no declared property,
/// the field is required and missing, and the two differ in style alone.
pub open spec fn is_rename(
    arguments: Map<Seq<char>, JsonView>,
    names: Seq<Seq<char>>,
    declared: Map<Seq<char>, JsonView>,
    rename: RenameView,
) -> bool {
    &&& arguments.contains_key(rename.0)
    &&& !declared.contains_key(rename.0)
    &&& names.contains(rename.1)
    &&& !arguments.contains_key(rename.1)
    &&& normalized(rename.0) == normalized(rename.1)
}

/// Whether a field holds the value of a key that may be given its name.
pub open spec fn is_filled(
    arguments: Map<Seq<char>, JsonView>,
    names: Seq<Seq<char>>,
    declared: Map<Seq<char>, JsonView>,
    key: Seq<char>,
    value: JsonView,
) -> bool {
    exists|source: Seq<char>| #[trigger]
        is_rename(arguments, names, declared, (source, key)) && value == arguments[source]
}

proof fn renames_are_such(
    arguments: Map<Seq<char>, JsonView>,
    names: Seq<Seq<char>>,
    declared: Map<Seq<char>, JsonView>,
)
    requires
        lists(sorted_keys(arguments), arguments),
    ensures
        ({
            let missing = missing_of(names, arguments, names.len() as int);
            let keys = sorted_keys(arguments);
            let unknown = unknown_of(keys, declared, keys.len() as int);
            let renames = renames_of(unknown, missing, unknown.len() as int);
            forall|i: int|
                0 <= i < renames.len() ==> is_rename(
                    arguments,
                    names,
                    declared,
                    #[trigger] renames[i],
                )
        }),
{
    let missing = missing_of(names, arguments, names.len() as int);
    let keys = sorted_keys(arguments);
    let unknown = unknown_of(keys, declared, keys.len() as int);
    let renames = renames_of(unknown, missing, unknown.len() as int);
    assert forall|i: int| 0 <= i < renames.len() implies is_rename(
        arguments,
        names,
        declared,
        #[trigger] renames[i],
    ) by {
        let j = rename_sources(unknown, missing, unknown.len() as int, i);
        sources_are_unknown(keys, declared, keys.len() as int, j);
        unknown_is_given(keys, declared, keys.len() as int, j);
        let k = rename_targets(unknown, missing, unknown.len() as int, i);
        missing_is_missing(names, arguments, names.len() as int, k);
    }
}

proof fn renaming_only_renames(
    arguments: Map<Seq<char>, JsonView>,
    names: Seq<Seq<char>>,
    declared: Map<Seq<char>, JsonView>,
    renames: Seq<RenameView>,
    n: int,
    key: Seq<char>,
)
    requires
        0 <= n <= renames.len(),
        forall|i: int|
            0 <= i < renames.len() ==> is_rename(
                arguments,
                names,
                declared,
                #[trigger] renames[i],
            ),
        renamed(arguments, renames, n).0.contains_key(key),
    ensures
        ({
            let value = renamed(arguments, renames, n).0[key];
            ||| arguments.contains_key(key) && value == arguments[key]
            ||| is_filled(arguments, names, declared, key, value)
        }),
    decreases n,
{
    if n > 0 {
        let (before, _) = renamed(arguments, renames, n - 1);
        let (source, target) = renames[n - 1];
        assert(is_rename(arguments, names, declared, renames[n - 1]));
        if before.contains_key(key) {
            renaming_only_renames(arguments, names, declared, renames, n - 1, key);
        }
        if before.contains_key(source) {
            renaming_only_renames(arguments, names, declared, renames, n - 1, source);
            assert(before[source] == arguments[source]);
        }
    }
}

/// Name repair only renames: an argument that it leaves is one that was given, or
/// a required field that was missing, with the value of a key that names no
/// declared property and differs from the field in style alone.
pub proof fn name_repair_only_renames(
    arguments: Map<Seq<char>, JsonView>,
    names: Seq<Seq<char>>,
    declared: Map<Seq<char>, JsonView>,
    key: Seq<char>,
)
    requires
        lists(sorted_keys(arguments), arguments),
        mended_names(arguments, names, declared).0.contains_key(key),
    ensures
        ({
            let value = mended_names(arguments, names, declared).0[key];
            ||| arguments.contains_key(key) && value == arguments[key]
            ||| is_filled(arguments, names, declared, key, value)
        }),
{
    let missing = missing_of(names, arguments, names.len() as int);
    let keys = sorted_keys(arguments);
    let unknown = unknown_of(keys, declared, keys.len() as int);
    let renames = renames_of(unknown, missing, unknown.len() as int);
    renames_are_such(arguments, names, declared);
    renaming_only_renames(arguments, names, declared, renames, renames.len() as int, key);
}

proof fn hits_of_prefix(key: Seq<char>, a: Seq<Seq<char>>, b: Seq<Seq<char>>, n: int)
    requires
        0 <= n <= a.len(),
        n <= b.len(),
        forall|i: int| 0 <= i < n ==> #[trigger] a[i] == b[i],
    ensures
        hits(key, a, n) == hits(key, b, n),
    decreases n,
{
    if n > 0 {
        hits_of_prefix(key, a, b, n - 1);
        assert(a[n - 1] == b[n - 1]);
    }
}

/// Whether the required field at a place is the only missing one that a key names
/// in another style.
pub open spec fn is_only_field(
    arguments: Map<Seq<char>, JsonView>,
    names: Seq<Seq<char>>,
    key: Seq<char>,
    at: int,
) -> bool {
    forall|i: int|
        0 <= i < names.len() && !arguments.contains_key(#[trigger] names[i]) && normalized(names[i])
            == normalized(key) ==> i == at
}

/// Whether a key is the only one that names no declared property and has its
/// letters.
pub open spec fn is_only_key(
    arguments: Map<Seq<char>, JsonView>,
    declared: Map<Seq<char>, JsonView>,
    key: Seq<char>,
) -> bool {
    forall|other: Seq<char>| #[trigger]
        arguments.contains_key(other) && !declared.contains_key(other) && normalized(other)
            == normalized(key) ==> other == key
}

proof fn one_hit(
    arguments: Map<Seq<char>, JsonView>,
    names: Seq<Seq<char>>,
    key: Seq<char>,
    at: int,
    n: int,
)
    requires
        0 <= n <= names.len(),
        0 <= at < names.len(),
        !arguments.contains_key(names[at]),
        normalized(names[at]) == normalized(key),
        is_only_field(arguments, names, key, at),
    ensures
        ({
            let missing = missing_of(names, arguments, n);
            hits(key, missing, missing.len() as int) == (if at < n {
                seq![names[at]]
            } else {
                Seq::empty()
            })
        }),
    decreases n,
{
    if n > 0 {
        one_hit(arguments, names, key, at, n - 1);
        let fewer = missing_of(names, arguments, n - 1);
        let missing = missing_of(names, arguments, n);
        if !arguments.contains_key(names[n - 1]) {
            hits_of_prefix(key, missing, fewer, fewer.len() as int);
            assert(hits(key, missing, missing.len() as int) =~= (if at < n {
                seq![names[at]]
            } else {
                Seq::empty()
            }));
        }
    }
}

proof fn place_among_unknown(
    keys: Seq<Seq<char>>,
    declared: Map<Seq<char>, JsonView>,
    n: int,
    at: int,
) -> (j: int)
    requires
        0 <= at < n <= keys.len(),
        !declared.contains_key(keys[at]),
    ensures
        0 <= j < unknown_of(keys, declared, n).len(),
        unknown_of(keys, declared, n)[j] == keys[at],
    decreases n,
{
    if at == n - 1 {
        unknown_of(keys, declared, n).len() - 1
    } else {
        place_among_unknown(keys, declared, n - 1, at)
    }
}

proof fn unknown_is_distinct(keys: Seq<Seq<char>>, declared: Map<Seq<char>, JsonView>, n: int)
    requires
        0 <= n <= keys.len(),
        keys.no_duplicates(),
    ensures
        unknown_of(keys, declared, n).no_duplicates(),
        forall|i: int|
            0 <= i < unknown_of(keys, declared, n).len() ==> exists|k: int|
                0 <= k < n && keys[k] == #[trigger] unknown_of(keys, declared, n)[i],
    decreases n,
{
    if n > 0 {
        unknown_is_distinct(keys, declared, n - 1);
        let fewer = unknown_of(keys, declared, n - 1);
        let all = unknown_of(keys, declared, n);
        assert forall|i: int| 0 <= i < all.len() implies exists|k: int|
            0 <= k < n && keys[k] == #[trigger] all[i] by {
            if i < fewer.len() {
                assert(all[i] == fewer[i]);
                let k = choose|k: int| 0 <= k < n - 1 && keys[k] == fewer[i];
                assert(keys[k] == all[i]);
            } else {
                assert(keys[n - 1] == all[i]);
            }
        }
        assert forall|i: int, j: int| 0 <= i < j < all.len() implies all[i] != all[j] by {
            if j == fewer.len() {
                assert(all[i] == fewer[i]);
                let k = choose|k: int| 0 <= k < n - 1 && keys[k] == fewer[i];
                assert(keys[k] != keys[n - 1]);
            } else {
                assert(all[i] == fewer[i] && all[j] == fewer[j]);
            }
        }
    }
}

proof fn place_among_renames(
    unknown: Seq<Seq<char>>,
    missing: Seq<Seq<char>>,
    n: int,
    at: int,
) -> (i: int)
    requires
        0 <= at < n <= unknown.len(),
        hits(unknown[at], missing, missing.len() as int).len() == 1,
    ensures
        0 <= i < renames_of(unknown, missing, n).len(),
        renames_of(unknown, missing, n)[i] == (
            unknown[at],
            hits(unknown[at], missing, missing.len() as int)[0],
        ),
    decreases n,
{
    if at == n - 1 {
        renames_of(unknown, missing, n).len() - 1
    } else {
        place_among_renames(unknown, missing, n - 1, at)
    }
}

proof fn sources_are_distinct(unknown: Seq<Seq<char>>, missing: Seq<Seq<char>>, n: int)
    requires
        0 <= n <= unknown.len(),
        unknown.no_duplicates(),
    ensures
        forall|i: int, j: int|
            0 <= i < j < renames_of(unknown, missing, n).len() ==> (#[trigger] renames_of(
                unknown,
                missing,
                n,
            )[i]).0 != (#[trigger] renames_of(unknown, missing, n)[j]).0,
        forall|i: int|
            0 <= i < renames_of(unknown, missing, n).len() ==> exists|k: int|
                0 <= k < n && unknown[k] == (#[trigger] renames_of(unknown, missing, n)[i]).0,
    decreases n,
{
    if n > 0 {
        sources_are_distinct(unknown, missing, n - 1);
        let fewer = renames_of(unknown, missing, n - 1);
        let all = renames_of(unknown, missing, n);
        assert forall|i: int| 0 <= i < all.len() implies exists|k: int|
            0 <= k < n && unknown[k] == (#[trigger] all[i]).0 by {
            if i < fewer.len() {
                assert(all[i] == fewer[i]);
                let k = choose|k: int| 0 <= k < n - 1 && unknown[k] == fewer[i].0;
                assert(unknown[k] == all[i].0);
            } else {
                assert(unknown[n - 1] == all[i].0);
            }
        }
        assert forall|i: int, j: int| 0 <= i < j < all.len() implies (#[trigger] all[i]).0 != (
        #[trigger] all[j]).0 by {
            assert(all[i] == fewer[i]);
            if j == fewer.len() {
                let k = choose|k: int| 0 <= k < n - 1 && unknown[k] == fewer[i].0;
                assert(unknown[k] != unknown[n - 1]);
            } else {
                assert(all[j] == fewer[j]);
            }
        }
    }
}

proof fn sole_rename_is_made(
    arguments: Map<Seq<char>, JsonView>,
    names: Seq<Seq<char>>,
    declared: Map<Seq<char>, JsonView>,
    renames: Seq<RenameView>,
    i: int,
    n: int,
)
    requires
        0 <= i < renames.len(),
        0 <= n <= renames.len(),
        is_sole(renames, i),
        forall|k: int|
            0 <= k < renames.len() ==> is_rename(
                arguments,
                names,
                declared,
                #[trigger] renames[k],
            ),
        forall|k: int|
            0 <= k < renames.len() && k != i ==> (#[trigger] renames[k]).0 != renames[i].0,
    ensures
        ({
            let (source, target) = renames[i];
            let (after, changed) = renamed(arguments, renames, n);
            if i < n {
                changed && after.contains_key(target) && after[target] == arguments[source]
                    && !after.contains_key(source)
            } else {
                !after.contains_key(target) && after.contains_key(source) && after[source]
                    == arguments[source]
            }
        }),
    decreases n,
{
    assert(is_rename(arguments, names, declared, renames[i]));
    if n > 0 {
        sole_rename_is_made(arguments, names, declared, renames, i, n - 1);
        assert(is_rename(arguments, names, declared, renames[n - 1]));
        if n - 1 != i {
            assert(renames[n - 1].0 != renames[i].0);
            assert(renames[n - 1].1 != renames[i].1);
        }
    }
}

/// A required field that is missing is filled where there is one way to do it:
/// where one key alone names it in another style, and it alone is what that key
/// names.
pub proof fn an_unambiguous_key_is_renamed(
    arguments: Map<Seq<char>, JsonView>,
    names: Seq<Seq<char>>,
    declared: Map<Seq<char>, JsonView>,
    key: Seq<char>,
    at: int,
)
    requires
        lists(sorted_keys(arguments), arguments),
        0 <= at < names.len(),
        is_rename(arguments, names, declared, (key, names[at])),
        is_only_field(arguments, names, key, at),
        is_only_key(arguments, declared, key),
    ensures
        ({
            let (mended, changed) = mended_names(arguments, names, declared);
            &&& changed
            &&& mended.contains_key(names[at])
            &&& mended[names[at]] == arguments[key]
            &&& !mended.contains_key(key)
        }),
{
    let missing = missing_of(names, arguments, names.len() as int);
    let keys = sorted_keys(arguments);
    let unknown = unknown_of(keys, declared, keys.len() as int);
    let renames = renames_of(unknown, missing, unknown.len() as int);
    one_hit(arguments, names, key, at, names.len() as int);
    assert(keys.contains(key));
    let k = choose|k: int| 0 <= k < keys.len() && keys[k] == key;
    let j = place_among_unknown(keys, declared, keys.len() as int, k);
    let i = place_among_renames(unknown, missing, unknown.len() as int, j);
    assert(renames[i] == (key, names[at]));
    assert forall|x: int, y: int| 0 <= x < y < keys.len() implies keys[x] != keys[y] by {
        before_is_total(keys[x], keys[x]);
    }
    unknown_is_distinct(keys, declared, keys.len() as int);
    sources_are_distinct(unknown, missing, unknown.len() as int);
    renames_are_such(arguments, names, declared);
    assert forall|x: int| 0 <= x < renames.len() && x != i implies (#[trigger] renames[x]).0
        != renames[i].0 && renames[x].1 != renames[i].1 by {
        assert(is_rename(arguments, names, declared, renames[x]));
        if x < i {
            assert(renames[x].0 != renames[i].0);
        } else {
            assert(renames[i].0 != renames[x].0);
        }
        if renames[x].1 == renames[i].1 {
            assert(normalized(renames[x].0) == normalized(key));
            assert(arguments.contains_key(renames[x].0));
        }
    }
    sole_rename_is_made(arguments, names, declared, renames, i, renames.len() as int);
}

proof fn type_names_differ()
    ensures
        "string"@ != "number"@,
        "string"@ != "integer"@,
        "string"@ != "boolean"@,
        "string"@ != "object"@,
        "string"@ != "array"@,
        "string"@ != "null"@,
        "number"@ != "integer"@,
        "number"@ != "boolean"@,
        "number"@ != "object"@,
        "number"@ != "array"@,
        "number"@ != "null"@,
        "integer"@ != "boolean"@,
        "integer"@ != "object"@,
        "integer"@ != "array"@,
        "integer"@ != "null"@,
        "boolean"@ != "object"@,
        "boolean"@ != "array"@,
        "boolean"@ != "null"@,
        "object"@ != "array"@,
        "object"@ != "null"@,
        "array"@ != "null"@,
{
    reveal_strlit("string");
    reveal_strlit("number");
    reveal_strlit("integer");
    reveal_strlit("boolean");
    reveal_strlit("object");
    reveal_strlit("array");
    reveal_strlit("null");
    assert("string"@[0] == 's' && "number"@[0] == 'n' && "integer"@[0] == 'i');
    assert("boolean"@[0] == 'b' && "object"@[0] == 'o' && "array"@[0] == 'a');
    assert("null"@[0] == 'n' && "null"@.len() == 4 && "number"@.len() == 6);
}

/// A value fits a schema type by its kind: an integer is a number too, and a
/// type that is none of the seven is met by all.
pub proof fn kinds_fit_their_types(value: JsonView, other: Seq<char>)
    requires
        other != "string"@ && other != "number"@ && other != "integer"@ && other != "boolean"@,
        other != "object"@ && other != "array"@ && other != "null"@,
    ensures
        is_of_type("string"@, value) <==> value is Str,
        is_of_type("number"@, value) <==> value is Int || value is Real,
        is_of_type("integer"@, value) <==> value is Int,
        is_of_type("boolean"@, value) <==> value is Bool,
        is_of_type("object"@, value) <==> value is Object,
        is_of_type("array"@, value) <==> value is Array,
        is_of_type("null"@, value) <==> value is Null,
        is_of_type(other, value),
{
    type_names_differ();
}

/// Coercion keeps what a scalar says. A text that is coerced says it apart from
/// the whitespace around it: `true` and `false` are the booleans, a decimal
/// integer is that integer, and any other number is the one that it denotes. What
/// is coerced to a text is written out.
pub proof fn coercion_keeps_the_meaning(s: Seq<char>, value: JsonView)
    ensures
        coerced("boolean"@, JsonView::Str(s)) == Some(JsonView::Bool(true)) <==> trim(s)
            == "true"@,
        coerced("boolean"@, JsonView::Str(s)) == Some(JsonView::Bool(false)) <==> trim(s)
            == "false"@,
        coerced("boolean"@, JsonView::Str(s)) is None <==> trim(s) != "true"@ && trim(s)
            != "false"@,
        forall|n: int| #[trigger]
            int_of(trim(s)) == Some(n) ==> coerced("integer"@, JsonView::Str(s)) == Some(
                JsonView::Int(n),
            ) && coerced("number"@, JsonView::Str(s)) == Some(JsonView::Int(n)),
        int_of(trim(s)) is None ==> coerced("integer"@, JsonView::Str(s)) is None,
        int_of(trim(s)) is None ==> coerced("number"@, JsonView::Str(s)) == float_of(trim(s)),
        match value {
            JsonView::Int(n) => coerced("string"@, value) == Some(
                JsonView::Str(signed_decimal(n)),
            ),
            JsonView::Real(text) => coerced("string"@, value) == Some(JsonView::Str(text)),
            JsonView::Bool(b) => coerced("string"@, value) == Some(
                JsonView::Str(if b { "true"@ } else { "false"@ }),
            ),
            _ => coerced("string"@, value) is None,
        },
{
    type_names_differ();
    reveal_strlit("true");
    reveal_strlit("false");
    assert("true"@.len() == 4 && "false"@.len() == 5);
}

/// Only scalars are coerced, only to scalar types, and between those only from a
/// text or to one.
pub proof fn only_scalars_are_coerced(declared: Seq<char>, value: JsonView)
    ensures
        value is Null || value is Array || value is Object ==> coerced(declared, value) is None,
        declared != "string"@ && declared != "integer"@ && declared != "number"@ && declared
            != "boolean"@ ==> coerced(declared, value) is None,
        declared != "string"@ && !(value is Str) ==> coerced(declared, value) is None,
        declared == "string"@ && value is Str ==> coerced(declared, value) is None,
{
}

/// A scalar that is coerced to a text is coerced back to itself.
pub proof fn coercion_is_undone(b: bool, n: int, a: Seq<char>, z: Seq<char>)
    requires
        -0x8000_0000_0000_0000 <= n < 0x8000_0000_0000_0000,
        is_blank(a),
        is_blank(z),
    ensures
        coerced("string"@, JsonView::Bool(b)) matches Some(JsonView::Str(t)) && coerced(
            "boolean"@,
            JsonView::Str(a + t + z),
        ) == Some(JsonView::Bool(b)),
        coerced("string"@, JsonView::Int(n)) matches Some(JsonView::Str(t)) && coerced(
            "integer"@,
            JsonView::Str(a + t + z),
        ) == Some(JsonView::Int(n)) && coerced("number"@, JsonView::Str(a + t + z)) == Some(
            JsonView::Int(n),
        ),
{
    type_names_differ();
    reveal_strlit("true");
    reveal_strlit("false");
    assert("true"@.len() == 4 && "false"@.len() == 5);
    let said = if b { "true"@ } else { "false"@ };
    assert(said[0] == 't' || said[0] == 'f');
    assert(said.last() == 'e');
    trimming_undoes_padding(a, said, z);
    integers_read_back(n);
    let digits = signed_decimal(n);
    decimal_reads_back(if n < 0 { (-n) as nat } else { n as nat });
    assert(digits.len() > 0);
    assert(is_digit(digits.last())) by {
        if n < 0 {
            let d = decimal((-n) as nat);
            assert(digits.last() == d.last());
            assert(d.last() == d[d.len() - 1]);
        } else {
            assert(digits.last() == digits[digits.len() - 1]);
        }
    }
    assert(is_digit(digits[0]) || digits[0] == '-');
    trimming_undoes_padding(a, digits, z);
}

/// Whether a tool is the first of a name.
pub open spec fn is_first_named(tools: Seq<ToolView>, i: int, name: Seq<char>) -> bool {
    &&& 0 <= i < tools.len()
    &&& tools[i].name == name
    &&& forall|j: int| 0 <= j < i ==> (#[trigger] tools[j]).name != name
}

/// A tool is found by its name, the first of that name, wherever it is declared.
pub proof fn tools_are_found_by_name(tools: Seq<ToolView>, name: Seq<char>) -> (at: int)
    ensures
        match find_tool(tools, name) {
            Some(tool) => is_first_named(tools, at, name) && tools[at] == tool,
            None => forall|i: int| 0 <= i < tools.len() ==> (#[trigger] tools[i]).name != name,
        },
    decreases tools.len(),
{
    if tools.len() == 0 {
        0
    } else if tools[0].name == name {
        0
    } else {
        let rest = tools.drop_first();
        let at = tools_are_found_by_name(rest, name);
        assert forall|i: int| 0 <= i < tools.len() && (find_tool(rest, name) is Some ==> i < at + 1)
            implies (#[trigger] tools[i]).name != name by {
            if i > 0 {
                assert(rest[i - 1] == tools[i]);
            }
        }
        at + 1
    }
}

/// Whether a tool's schema lists a field as required.
pub open spec fn demands(tool: ToolView, name: Seq<char>) -> bool {
    &&& tool.function_rest.contains_key("parameters"@)
    &&& tool.function_rest["parameters"@].get("required"@) matches Some(JsonView::Array(items))
        && items.contains(JsonView::Str(name))
}

/// Whether a tool's schema declares a property with a type.
pub open spec fn declares_type(tool: ToolView, key: Seq<char>, kind: Seq<char>) -> bool {
    &&& tool.function_rest.contains_key("parameters"@)
    &&& tool.function_rest["parameters"@].get("properties"@) matches Some(
        JsonView::Object(declared),
    ) && declared.contains_key(key) && declared[key].get("type"@) == Some(JsonView::Str(kind))
}

proof fn texts_are_those(items: Seq<JsonView>, n: int, name: Seq<char>)
    requires
        0 <= n <= items.len(),
    ensures
        texts_among(items, n).contains(name) <==> exists|i: int|
            0 <= i < n && #[trigger] items[i] == JsonView::Str(name),
    decreases n,
{
    let list = texts_among(items, n);
    if n > 0 {
        texts_are_those(items, n - 1, name);
        let before = texts_among(items, n - 1);
        if before.contains(name) {
            let k = choose|k: int| 0 <= k < before.len() && before[k] == name;
            assert(list[k] == name);
        }
        if items[n - 1] == JsonView::Str(name) {
            assert(list[before.len() as int] == name);
        }
        if list.contains(name) && !before.contains(name) {
            let k = choose|k: int| 0 <= k < list.len() && list[k] == name;
            if k < before.len() {
                assert(before[k] == name);
            }
            assert(items[n - 1] == JsonView::Str(name));
        }
    }
}

/// The required fields of a tool are those that its schema lists.
pub proof fn required_is_what_is_demanded(tool: ToolView, name: Seq<char>)
    ensures
        required(tool).contains(name) <==> demands(tool, name),
{
    if let Some(items) = items_in(field(parameters(tool), "required"@)) {
        texts_are_those(items, items.len() as int, name);
        if items.contains(JsonView::Str(name)) {
            let i = choose|i: int| 0 <= i < items.len() && items[i] == JsonView::Str(name);
            assert(items[i] == JsonView::Str(name));
        }
    }
}

/// The type of a property is the one that the schema declares.
pub proof fn types_are_those_declared(tool: ToolView, key: Seq<char>, kind: Seq<char>)
    ensures
        (properties(tool) matches Some(declared) && declared_type(declared, key) == Some(kind))
            <==> declares_type(tool, key, kind),
{
}

proof fn missing_is_first(names: Seq<Seq<char>>, from: int, arguments: Map<Seq<char>, JsonView>)
    requires
        0 <= from,
    ensures
        match first_missing(names, from, arguments) {
            Some(name) => names.contains(name) && !arguments.contains_key(name),
            None => forall|i: int|
                from <= i < names.len() ==> arguments.contains_key(#[trigger] names[i]),
        },
    decreases names.len() - from,
{
    if from < names.len() && arguments.contains_key(names[from]) {
        missing_is_first(names, from + 1, arguments);
    }
}

proof fn mistyped_is_first(
    keys: Seq<Seq<char>>,
    from: int,
    arguments: Map<Seq<char>, JsonView>,
    declared: Map<Seq<char>, JsonView>,
)
    requires
        0 <= from,
    ensures
        match first_mistyped(keys, from, arguments, declared) {
            Some((key, kind)) => keys.contains(key) && declared_type(declared, key) == Some(kind)
                && !is_of_type(kind, arguments[key]),
            None => forall|i: int|
                from <= i < keys.len() ==> is_typed(
                    declared,
                    #[trigger] keys[i],
                    arguments[keys[i]],
                ),
        },
    decreases keys.len() - from,
{
    if from < keys.len() && is_typed(declared, keys[from], arguments[keys[from]]) {
        mistyped_is_first(keys, from + 1, arguments, declared);
    }
}

/// Whether arguments hold every field that a tool demands, and each of the type
/// that it is declared with.
pub open spec fn meets(arguments: Map<Seq<char>, JsonView>, tool: ToolView) -> bool {
    &&& forall|name: Seq<char>| #[trigger] demands(tool, name) ==> arguments.contains_key(name)
    &&& forall|key: Seq<char>, kind: Seq<char>| #[trigger]
        declares_type(tool, key, kind) && arguments.contains_key(key) ==> is_of_type(
            kind,
            arguments[key],
        )
}

/// A call is in order exactly where a tool of its name is declared, its arguments
/// are a JSON object, and they meet the schema of the first such tool. What is
/// wrong with any other call is the first of these that fails.
pub proof fn a_call_is_in_order_exactly_where_it_meets_its_tool(
    call: CallView,
    tools: Seq<ToolView>,
) -> (at: int)
    requires
        json_of(call.arguments) matches Some(JsonView::Object(members)) ==> lists(
            sorted_keys(members),
            members,
        ),
    ensures
        ({
            let found = problem(call, tools);
            let named = is_first_named(tools, at, call.name);
            match json_of(call.arguments) {
                Some(JsonView::Object(members)) => {
                    &&& found is None <==> named && meets(members, tools[at])
                    &&& named && found is Some ==> {
                        let lacking = exists|name: Seq<char>| #[trigger]
                            demands(tools[at], name) && !members.contains_key(name);
                        (found->0).0 == if lacking {
                            ErrorCategory::MissingArgument
                        } else {
                            ErrorCategory::WrongType
                        }
                    }
                },
                _ => found is Some && (named ==> (found->0).0 == ErrorCategory::BadArguments),
            }
        }),
        !is_first_named(tools, at, call.name) ==> forall|i: int|
            0 <= i < tools.len() ==> (#[trigger] tools[i]).name != call.name,
        !is_first_named(tools, at, call.name) ==> problem(call, tools) is Some && (problem(
            call,
            tools,
        )->0).0 == ErrorCategory::UnknownTool,
{
    let at = tools_are_found_by_name(tools, call.name);
    if find_tool(tools, call.name) is Some {
        let tool = tools[at];
        if let Some(JsonView::Object(members)) = json_of(call.arguments) {
            let names = required(tool);
            missing_is_first(names, 0, members);
            match first_missing(names, 0, members) {
                Some(name) => {
                    required_is_what_is_demanded(tool, name);
                    assert(demands(tool, name));
                },
                None => {
                    assert forall|name: Seq<char>| #[trigger]
                        demands(tool, name) implies members.contains_key(name) by {
                        required_is_what_is_demanded(tool, name);
                        let i = choose|i: int| 0 <= i < names.len() && names[i] == name;
                        assert(members.contains_key(names[i]));
                    }
                    let keys = sorted_keys(members);
                    if let Some(declared) = properties(tool) {
                        mistyped_is_first(keys, 0, members, declared);
                        match first_mistyped(keys, 0, members, declared) {
                            Some((key, kind)) => {
                                types_are_those_declared(tool, key, kind);
                                assert(members.contains_key(key));
                                assert(declares_type(tool, key, kind));
                            },
                            None => {
                                assert forall|key: Seq<char>, kind: Seq<char>| #[trigger]
                                    declares_type(tool, key, kind) && members.contains_key(
                                        key,
                                    ) implies is_of_type(kind, members[key]) by {
                                    types_are_those_declared(tool, key, kind);
                                    assert(keys.contains(key));
                                    let i = choose|i: int| 0 <= i < keys.len() && keys[i] == key;
                                    assert(is_typed(declared, keys[i], members[keys[i]]));
                                }
                            },
                        }
                    }
                },
            }
        }
        at
    } else {
        at
    }
}

/// What the model is told of a call says which call it is, and what to mend.
pub proof fn nudges_say_what_is_wrong(call: CallView, tools: Seq<ToolView>) -> (what: (
    Seq<char>,
    Seq<char>,
))
    ensures
        problem(call, tools) matches Some((category, nudge)) ==> match category {
            ErrorCategory::UnknownTool => nudge == "You called a tool named \""@ + call.name
                + "\" which does not exist. Call one of the available tools instead: "@ + join(
                tools.map_values(|t: ToolView| t.name),
                ", "@,
            ) + "."@,
            ErrorCategory::BadArguments => nudge == "The arguments for tool \""@ + call.name
                + "\" were not a valid JSON object. Reply with a single tool call whose arguments are a JSON object."@,
            ErrorCategory::MissingArgument => {
                &&& find_tool(tools, call.name) matches Some(tool) && demands(tool, what.0)
                &&& json_of(call.arguments) matches Some(JsonView::Object(members))
                    && !members.contains_key(what.0)
                &&& nudge == "The arguments for tool \""@ + call.name
                    + "\" were missing required field \""@ + what.0
                    + "\". Reply with a single tool call whose arguments include all required fields."@
            },
            ErrorCategory::WrongType => {
                &&& find_tool(tools, call.name) matches Some(tool) && declares_type(
                    tool,
                    what.0,
                    what.1,
                )
                &&& json_of(call.arguments) matches Some(JsonView::Object(members))
                    && !is_of_type(what.1, members[what.0])
                &&& nudge == "The argument \""@ + what.0 + "\" for tool \""@ + call.name
                    + "\" had the wrong type; it must be a "@ + what.1
                    + ". Reply with a single tool call whose arguments match the declared types."@
            },
        },
{
    let none = Seq::<char>::empty();
    match find_tool(tools, call.name) {
        Some(tool) => match arguments_of(call.arguments) {
            Some(members) => {
                missing_is_first(required(tool), 0, members);
                match first_missing(required(tool), 0, members) {
                    Some(name) => {
                        required_is_what_is_demanded(tool, name);
                        (name, none)
                    },
                    None => match properties(tool) {
                        Some(declared) => {
                            mistyped_is_first(sorted_keys(members), 0, members, declared);
                            match first_mistyped(sorted_keys(members), 0, members, declared) {
                                Some((key, kind)) => {
                                    types_are_those_declared(tool, key, kind);
                                    (key, kind)
                                },
                                None => (none, none),
                            }
                        },
                        None => (none, none),
                    },
                }
            },
            None => (none, none),
        },
        None => (none, none),
    }
}

/// Keys are compared by their letters alone: separators are passed over, and a
/// letter counts the same in either case, wherever it stands.
pub proof fn keys_compare_by_letters(a: Seq<char>, c: char)
    ensures
        normalized(Seq::<char>::empty()) == Seq::<char>::empty(),
        c == '_' || c == '-' || c == ' ' ==> normalized(a.push(c)) == normalized(a),
        c != '_' && c != '-' && c != ' ' ==> normalized(a.push(c)) == normalized(a)
            + lowercase_of(c),
{
    assert(a.push(c).drop_last() =~= a);
}

proof fn each_argument_is_coerced(
    arguments: Map<Seq<char>, JsonView>,
    declared: Map<Seq<char>, JsonView>,
    keys: Seq<Seq<char>>,
    n: int,
    key: Seq<char>,
)
    requires
        0 <= n <= keys.len(),
        forall|i: int, j: int| 0 <= i < j < keys.len() ==> keys[i] != keys[j],
        forall|i: int| 0 <= i < keys.len() ==> arguments.contains_key(#[trigger] keys[i]),
        arguments.contains_key(key),
    ensures
        coerced_arguments(arguments, declared, keys, n).0.dom() == arguments.dom(),
        ({
            let after = coerced_arguments(arguments, declared, keys, n).0;
            let fixed = argument_coercion(declared, key, arguments[key]);
            if keys.take(n).contains(key) && fixed is Some {
                after[key] == fixed->0
            } else {
                after[key] == arguments[key]
            }
        }),
        coerced_arguments(arguments, declared, keys, n).1 <==> exists|i: int|
            0 <= i < n && argument_coercion(
                declared,
                #[trigger] keys[i],
                arguments[keys[i]],
            ) is Some,
    decreases n,
{
    if n > 0 {
        each_argument_is_coerced(arguments, declared, keys, n - 1, key);
        let before = coerced_arguments(arguments, declared, keys, n - 1).0;
        let after = coerced_arguments(arguments, declared, keys, n).0;
        assert(arguments.contains_key(keys[n - 1]));
        assert(after.dom() =~= arguments.dom());
        let fewer = keys.take(n - 1);
        let more = keys.take(n);
        assert(more =~= fewer.push(keys[n - 1]));
        assert(more[n - 1] == keys[n - 1]);
        if fewer.contains(key) {
            let k = choose|k: int| 0 <= k < fewer.len() && fewer[k] == key;
            assert(more[k] == key);
            assert(keys[k] != keys[n - 1]);
        }
        if more.contains(key) && !fewer.contains(key) {
            let k = choose|k: int| 0 <= k < more.len() && more[k] == key;
            if k < n - 1 {
                assert(fewer[k] == key);
            }
        }
    } else {
        assert(!keys.take(0).contains(key));
    }
}

/// Coercion changes an argument only where it is not of its declared type and can
/// be coerced to it; it neither adds nor drops any, and any other is as it was.
pub proof fn only_mistyped_arguments_are_coerced(
    arguments: Map<Seq<char>, JsonView>,
    declared: Map<Seq<char>, JsonView>,
    key: Seq<char>,
)
    requires
        lists(sorted_keys(arguments), arguments),
        arguments.contains_key(key),
    ensures
        ({
            let keys = sorted_keys(arguments);
            let (after, changed) = coerced_arguments(
                arguments,
                declared,
                keys,
                keys.len() as int,
            );
            &&& after.dom() == arguments.dom()
            &&& match declared_type(declared, key) {
                Some(kind) => if !is_of_type(kind, arguments[key]) && coerced(
                    kind,
                    arguments[key],
                ) is Some {
                    changed && after[key] == coerced(kind, arguments[key])->0
                } else {
                    after[key] == arguments[key]
                },
                None => after[key] == arguments[key],
            }
        }),
{
    let keys = sorted_keys(arguments);
    assert forall|i: int, j: int| 0 <= i < j < keys.len() implies keys[i] != keys[j] by {
        before_is_total(keys[i], keys[i]);
    }
    assert forall|i: int| 0 <= i < keys.len() implies arguments.contains_key(#[trigger] keys[i]) by {
        assert(keys.contains(keys[i]));
    }
    each_argument_is_coerced(arguments, declared, keys, keys.len() as int, key);
    assert(keys.take(keys.len() as int) =~= keys);
    assert(keys.contains(key));
    let i = choose|i: int| 0 <= i < keys.len() && keys[i] == key;
    assert(argument_coercion(declared, keys[i], arguments[keys[i]]) == argument_coercion(
        declared,
        key,
        arguments[key],
    ));
}

/// A repair touches nothing of a call but its arguments, and a call that needs
/// none stays as it is.
pub proof fn repairs_change_arguments_alone(
    calls: Seq<CallView>,
    tools: Seq<ToolView>,
    i: int,
)
    requires
        0 <= i < calls.len(),
    ensures
        ({
            let named = repaired_calls(calls, names_repair(tools));
            let typed = repaired_calls(calls, types_repair(tools));
            &&& named.len() == calls.len() && typed.len() == calls.len()
            &&& named[i].name == calls[i].name && typed[i].name == calls[i].name
            &&& named[i].id == calls[i].id && typed[i].id == calls[i].id
            &&& name_repair(calls[i], tools) is None ==> named[i] == calls[i]
            &&& type_repair(calls[i], tools) is None ==> typed[i] == calls[i]
        }),
{
}

/// A call is repaired exactly where the arguments that the repair leaves differ
/// from those that it was made with, and then they are written out.
pub proof fn repaired_calls_hold_the_repaired_arguments(call: CallView, tools: Seq<ToolView>)
    ensures
        match (find_tool(tools, call.name), json_of(call.arguments)) {
            (Some(tool), Some(JsonView::Object(arguments))) => match properties(tool) {
                Some(declared) => {
                    let keys = sorted_keys(arguments);
                    let (named, renamed) = mended_names(arguments, required(tool), declared);
                    let (typed, retyped) = coerced_arguments(
                        arguments,
                        declared,
                        keys,
                        keys.len() as int,
                    );
                    &&& name_repair(call, tools) is Some <==> renamed
                    &&& renamed ==> name_repair(call, tools)->0.arguments == json_text(
                        JsonView::Object(named),
                    )
                    &&& type_repair(call, tools) is Some <==> retyped
                    &&& retyped ==> type_repair(call, tools)->0.arguments == json_text(
                        JsonView::Object(typed),
                    )
                },
                None => name_repair(call, tools) is None && type_repair(call, tools) is None,
            },
            _ => name_repair(call, tools) is None && type_repair(call, tools) is None,
        },
{
}

proof fn missing_comes_first(
    names: Seq<Seq<char>>,
    from: int,
    arguments: Map<Seq<char>, JsonView>,
) -> (at: int)
    requires
        0 <= from,
    ensures
        first_missing(names, from, arguments) matches Some(name) ==> from <= at < names.len()
            && names[at] == name && !arguments.contains_key(name) && forall|j: int|
            from <= j < at ==> arguments.contains_key(#[trigger] names[j]),
    decreases names.len() - from,
{
    if from < names.len() && arguments.contains_key(names[from]) {
        missing_comes_first(names, from + 1, arguments)
    } else {
        from
    }
}

/// Of several missing fields the one that the schema lists first is told.
pub proof fn the_first_missing_field_is_told(
    call: CallView,
    tool: ToolView,
    tools: Seq<ToolView>,
    members: Map<Seq<char>, JsonView>,
    at: int,
)
    requires
        find_tool(tools, call.name) == Some(tool),
        json_of(call.arguments) == Some(JsonView::Object(members)),
        0 <= at < required(tool).len(),
        !members.contains_key(required(tool)[at]),
        forall|j: int| 0 <= j < at ==> members.contains_key(#[trigger] required(tool)[j]),
    ensures
        problem(call, tools) == Some(
            (
                ErrorCategory::MissingArgument,
                "The arguments for tool \""@ + call.name + "\" were missing required field \""@
                    + required(tool)[at]
                    + "\". Reply with a single tool call whose arguments include all required fields."@,
            ),
        ),
{
    let names = required(tool);
    missing_is_first(names, 0, members);
    if first_missing(names, 0, members) is None {
        assert(members.contains_key(names[at]));
    }
    let k = missing_comes_first(names, 0, members);
    if k < at {
        assert(members.contains_key(names[k]));
    }
    if at < k {
        assert(members.contains_key(names[at]));
    }
}

} // verus!
