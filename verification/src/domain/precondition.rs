//! What must hold before a tool call that changes a file is let through.
//!
//! A tool that writes whole files must not target a path that exists. A tool
//! that edits in place must not target a file that the conversation never shows
//! being read. The second rule refuses only on evidence: where the conversation
//! shows no tool traffic, a read may have happened out of sight.
use vstd::prelude::*;

use super::decode::{call_views, owned_text, CallView, ToolCall};
use super::rescue::or_else;
use crate::json::{
    items_in, items_of_value, json_of, parse, text_in, text_of_value, views, Json, JsonView,
};
use crate::text::{lowered, same_lowered, same_text, texts};

verus! {

/// What stands at a path.
#[derive(Debug, Clone, Copy, PartialEq, Eq, Structural)]
pub enum PathKind {
    Missing,
    File,
    Directory,
    Other,
}

/// The outcome of the check.
#[derive(Debug, PartialEq, Eq)]
pub enum Precondition {
    /// The calls may proceed.
    Passed,
    /// A call must not; `nudge` tells the model why.
    Failed { nudge: String },
}

/// The text that a failed check explains itself with; nothing where it holds.
pub open spec fn failure(outcome: Precondition) -> Option<Seq<char>> {
    match outcome {
        Precondition::Passed => None,
        Precondition::Failed { nudge } => Some(nudge@),
    }
}

// ── the tools ───────────────────────────────────────────────────────────────

/// Tools that write whole files.
pub fn write_tools() -> (tools: Vec<&'static str>)
    ensures
        tools@ == seq!["Write", "write", "write_file", "create"],
{
    let tools: Vec<&'static str> = vec!["Write", "write", "write_file", "create"];
    tools
}

/// Tools that change part of a file.
pub fn edit_tools() -> (tools: Vec<&'static str>)
    ensures
        tools@ == seq!["Edit", "MultiEdit", "edit", "apply_patch", "edit_file"],
{
    let tools: Vec<&'static str> = vec!["Edit", "MultiEdit", "edit", "apply_patch", "edit_file"];
    tools
}

/// Whether a tool writes whole files. Case does not count.
pub open spec fn writes(name: Seq<char>) -> bool {
    ||| lowered(name) == lowered("Write"@)
    ||| lowered(name) == lowered("write"@)
    ||| lowered(name) == lowered("write_file"@)
    ||| lowered(name) == lowered("create"@)
}

/// Whether a tool changes part of a file. Case does not count.
pub open spec fn edits(name: Seq<char>) -> bool {
    ||| lowered(name) == lowered("Edit"@)
    ||| lowered(name) == lowered("MultiEdit"@)
    ||| lowered(name) == lowered("edit"@)
    ||| lowered(name) == lowered("apply_patch"@)
    ||| lowered(name) == lowered("edit_file"@)
}

/// Whether a tool shows the model a whole file. Case does not count.
pub open spec fn reads(name: Seq<char>) -> bool {
    ||| lowered(name) == lowered("Read"@)
    ||| lowered(name) == lowered("read"@)
    ||| lowered(name) == lowered("read_file"@)
}

fn among(tools: &Vec<&'static str>, name: &str) -> (yes: bool)
    ensures
        yes == exists|i: int|
            0 <= i < tools@.len() && lowered((#[trigger] tools@[i])@) == lowered(name@),
{
    for i in 0..tools.len()
        invariant
            forall|j: int|
                0 <= j < i ==> lowered((#[trigger] tools@[j])@) != lowered(name@),
    {
        if same_lowered(tools[i], name) {
            return true;
        }
    }
    false
}

pub fn is_write_tool(name: &str) -> (yes: bool)
    ensures
        yes == writes(name@),
{
    let tools = write_tools();
    assert(tools@.len() == 4);
    let found: bool = among(&tools, name);
    proof {
        assert(tools@[0] == "Write" && tools@[1] == "write");
        assert(tools@[2] == "write_file" && tools@[3] == "create");
    }
    found
}

pub fn is_edit_tool(name: &str) -> (yes: bool)
    ensures
        yes == edits(name@),
{
    let tools = edit_tools();
    assert(tools@.len() == 5);
    let found: bool = among(&tools, name);
    proof {
        assert(tools@[0] == "Edit" && tools@[1] == "MultiEdit" && tools@[2] == "edit");
        assert(tools@[3] == "apply_patch" && tools@[4] == "edit_file");
    }
    found
}

fn is_read_tool(name: &str) -> (yes: bool)
    ensures
        yes == reads(name@),
{
    same_lowered(name, "Read") || same_lowered(name, "read") || same_lowered(name, "read_file")
}

/// The `file_path` or `path` that arguments name.
pub open spec fn path_of(arguments: Seq<char>) -> Option<Seq<char>> {
    match json_of(arguments) {
        Some(v) => text_in(or_else(v.get("file_path"@), v.get("path"@))),
        None => None,
    }
}

pub fn file_path_arg(arguments: &str) -> (path: Option<String>)
    ensures
        owned_text(path) == path_of(arguments@),
{
    match parse(arguments) {
        Some(v) => {
            let found = match v.get("file_path") {
                Some(path) => Some(path),
                None => v.get("path"),
            };
            match text_of_value(found) {
                Some(path) => Some(path.to_owned()),
                None => None,
            }
        },
        None => None,
    }
}

// ── the transcript ──────────────────────────────────────────────────────────

/// A tool invocation: a name and arguments text.
pub type Invocation = (Seq<char>, Seq<char>);

/// The invocation that an object holds under `name` and `arguments`.
pub open spec fn invocation_in(v: JsonView) -> Option<Invocation> {
    match (text_in(v.get("name"@)), text_in(v.get("arguments"@))) {
        (Some(name), Some(arguments)) => Some((name, arguments)),
        _ => None,
    }
}

/// The invocations among the first `n` entries of `tool_calls`.
pub open spec fn nested_invocations(items: Seq<JsonView>, n: int) -> Seq<Invocation>
    decreases n,
{
    if n <= 0 {
        Seq::empty()
    } else {
        let before = nested_invocations(items, n - 1);
        match items[n - 1].get("function"@) {
            Some(function) => match invocation_in(function) {
                Some(invocation) => before.push(invocation),
                None => before,
            },
            None => before,
        }
    }
}

/// The invocations that a message holds: itself, as a flat call item, and the
/// entries of its `tool_calls`.
pub open spec fn invocations(message: JsonView) -> Seq<Invocation> {
    let flat = match invocation_in(message) {
        Some(invocation) => seq![invocation],
        None => Seq::empty(),
    };
    match items_in(message.get("tool_calls"@)) {
        Some(items) => flat + nested_invocations(items, items.len() as int),
        None => flat,
    }
}

/// The invocations of the first `n` messages.
pub open spec fn all_invocations(messages: Seq<JsonView>, n: int) -> Seq<Invocation>
    decreases n,
{
    if n <= 0 {
        Seq::empty()
    } else {
        all_invocations(messages, n - 1) + invocations(messages[n - 1])
    }
}

/// Whether an invocation reads the file at a path.
pub open spec fn reads_path(invocation: Invocation, path: Seq<char>) -> bool {
    reads(invocation.0) && path_of(invocation.1) == Some(path)
}

/// Invocations by their views.
pub open spec fn invocation_views(list: Seq<(&str, &str)>) -> Seq<Invocation> {
    list.map_values(|i: (&str, &str)| (i.0@, i.1@))
}

fn pair_in(v: &Json) -> (pair: Option<(&str, &str)>)
    ensures
        match pair {
            Some((name, arguments)) => invocation_in(v@) == Some((name@, arguments@)),
            None => invocation_in(v@) is None,
        },
{
    match (text_of_value(v.get("name")), text_of_value(v.get("arguments"))) {
        (Some(name), Some(arguments)) => Some((name, arguments)),
        _ => None,
    }
}

/// Every name and arguments pair that a message invokes.
pub fn tool_invocations(message: &Json) -> (found: Vec<(&str, &str)>)
    ensures
        invocation_views(found@) == invocations(message@),
{
    let mut found: Vec<(&str, &str)> = Vec::new();
    if let Some(pair) = pair_in(message) {
        found.push(pair);
    }
    let ghost flat = invocation_views(found@);
    assert(flat =~= match invocation_in(message@) {
        Some(invocation) => seq![invocation],
        None => Seq::empty(),
    });
    if let Some(items) = items_of_value(message.get("tool_calls")) {
        assert(flat + Seq::<Invocation>::empty() =~= flat);
        for i in 0..items.len()
            invariant
                invocation_views(found@) == flat + nested_invocations(views(items@), i as int),
        {
            let ghost read = invocation_views(found@);
            assert(views(items@)[i as int] == items@[i as int]@);
            if let Some(function) = items[i].get("function") {
                if let Some(pair) = pair_in(function) {
                    found.push(pair);
                    assert(invocation_views(found@) =~= read.push((pair.0@, pair.1@)));
                    assert(invocation_views(found@) =~= flat + nested_invocations(
                        views(items@),
                        i + 1,
                    ));
                }
            }
        }
    }
    found
}

/// The files that a conversation shows being read, and whether it shows any
/// tool traffic at all.
#[derive(Debug, Default)]
pub struct Transcript {
    read_paths: Vec<String>,
    legible: bool,
}

impl Transcript {
    /// Whether any tool traffic was recognised. Where none was, the absence of
    /// a read is no evidence.
    pub closed spec fn is_legible(&self) -> bool {
        self.legible
    }

    /// Whether the file at a path was read.
    pub closed spec fn shows_read(&self, path: Seq<char>) -> bool {
        texts(self.read_paths@).contains(path)
    }

    /// The transcript of a conversation that is out of reach.
    pub fn unavailable() -> (transcript: Transcript)
        ensures
            !transcript.is_legible(),
            forall|path: Seq<char>| !transcript.shows_read(path),
    {
        Transcript { read_paths: Vec::new(), legible: false }
    }

    /// Scans messages, in the shape of either API, for reads.
    pub fn of(messages: &[Json]) -> (transcript: Transcript)
        ensures
            ({
                let found = all_invocations(views(messages@), messages@.len() as int);
                &&& transcript.is_legible() == (found.len() > 0)
                &&& forall|path: Seq<char>| #[trigger]
                    transcript.shows_read(path) <==> exists|i: int|
                        0 <= i < found.len() && reads_path(#[trigger] found[i], path)
            }),
    {
        let ghost all = views(messages@);
        let mut read_paths: Vec<String> = Vec::new();
        let mut legible: bool = false;
        for i in 0..messages.len()
            invariant
                all == views(messages@),
                legible == (all_invocations(all, i as int).len() > 0),
                scanned(texts(read_paths@), all_invocations(all, i as int)),
        {
            let ghost before = all_invocations(all, i as int);
            let found = tool_invocations(&messages[i]);
            let ghost more = invocation_views(found@);
            assert(all[i as int] == messages@[i as int]@);
            assert(before + more.take(0) =~= before);
            for j in 0..found.len()
                invariant
                    more == invocation_views(found@),
                    legible == ((before + more.take(j as int)).len() > 0),
                    scanned(texts(read_paths@), before + more.take(j as int)),
            {
                let ghost known = before + more.take(j as int);
                let ghost paths = texts(read_paths@);
                let (name, arguments) = found[j];
                let ghost next = (name@, arguments@);
                assert(before + more.take(j + 1) =~= known.push(next));
                legible = true;
                let mut added: bool = false;
                if is_read_tool(name) {
                    if let Some(path) = file_path_arg(arguments) {
                        let ghost p = path@;
                        read_paths.push(path);
                        added = true;
                        proof {
                            assert(texts(read_paths@) =~= paths.push(p));
                            scan_adds(paths, known, next, p);
                        }
                    }
                }
                if !added {
                    proof {
                        scan_skips(paths, known, next);
                    }
                }
            }
            assert(more.take(more.len() as int) =~= more);
        }
        let transcript = Transcript { read_paths, legible };
        assert forall|path: Seq<char>| #[trigger] transcript.shows_read(path) <==> exists|i: int|
            0 <= i < all_invocations(all, all.len() as int).len() && reads_path(
                #[trigger] all_invocations(all, all.len() as int)[i],
                path,
            ) by {
            assert(texts(read_paths@).contains(path) <==> transcript.shows_read(path));
        }
        transcript
    }

    /// Whether any tool traffic was recognised.
    pub fn legible(&self) -> (yes: bool)
        ensures
            yes == self.is_legible(),
    {
        self.legible
    }

    /// Whether the file at a path was read.
    pub fn has_read(&self, path: &str) -> (yes: bool)
        ensures
            yes == self.shows_read(path@),
    {
        for i in 0..self.read_paths.len()
            invariant
                forall|j: int| 0 <= j < i ==> (#[trigger] texts(self.read_paths@)[j]) != path@,
        {
            if same_text(self.read_paths[i].as_str(), path) {
                assert(texts(self.read_paths@)[i as int] == path@);
                return true;
            }
        }
        false
    }
}

/// Whether `paths` holds exactly the files that the invocations read.
spec fn scanned(paths: Seq<Seq<char>>, found: Seq<Invocation>) -> bool {
    forall|path: Seq<char>| #[trigger]
        paths.contains(path) <==> exists|i: int|
            0 <= i < found.len() && reads_path(#[trigger] found[i], path)
}

proof fn scan_adds(paths: Seq<Seq<char>>, found: Seq<Invocation>, next: Invocation, p: Seq<char>)
    requires
        scanned(paths, found),
        reads_path(next, p),
    ensures
        scanned(paths.push(p), found.push(next)),
{
    let more = found.push(next);
    assert forall|path: Seq<char>| #[trigger] paths.push(p).contains(path) <==> exists|i: int|
        0 <= i < more.len() && reads_path(#[trigger] more[i], path) by {
        if paths.push(p).contains(path) {
            if path == p {
                assert(reads_path(more[found.len() as int], path));
            } else {
                let k = choose|k: int| 0 <= k < paths.push(p).len() && paths.push(p)[k] == path;
                assert(paths[k] == path);
                assert(paths.contains(path));
                let i = choose|i: int| 0 <= i < found.len() && reads_path(#[trigger] found[i], path);
                assert(reads_path(more[i], path));
            }
        }
        if exists|i: int| 0 <= i < more.len() && reads_path(#[trigger] more[i], path) {
            let i = choose|i: int| 0 <= i < more.len() && reads_path(#[trigger] more[i], path);
            if i < found.len() {
                assert(reads_path(found[i], path));
                assert(paths.contains(path));
                let k = choose|k: int| 0 <= k < paths.len() && paths[k] == path;
                assert(paths.push(p)[k] == path);
            } else {
                assert(paths.push(p)[paths.len() as int] == path);
            }
        }
    }
}

proof fn scan_skips(paths: Seq<Seq<char>>, found: Seq<Invocation>, next: Invocation)
    requires
        scanned(paths, found),
        forall|p: Seq<char>| !reads_path(next, p),
    ensures
        scanned(paths, found.push(next)),
{
    let more = found.push(next);
    assert forall|path: Seq<char>| #[trigger] paths.contains(path) <==> exists|i: int|
        0 <= i < more.len() && reads_path(#[trigger] more[i], path) by {
        if paths.contains(path) {
            let i = choose|i: int| 0 <= i < found.len() && reads_path(#[trigger] found[i], path);
            assert(reads_path(more[i], path));
        }
        if exists|i: int| 0 <= i < more.len() && reads_path(#[trigger] more[i], path) {
            let i = choose|i: int| 0 <= i < more.len() && reads_path(#[trigger] more[i], path);
            assert(i < found.len());
            assert(reads_path(found[i], path));
        }
    }
}

// ── the check ───────────────────────────────────────────────────────────────

pub open spec fn directory_text(path: Seq<char>) -> Seq<char> {
    "\""@ + path
        + "\" is a directory, not a file. Provide the full path to the specific file you want to create."@
}

pub open spec fn exists_text(path: Seq<char>) -> Seq<char> {
    "The file \""@ + path
        + "\" already exists. Read it first to understand its current contents, then use the edit tool to make your changes."@
}

pub open spec fn unread_text(path: Seq<char>) -> Seq<char> {
    "The file \""@ + path
        + "\" has not been read in this conversation. Read it first so the edit matches its current contents, then make your change."@
}

/// Why one call must not proceed, given what stands at its path.
pub open spec fn call_failure(call: CallView, transcript: &Transcript, kind: PathKind) -> Option<
    Seq<char>,
> {
    match path_of(call.arguments) {
        Some(path) => if writes(call.name) {
            match kind {
                PathKind::Missing => None,
                PathKind::Directory => Some(directory_text(path)),
                _ => Some(exists_text(path)),
            }
        } else if edits(call.name) && transcript.is_legible() && !transcript.shows_read(path) && kind
            == PathKind::File {
            Some(unread_text(path))
        } else {
            None
        },
        None => None,
    }
}

/// Why the calls from `from` on must not proceed: the first reason that there is.
pub open spec fn failure_from(
    calls: Seq<CallView>,
    transcript: &Transcript,
    kinds: Seq<PathKind>,
    from: int,
) -> Option<Seq<char>>
    decreases calls.len() - from,
{
    if !(0 <= from < calls.len()) {
        None
    } else {
        match call_failure(calls[from], transcript, kinds[from]) {
            Some(nudge) => Some(nudge),
            None => failure_from(calls, transcript, kinds, from + 1),
        }
    }
}

/// The path that each call names, to be looked up before [`check`].
pub fn paths_of(calls: &[ToolCall]) -> (paths: Vec<Option<String>>)
    ensures
        paths@.len() == calls@.len(),
        forall|i: int|
            0 <= i < calls@.len() ==> owned_text(#[trigger] paths@[i]) == path_of(
                calls@[i]@.arguments,
            ),
{
    let mut paths: Vec<Option<String>> = Vec::new();
    for i in 0..calls.len()
        invariant
            paths@.len() == i,
            forall|j: int|
                0 <= j < i ==> owned_text(#[trigger] paths@[j]) == path_of(calls@[j]@.arguments),
    {
        paths.push(file_path_arg(calls[i].arguments.as_str()));
    }
    paths
}

/// Checks calls against the transcript of the conversation they came from, and
/// against what stands at the path that each names.
pub fn check(calls: &[ToolCall], transcript: &Transcript, kinds: &[PathKind]) -> (outcome:
    Precondition)
    requires
        kinds@.len() == calls@.len(),
    ensures
        failure(outcome) == failure_from(call_views(calls@), transcript, kinds@, 0),
{
    let ghost all = call_views(calls@);
    for i in 0..calls.len()
        invariant
            all == call_views(calls@),
            kinds@.len() == calls@.len(),
            failure_from(all, transcript, kinds@, 0) == failure_from(
                all,
                transcript,
                kinds@,
                i as int,
            ),
    {
        let call = &calls[i];
        assert(all[i as int] == call@);
        if let Some(path) = file_path_arg(call.arguments.as_str()) {
            if is_write_tool(call.name.as_str()) {
                match kinds[i] {
                    PathKind::Missing => {},
                    PathKind::Directory => {
                        let nudge = "\"".to_owned().concat(path.as_str()).concat(
                            "\" is a directory, not a file. Provide the full path to the specific file you want to create.",
                        );
                        return Precondition::Failed { nudge };
                    },
                    _ => {
                        let nudge = "The file \"".to_owned().concat(path.as_str()).concat(
                            "\" already exists. Read it first to understand its current contents, then use the edit tool to make your changes.",
                        );
                        return Precondition::Failed { nudge };
                    },
                }
            } else if is_edit_tool(call.name.as_str()) && transcript.legible()
                && !transcript.has_read(path.as_str()) && kinds[i] == PathKind::File {
                let nudge = "The file \"".to_owned().concat(path.as_str()).concat(
                    "\" has not been read in this conversation. Read it first so the edit matches its current contents, then make your change.",
                );
                return Precondition::Failed { nudge };
            }
        }
    }
    Precondition::Passed
}

// ── laws ────────────────────────────────────────────────────────────────────

proof fn passes_from(
    calls: Seq<CallView>,
    transcript: &Transcript,
    kinds: Seq<PathKind>,
    from: int,
)
    requires
        0 <= from,
        forall|i: int|
            0 <= i < calls.len() ==> call_failure(#[trigger] calls[i], transcript, kinds[i]) is None,
    ensures
        failure_from(calls, transcript, kinds, from) is None,
    decreases calls.len() - from,
{
    if from < calls.len() {
        passes_from(calls, transcript, kinds, from + 1);
    }
}

/// Where the transcript shows no tool traffic, nothing but a write to a path
/// that exists is refused.
pub proof fn an_illegible_transcript_refuses_no_edit(
    calls: Seq<CallView>,
    transcript: &Transcript,
    kinds: Seq<PathKind>,
)
    requires
        !transcript.is_legible(),
        forall|i: int| 0 <= i < calls.len() ==> !writes((#[trigger] calls[i]).name),
    ensures
        failure_from(calls, transcript, kinds, 0) is None,
{
    assert forall|i: int| 0 <= i < calls.len() implies call_failure(
        #[trigger] calls[i],
        transcript,
        kinds[i],
    ) is None by {
        assert(!writes(calls[i].name));
    }
    passes_from(calls, transcript, kinds, 0);
}

/// Calls that name paths where nothing stands are never refused.
pub proof fn new_paths_are_never_refused(
    calls: Seq<CallView>,
    transcript: &Transcript,
    kinds: Seq<PathKind>,
)
    requires
        forall|i: int| 0 <= i < calls.len() ==> #[trigger] kinds[i] == PathKind::Missing,
    ensures
        failure_from(calls, transcript, kinds, 0) is None,
{
    assert forall|i: int| 0 <= i < calls.len() implies call_failure(
        #[trigger] calls[i],
        transcript,
        kinds[i],
    ) is None by {
        assert(kinds[i] == PathKind::Missing);
    }
    passes_from(calls, transcript, kinds, 0);
}

/// Whether arguments are a JSON object that names a path, under `file_path` or
/// else under `path`.
pub open spec fn names_path(arguments: Seq<char>, path: Seq<char>) -> bool {
    json_of(arguments) matches Some(JsonView::Object(members)) && if members.contains_key(
        "file_path"@,
    ) {
        members["file_path"@] == JsonView::Str(path)
    } else {
        members.contains_key("path"@) && members["path"@] == JsonView::Str(path)
    }
}

/// The path of arguments is the one that they name, if they name any.
pub proof fn paths_are_those_named(arguments: Seq<char>, path: Seq<char>)
    ensures
        path_of(arguments) == Some(path) <==> names_path(arguments, path),
{
}

/// A tool of these names, in whatever case, writes whole files, and no other does.
pub proof fn writers_are_these(name: Seq<char>)
    ensures
        writes(name) <==> lowered(name) == "write"@ || lowered(name) == "write_file"@ || lowered(
            name,
        ) == "create"@,
{
    reveal_strlit("Write");
    reveal_strlit("write");
    reveal_strlit("write_file");
    reveal_strlit("create");
    assert(lowered("Write"@) =~= "write"@);
    assert(lowered("write"@) =~= "write"@);
    assert(lowered("write_file"@) =~= "write_file"@);
    assert(lowered("create"@) =~= "create"@);
}

/// A tool of these names, in whatever case, changes part of a file, and no other
/// does.
pub proof fn editors_are_these(name: Seq<char>)
    ensures
        edits(name) <==> lowered(name) == "edit"@ || lowered(name) == "multiedit"@ || lowered(name)
            == "apply_patch"@ || lowered(name) == "edit_file"@,
{
    reveal_strlit("Edit");
    reveal_strlit("edit");
    reveal_strlit("MultiEdit");
    reveal_strlit("multiedit");
    reveal_strlit("apply_patch");
    reveal_strlit("edit_file");
    assert(lowered("Edit"@) =~= "edit"@);
    assert(lowered("edit"@) =~= "edit"@);
    assert(lowered("MultiEdit"@) =~= "multiedit"@);
    assert(lowered("apply_patch"@) =~= "apply_patch"@);
    assert(lowered("edit_file"@) =~= "edit_file"@);
}

/// A tool of these names, in whatever case, shows a file, and no other does.
pub proof fn readers_are_these(name: Seq<char>)
    ensures
        reads(name) <==> lowered(name) == "read"@ || lowered(name) == "read_file"@,
{
    reveal_strlit("Read");
    reveal_strlit("read");
    reveal_strlit("read_file");
    assert(lowered("Read"@) =~= "read"@);
    assert(lowered("read"@) =~= "read"@);
    assert(lowered("read_file"@) =~= "read_file"@);
}

proof fn first_failure(
    calls: Seq<CallView>,
    transcript: &Transcript,
    kinds: Seq<PathKind>,
    from: int,
) -> (at: int)
    requires
        0 <= from <= calls.len(),
    ensures
        from <= at <= calls.len(),
        forall|i: int|
            from <= i < at ==> call_failure(#[trigger] calls[i], transcript, kinds[i]) is None,
        at == calls.len() ==> failure_from(calls, transcript, kinds, from) is None,
        at < calls.len() ==> call_failure(calls[at], transcript, kinds[at]) is Some
            && failure_from(calls, transcript, kinds, from) == call_failure(
            calls[at],
            transcript,
            kinds[at],
        ),
    decreases calls.len() - from,
{
    if from < calls.len() && call_failure(calls[from], transcript, kinds[from]) is None {
        first_failure(calls, transcript, kinds, from + 1)
    } else {
        from
    }
}

/// Whether a call would write over something that stands at the path it names.
pub open spec fn overwrites(call: CallView, kind: PathKind, path: Seq<char>) -> bool {
    &&& lowered(call.name) == "write"@ || lowered(call.name) == "write_file"@ || lowered(call.name)
        == "create"@
    &&& names_path(call.arguments, path)
    &&& kind != PathKind::Missing
}

/// Whether a call would change a file that stands at the path it names, and that
/// was never read where it would have shown.
pub open spec fn edits_unread(
    call: CallView,
    transcript: &Transcript,
    kind: PathKind,
    path: Seq<char>,
) -> bool {
    &&& lowered(call.name) == "edit"@ || lowered(call.name) == "multiedit"@ || lowered(call.name)
        == "apply_patch"@ || lowered(call.name) == "edit_file"@
    &&& names_path(call.arguments, path)
    &&& kind == PathKind::File
    &&& transcript.is_legible()
    &&& !transcript.shows_read(path)
}

proof fn no_tool_is_both(name: Seq<char>)
    ensures
        !(writes(name) && edits(name)),
{
    writers_are_these(name);
    editors_are_these(name);
    reveal_strlit("write");
    reveal_strlit("write_file");
    reveal_strlit("create");
    reveal_strlit("edit");
    reveal_strlit("multiedit");
    reveal_strlit("apply_patch");
    reveal_strlit("edit_file");
    assert("write"@[0] == 'w' && "write_file"@[0] == 'w' && "create"@[0] == 'c');
    assert("edit"@[0] == 'e' && "multiedit"@[0] == 'm' && "apply_patch"@[0] == 'a');
    assert("edit_file"@[0] == 'e');
}

/// The check passes only where every call may proceed: none of them writes over
/// what stands at its path, and none changes a file that was not read.
pub proof fn a_pass_clears_every_call(
    calls: Seq<CallView>,
    transcript: &Transcript,
    kinds: Seq<PathKind>,
    i: int,
    path: Seq<char>,
)
    requires
        failure_from(calls, transcript, kinds, 0) is None,
        0 <= i < calls.len(),
    ensures
        !overwrites(calls[i], kinds[i], path),
        !edits_unread(calls[i], transcript, kinds[i], path),
{
    let at = first_failure(calls, transcript, kinds, 0);
    assert(call_failure(calls[i], transcript, kinds[i]) is None);
    paths_are_those_named(calls[i].arguments, path);
    writers_are_these(calls[i].name);
    editors_are_these(calls[i].name);
    no_tool_is_both(calls[i].name);
}

/// The check fails only for a call that may not proceed, the first of them, and
/// says which file it is about and what is wrong.
pub proof fn a_refusal_is_for_the_first_bad_call(
    calls: Seq<CallView>,
    transcript: &Transcript,
    kinds: Seq<PathKind>,
) -> (bad: (int, Seq<char>))
    requires
        failure_from(calls, transcript, kinds, 0) is Some,
    ensures
        ({
            let (i, path) = bad;
            let nudge = failure_from(calls, transcript, kinds, 0)->0;
            &&& 0 <= i < calls.len()
            &&& overwrites(calls[i], kinds[i], path) || edits_unread(
                calls[i],
                transcript,
                kinds[i],
                path,
            )
            &&& forall|j: int, other: Seq<char>|
                0 <= j < i ==> !#[trigger] overwrites(calls[j], kinds[j], other)
            &&& forall|j: int, other: Seq<char>|
                0 <= j < i ==> !#[trigger] edits_unread(calls[j], transcript, kinds[j], other)
            &&& overwrites(calls[i], kinds[i], path) && kinds[i] == PathKind::Directory ==> nudge
                == "\""@ + path
                + "\" is a directory, not a file. Provide the full path to the specific file you want to create."@
            &&& overwrites(calls[i], kinds[i], path) && kinds[i] != PathKind::Directory ==> nudge
                == "The file \""@ + path
                + "\" already exists. Read it first to understand its current contents, then use the edit tool to make your changes."@
            &&& edits_unread(calls[i], transcript, kinds[i], path) ==> nudge == "The file \""@
                + path
                + "\" has not been read in this conversation. Read it first so the edit matches its current contents, then make your change."@
        }),
{
    let i = first_failure(calls, transcript, kinds, 0);
    let path = path_of(calls[i].arguments)->0;
    paths_are_those_named(calls[i].arguments, path);
    writers_are_these(calls[i].name);
    editors_are_these(calls[i].name);
    no_tool_is_both(calls[i].name);
    assert forall|j: int, other: Seq<char>| 0 <= j < i implies !#[trigger] overwrites(
        calls[j],
        kinds[j],
        other,
    ) by {
        assert(call_failure(calls[j], transcript, kinds[j]) is None);
        paths_are_those_named(calls[j].arguments, other);
        writers_are_these(calls[j].name);
    }
    assert forall|j: int, other: Seq<char>| 0 <= j < i implies !#[trigger] edits_unread(
        calls[j],
        transcript,
        kinds[j],
        other,
    ) by {
        assert(call_failure(calls[j], transcript, kinds[j]) is None);
        paths_are_those_named(calls[j].arguments, other);
        editors_are_these(calls[j].name);
        no_tool_is_both(calls[j].name);
    }
    (i, path)
}

/// Whether a value is an object that holds a name and arguments as texts.
pub open spec fn holds_call(v: JsonView, name: Seq<char>, arguments: Seq<char>) -> bool {
    &&& v.get("name"@) == Some(JsonView::Str(name))
    &&& v.get("arguments"@) == Some(JsonView::Str(arguments))
}

/// Whether a message invokes a tool: as a call item itself, or by an entry of its
/// `tool_calls`.
pub open spec fn invokes(message: JsonView, name: Seq<char>, arguments: Seq<char>) -> bool {
    holds_call(message, name, arguments) || (message.get("tool_calls"@) matches Some(
        JsonView::Array(items),
    ) && some_entry_invokes(items, name, arguments))
}

/// Whether an entry of `tool_calls` invokes a tool.
pub open spec fn some_entry_invokes(
    items: Seq<JsonView>,
    name: Seq<char>,
    arguments: Seq<char>,
) -> bool {
    exists|j: int| 0 <= j < items.len() && entry_invokes(#[trigger] items[j], name, arguments)
}

/// Whether an entry holds a function's name and arguments.
pub open spec fn entry_invokes(item: JsonView, name: Seq<char>, arguments: Seq<char>) -> bool {
    item.get("function"@) matches Some(function) && holds_call(function, name, arguments)
}

proof fn nested_are_those(items: Seq<JsonView>, n: int, name: Seq<char>, arguments: Seq<char>)
    requires
        0 <= n <= items.len(),
    ensures
        nested_invocations(items, n).contains((name, arguments)) <==> exists|j: int|
            0 <= j < n && entry_invokes(#[trigger] items[j], name, arguments),
    decreases n,
{
    let call = (name, arguments);
    let list = nested_invocations(items, n);
    if n > 0 {
        nested_are_those(items, n - 1, name, arguments);
        let before = nested_invocations(items, n - 1);
        if before.contains(call) {
            let k = choose|k: int| 0 <= k < before.len() && before[k] == call;
            assert(list[k] == call);
        }
        if list.contains(call) && !before.contains(call) {
            let k = choose|k: int| 0 <= k < list.len() && list[k] == call;
            assert(k == before.len()) by {
                if k < before.len() {
                    assert(before[k] == call);
                }
            }
            assert(entry_invokes(items[n - 1], name, arguments));
        }
        if entry_invokes(items[n - 1], name, arguments) {
            assert(list == before.push(call));
            assert(list[before.len() as int] == call);
        }
    }
}

proof fn message_invokes(message: JsonView, name: Seq<char>, arguments: Seq<char>)
    ensures
        invocations(message).contains((name, arguments)) <==> invokes(message, name, arguments),
{
    let call = (name, arguments);
    let flat = match invocation_in(message) {
        Some(invocation) => seq![invocation],
        None => Seq::empty(),
    };
    if holds_call(message, name, arguments) {
        assert(flat[0] == call);
    }
    match items_in(message.get("tool_calls"@)) {
        Some(items) => {
            nested_are_those(items, items.len() as int, name, arguments);
            let nested = nested_invocations(items, items.len() as int);
            let all = flat + nested;
            if nested.contains(call) {
                let k = choose|k: int| 0 <= k < nested.len() && nested[k] == call;
                assert(all[flat.len() + k] == call);
            }
            if flat.contains(call) {
                assert(all[0] == call);
            }
            if all.contains(call) {
                let k = choose|k: int| 0 <= k < all.len() && all[k] == call;
                if k >= flat.len() {
                    assert(nested[k - flat.len()] == call);
                }
            }
        },
        None => {},
    }
}

/// What the first `n` messages invoke is what any of them invokes.
pub proof fn every_message_counts(
    messages: Seq<JsonView>,
    n: int,
    name: Seq<char>,
    arguments: Seq<char>,
)
    requires
        0 <= n <= messages.len(),
    ensures
        all_invocations(messages, n).contains((name, arguments)) <==> exists|j: int|
            0 <= j < n && invokes(#[trigger] messages[j], name, arguments),
    decreases n,
{
    let call = (name, arguments);
    let all = all_invocations(messages, n);
    if n > 0 {
        every_message_counts(messages, n - 1, name, arguments);
        message_invokes(messages[n - 1], name, arguments);
        let before = all_invocations(messages, n - 1);
        let more = invocations(messages[n - 1]);
        if before.contains(call) {
            let k = choose|k: int| 0 <= k < before.len() && before[k] == call;
            assert(all[k] == call);
        }
        if more.contains(call) {
            let k = choose|k: int| 0 <= k < more.len() && more[k] == call;
            assert(all[before.len() + k] == call);
        }
        if all.contains(call) {
            let k = choose|k: int| 0 <= k < all.len() && all[k] == call;
            if k < before.len() {
                assert(before[k] == call);
            } else {
                assert(more[k - before.len()] == call);
            }
        }
    }
}

/// An invocation reads the file at the path that it names, where its tool reads.
pub proof fn reading_is_by_name_and_path(
    name: Seq<char>,
    arguments: Seq<char>,
    path: Seq<char>,
)
    ensures
        reads_path((name, arguments), path) <==> (lowered(name) == "read"@ || lowered(name)
            == "read_file"@) && names_path(arguments, path),
{
    readers_are_these(name);
    paths_are_those_named(arguments, path);
}

} // verus!
