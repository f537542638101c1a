//! What goes over the wire: responses as stream chunks, streams as responses.
use vstd::prelude::*;

use crate::domain::decode::{
    calls_response, chat_call, chat_calls, decode_response, decoded, first_message, message_of,
    response_with_text, response_with_tool_calls_and_text, text_response, with_ids, CallView,
    ModelOutput, OutputView,
};
use crate::domain::responses::{text_body, with_text};
use crate::domain::responses_sse::{COMPLETED, TEXT_DELTA};
use crate::domain::sse::{content_in, event_in, has_delta, parse_sse_line};
use crate::json::{
    field, field_of, is_one_line, is_plain, items_in, json_of, json_text, parse, reads_back, render,
    text_in, text_of_value, views, Json, JsonObject, JsonView,
};
use crate::text::{
    find, find_from, find_from_is_first, lines, lines_of, occurs_at, same_text, starts_with, texts,
    trim_end, trim_start, without_return,
};

verus! {

// ── reshaping ───────────────────────────────────────────────────────────────

/// An item of a list with its place in it.
pub open spec fn numbered_item(item: JsonView, i: int) -> JsonView {
    match item {
        JsonView::Object(members) => JsonView::Object(members.insert("index"@, JsonView::Int(i))),
        other => other,
    }
}

/// A message whose tool calls tell their places, as stream chunks need them to.
pub open spec fn numbered(message: JsonView) -> JsonView {
    match (message, items_in(message.get("tool_calls"@))) {
        (JsonView::Object(members), Some(items)) => JsonView::Object(
            members.insert(
                "tool_calls"@,
                JsonView::Array(Seq::new(items.len(), |i: int| numbered_item(items[i], i))),
            ),
        ),
        _ => message,
    }
}

/// A choice whose member `from` is called `to`.
pub open spec fn moved_member(
    choice: JsonView,
    from: Seq<char>,
    to: Seq<char>,
    number: bool,
) -> JsonView {
    match choice {
        JsonView::Object(members) => if members.contains_key(from) {
            let message = members[from];
            JsonView::Object(
                members.remove(from).insert(
                    to,
                    if number {
                        numbered(message)
                    } else {
                        message
                    },
                ),
            )
        } else {
            choice
        },
        _ => choice,
    }
}

/// A response of another kind, whose choices hold under `to` what they held
/// under `from`.
pub open spec fn reshaped(
    v: JsonView,
    object: Seq<char>,
    from: Seq<char>,
    to: Seq<char>,
    number: bool,
) -> JsonView {
    match v {
        JsonView::Object(members) => {
            let named = members.insert("object"@, JsonView::Str(object));
            match items_in(JsonView::Object(named).get("choices"@)) {
                Some(choices) => JsonView::Object(
                    named.insert(
                        "choices"@,
                        JsonView::Array(
                            choices.map_values(
                                |c: JsonView| moved_member(c, from, to, number),
                            ),
                        ),
                    ),
                ),
                None => JsonView::Object(named),
            }
        },
        _ => v,
    }
}

/// A response as a stream chunk.
pub open spec fn chunk_of(v: JsonView, number: bool) -> JsonView {
    reshaped(v, "chat.completion.chunk"@, "message"@, "delta"@, number)
}

/// A stream chunk as a response.
pub open spec fn response_of(v: JsonView) -> JsonView {
    reshaped(v, "chat.completion"@, "delta"@, "message"@, false)
}

fn number_calls(message: &Json) -> (out: Json)
    ensures
        out@ == numbered(message@),
{
    broadcast use crate::json::array_view;

    let members = match message {
        Json::Object(members) => members,
        _ => {
            return message.clone();
        },
    };
    let items = match members.get("tool_calls") {
        Some(Json::Array(items)) => items,
        _ => {
            return message.clone();
        },
    };
    let ghost all = views(items@);
    let mut list: Vec<Json> = Vec::new();
    for i in 0..items.len()
        invariant
            all == views(items@),
            views(list@) == Seq::new(i as nat, |k: int| numbered_item(all[k], k)),
    {
        let ghost read = views(list@);
        assert(all[i as int] == items@[i as int]@);
        let item = match &items[i] {
            Json::Object(o) => Json::Object(o.clone().with("index", Json::Unsigned(i as u64))),
            other => other.clone(),
        };
        list.push(item);
        assert(views(list@) =~= read.push(item@));
        assert(views(list@) =~= Seq::new((i + 1) as nat, |k: int| numbered_item(all[k], k)));
    }
    assert(views(list@) =~= Seq::new(all.len(), |k: int| numbered_item(all[k], k)));
    Json::Object(members.clone().with("tool_calls", Json::Array(list)))
}

fn move_member(choice: &Json, from: &str, to: &str, number: bool) -> (out: Json)
    ensures
        out@ == moved_member(choice@, from@, to@, number),
{
    match choice {
        Json::Object(members) => match members.get(from) {
            Some(message) => {
                let moved = if number {
                    number_calls(message)
                } else {
                    message.clone()
                };
                Json::Object(members.clone().without(from).with(to, moved))
            },
            None => choice.clone(),
        },
        _ => choice.clone(),
    }
}

fn reshape(v: &Json, object: &str, from: &str, to: &str, number: bool) -> (out: Json)
    ensures
        out@ == reshaped(v@, object@, from@, to@, number),
{
    broadcast use crate::json::array_view;

    let members = match v {
        Json::Object(members) => members,
        _ => {
            return v.clone();
        },
    };
    let named = members.clone().with("object", Json::text(object));
    let mut list: Vec<Json> = Vec::new();
    match named.get("choices") {
        Some(Json::Array(choices)) => {
            let ghost all = views(choices@).map_values(
                |c: JsonView| moved_member(c, from@, to@, number),
            );
            for i in 0..choices.len()
                invariant
                    all == views(choices@).map_values(
                        |c: JsonView| moved_member(c, from@, to@, number),
                    ),
                    views(list@) == all.take(i as int),
            {
                let ghost read = views(list@);
                let choice = move_member(&choices[i], from, to, number);
                list.push(choice);
                assert(views(list@) =~= read.push(choice@));
                assert(views(list@) =~= all.take(i + 1));
            }
            assert(views(list@) =~= all);
        },
        _ => {
            return Json::Object(named);
        },
    }
    Json::Object(named.with("choices", Json::Array(list)))
}

// ── lines ───────────────────────────────────────────────────────────────────

/// JSON as a line of a stream.
pub open spec fn data_line(v: JsonView) -> Seq<char> {
    "data: "@ + json_text(v) + "\n\n"@
}

/// Whether a line of a stream carries a value: whoever reads the stream line by
/// line reads that value, and then a blank line.
pub open spec fn carries(line: Seq<char>, v: JsonView) -> bool {
    &&& lines(line).len() == 2
    &&& event_in(lines(line)[0]) == Some(v)
    &&& lines(line)[1].len() == 0
}

proof fn data_is_carried(text: Seq<char>, v: JsonView)
    requires
        is_one_line(text),
        text[0] == '{',
        json_of(text) == Some(v),
    ensures
        carries("data: "@ + text + "\n\n"@, v),
{
    reveal_strlit("data: ");
    reveal_strlit("data:");
    reveal_strlit("\n\n");
    reveal_strlit("[DONE]");
    let head = "data: "@ + text;
    let line = head + "\n\n"@;
    let feed = seq!['\n'];
    let n = head.len() as int;
    assert(occurs_at(line, feed, n)) by {
        assert(line.subrange(n, n + 1) =~= feed);
    }
    assert forall|i: int| 0 <= i < n implies !occurs_at(line, feed, i) by {
        assert(line[i] != '\n');
        if occurs_at(line, feed, i) {
            assert(line.subrange(i, i + 1)[0] == feed[0]);
        }
    }
    find_from_is_first(line, feed, 0);
    first_place(line, feed, n, 0);
    assert(find(line, feed) == Some(n));
    assert(line.take(n) =~= head);
    assert(head.last() == text.last());
    assert(without_return(head) == head);
    let rest = line.skip(n + 1);
    assert(rest =~= feed);
    assert(occurs_at(rest, feed, 0)) by {
        assert(rest.subrange(0, 1) =~= feed);
    }
    assert(find(rest, feed) == Some(0int));
    assert(rest.take(0) =~= Seq::empty());
    assert(rest.skip(1) =~= Seq::empty());
    assert(lines(rest.skip(1)) =~= Seq::empty());
    assert(without_return(rest.take(0)) =~= Seq::empty());
    assert(lines(rest) =~= seq![without_return(rest.take(0))] + lines(rest.skip(1)));
    assert(lines(rest) =~= seq![Seq::empty()]);
    assert(lines(line) =~= seq![head, Seq::empty()]);
    assert(starts_with(head, "data:"@)) by {
        assert(head.subrange(0, 5) =~= "data:"@);
    }
    let data = head.skip(5);
    assert(data[0] == ' ');
    assert(data.drop_first() =~= text);
    assert(trim_start(data) == trim_start(text));
    assert(trim_start(text) == text);
    assert(trim_end(text) == text);
    assert("[DONE]"@[0] == '[');
}

proof fn first_place(s: Seq<char>, p: Seq<char>, n: int, from: int)
    requires
        0 <= from <= n <= s.len(),
        occurs_at(s, p, n),
        forall|i: int| from <= i < n ==> !occurs_at(s, p, i),
    ensures
        find_from(s, p, from) == Some(n),
    decreases n - from,
{
    if from < n {
        first_place(s, p, n, from + 1);
    }
}

fn write_line(v: &Json) -> (line: String)
    ensures
        line@ == data_line(v@),
        v@ is Object && reads_back(v@) ==> carries(line@, v@),
{
    let text = render(v);
    proof {
        if v@ is Object && reads_back(v@) {
            data_is_carried(text@, v@);
        }
    }
    "data: ".to_owned().concat(text.as_str()).concat("\n\n")
}

/// A response as a line of a stream.
pub fn to_sse_chunk(chunk: &Json) -> (line: String)
    ensures
        line@ == data_line(chunk_of(chunk@, true)),
        chunk@ is Object && reads_back(chunk_of(chunk@, true)) ==> carries(
            line@,
            chunk_of(chunk@, true),
        ),
{
    write_line(&reshape(chunk, "chat.completion.chunk", "message", "delta", true))
}

/// What stands for a response that is no object.
pub open spec fn blank_response() -> JsonView {
    JsonView::Object(
        map![
            "id"@ => JsonView::Str("guardrail-0"@),
            "object"@ => JsonView::Str("chat.completion"@),
            "choices"@ => JsonView::Array(Seq::empty()),
        ],
    )
}

/// The chunk that a chat client gets for a response.
pub open spec fn sent_chunk(value: JsonView) -> JsonView {
    chunk_of(
        if value is Object {
            value
        } else {
            blank_response()
        },
        true,
    )
}

/// A response as the line that a chat client gets.
pub fn value_line(value: &Json) -> (line: String)
    ensures
        line@ == data_line(sent_chunk(value@)),
        reads_back(sent_chunk(value@)) ==> carries(line@, sent_chunk(value@)),
{
    broadcast use crate::json::array_view;

    match value {
        Json::Object(_) => to_sse_chunk(value),
        _ => {
            let choices: Vec<Json> = Vec::new();
            assert(views(choices@) =~= Seq::empty());
            to_sse_chunk(
                &Json::Object(
                    JsonObject::new().with("id", Json::text("guardrail-0")).with(
                        "object",
                        Json::text("chat.completion"),
                    ).with("choices", Json::Array(choices)),
                ),
            )
        },
    }
}

/// A response as the event that ends a Responses stream.
pub open spec fn completed_event(body: JsonView) -> JsonView {
    JsonView::Object(map!["type"@ => JsonView::Str(COMPLETED@), "response"@ => body])
}

/// A response as the line that ends a Responses stream.
pub fn completed_line(body: &Json) -> (line: String)
    ensures
        line@ == data_line(completed_event(body@)),
        reads_back(completed_event(body@)) ==> carries(line@, completed_event(body@)),
{
    write_line(
        &Json::Object(
            JsonObject::new().with("type", Json::text(COMPLETED)).with("response", body.clone()),
        ),
    )
}

/// A backend failure as an event, for a client whose stream has begun.
pub open spec fn failure_event(status: Seq<char>, code: u16) -> JsonView {
    JsonView::Object(
        map![
            "error"@ => JsonView::Object(
                map![
                    "message"@ => JsonView::Str(
                        "The upstream provider returned "@ + status + "."@,
                    ),
                    "type"@ => JsonView::Str("upstream_error"@),
                    "code"@ => JsonView::Int(code as int),
                ],
            ),
        ],
    )
}

/// A backend failure as a line, for a client whose stream has begun: its status
/// can no longer be told otherwise.
pub fn failure_line(status: &str, code: u16) -> (line: String)
    ensures
        line@ == data_line(failure_event(status@, code)),
        carries(line@, failure_event(status@, code)),
{
    proof {
        assert(is_plain(failure_event(status@, code), 100)) by {
            reveal_with_fuel(is_plain, 4);
        }
    }
    let message = "The upstream provider returned ".to_owned().concat(status).concat(".");
    let error = JsonObject::new().with("message", Json::Str(message)).with(
        "type",
        Json::text("upstream_error"),
    ).with("code", Json::Unsigned(code as u64));
    write_line(&Json::Object(JsonObject::new().with("error", Json::Object(error))))
}

/// An answer that broke off as an event, for a client that is reading it.
pub open spec fn broken_event(why: Seq<char>) -> JsonView {
    JsonView::Object(
        map![
            "error"@ => JsonView::Object(
                map![
                    "message"@ => JsonView::Str(
                        "The upstream provider's answer broke off: "@ + why,
                    ),
                    "type"@ => JsonView::Str("upstream_error"@),
                    "code"@ => JsonView::Int(502),
                ],
            ),
        ],
    )
}

/// An answer that broke off as an event: a fragment must not pass for an answer.
pub fn broken_answer(why: &str) -> (event: Json)
    ensures
        event@ == broken_event(why@),
{
    let message = "The upstream provider's answer broke off: ".to_owned().concat(why);
    let error = JsonObject::new().with("message", Json::Str(message)).with(
        "type",
        Json::text("upstream_error"),
    ).with("code", Json::Unsigned(502));
    Json::Object(JsonObject::new().with("error", Json::Object(error)))
}

/// An event as a line of a stream.
pub fn event_line(event: &Json) -> (line: String)
    ensures
        line@ == data_line(event@),
        event@ is Object && reads_back(event@) ==> carries(line@, event@),
{
    write_line(event)
}

/// A JSON response of a backend that does not stream, as a stream. Text that is
/// not JSON makes an empty one.
pub open spec fn stream_of(json: Seq<char>) -> Seq<char> {
    (match json_of(json) {
        Some(v) => data_line(chunk_of(v, false)),
        None => Seq::empty(),
    }) + "data: [DONE]\n\n"@
}

/// A JSON response of a backend that does not stream, as a stream.
pub fn json_to_sse(json: &str) -> (sse: String)
    ensures
        sse@ == stream_of(json@),
{
    let sse = match parse(json) {
        Some(v) => write_line(&reshape(&v, "chat.completion.chunk", "message", "delta", false)),
        None => String::new(),
    };
    let out = sse.concat("data: [DONE]\n\n");
    assert(out@ =~= stream_of(json@));
    out
}

// ── streams as responses ────────────────────────────────────────────────────

/// The last chunk of the first `n` lines, and the text of all.
pub open spec fn chunks_read(list: Seq<Seq<char>>, n: int) -> (JsonView, Seq<char>)
    decreases n,
{
    if n <= 0 {
        (JsonView::Null, Seq::empty())
    } else {
        let (last, text) = chunks_read(list, n - 1);
        match event_in(list[n - 1]) {
            Some(chunk) => (chunk, text + content_in(chunk)),
            None => (last, text),
        }
    }
}

/// The text that is carried beside the calls of a response.
pub open spec fn text_beside(body: JsonView) -> Seq<char> {
    match text_in(field(first_message(body), "content"@)) {
        Some(text) => text,
        None => Seq::empty(),
    }
}

/// The response that a last chunk and the text of all chunks make.
pub open spec fn rebuilt(last: JsonView, text: Seq<char>) -> JsonView {
    if last is Null {
        JsonView::Null
    } else {
        let body = response_of(last);
        match decoded(body) {
            OutputView::ToolCalls(calls) => calls_response(body, calls, text_beside(body)),
            OutputView::Text(_) => text_response(body, text),
        }
    }
}

/// The response that a stream of chunks makes, for a client that asked for
/// none. Calls are those of the last chunk, text is that of all.
pub fn sse_chunks_to_json(sse: &str) -> (body: Json)
    ensures
        ({
            let list = lines(sse@);
            let (last, text) = chunks_read(list, list.len() as int);
            body@ == rebuilt(last, text)
        }),
{
    let list = lines_of(sse);
    let ghost all = texts(list@);
    let mut last = Json::Null;
    let mut text = String::new();
    for i in 0..list.len()
        invariant
            all == texts(list@),
            chunks_read(all, i as int) == (last@, text@),
    {
        assert(all[i as int] == list@[i as int]@);
        if let Some(chunk) = parse_sse_line(list[i].as_str()) {
            let delta = match chunk.get("choices") {
                Some(choices) => field_of(choices.at(0), "delta"),
                None => None,
            };
            let ghost before = text@;
            if let Some(content) = text_of_value(field_of(delta, "content")) {
                text.append(content);
            }
            assert(text@ =~= before + content_in(chunk@));
            last = chunk;
        }
    }
    if last.is_null() {
        return Json::Null;
    }
    let body = reshape(&last, "chat.completion", "delta", "message", false);
    match decode_response(&body) {
        ModelOutput::ToolCalls(calls) => {
            let beside = match text_of_value(field_of(message_of(&body), "content")) {
                Some(text) => text.to_owned(),
                None => String::new(),
            };
            assert(beside@ =~= text_beside(body@));
            response_with_tool_calls_and_text(&body, calls.as_slice(), beside.as_str())
        },
        ModelOutput::Text(_) => response_with_text(&body, text.as_str()),
    }
}

/// The last response that ended a stream among the first `n` lines, and the
/// text of all deltas.
pub open spec fn events_read(list: Seq<Seq<char>>, n: int) -> (Option<JsonView>, Seq<char>)
    decreases n,
{
    if n <= 0 {
        (None, Seq::empty())
    } else {
        let (last, text) = events_read(list, n - 1);
        match event_in(list[n - 1]) {
            Some(event) => match text_in(event.get("type"@)) {
                Some(kind) => if kind == COMPLETED@ {
                    match event.get("response"@) {
                        Some(response) => (Some(response), text),
                        None => (last, text),
                    }
                } else if kind == TEXT_DELTA@ {
                    match text_in(event.get("delta"@)) {
                        Some(delta) => (last, text + delta),
                        None => (last, text),
                    }
                } else {
                    (last, text)
                },
                None => (last, text),
            },
            None => (last, text),
        }
    }
}

/// The response that a stream of events makes, for a client that asked for
/// none: the one that ended it last, or else one that says the text of the
/// deltas.
pub fn responses_sse_to_json(sse: &str) -> (body: Json)
    ensures
        ({
            let list = lines(sse@);
            let (last, text) = events_read(list, list.len() as int);
            body@ == match last {
                Some(response) => response,
                None => text_body(JsonView::Null, text),
            }
        }),
{
    let list = lines_of(sse);
    let ghost all = texts(list@);
    let mut last: Option<Json> = None;
    let mut text = String::new();
    for i in 0..list.len()
        invariant
            all == texts(list@),
            events_read(all, i as int) == (crate::json::seen_json(last), text@),
    {
        assert(all[i as int] == list@[i as int]@);
        if let Some(event) = parse_sse_line(list[i].as_str()) {
            if let Some(kind) = text_of_value(event.get("type")) {
                if same_text(kind, COMPLETED) {
                    if let Some(response) = event.get("response") {
                        last = Some(response.clone());
                    }
                } else if same_text(kind, TEXT_DELTA) {
                    if let Some(delta) = text_of_value(event.get("delta")) {
                        text.append(delta);
                    }
                }
            }
        }
    }
    match last {
        Some(response) => response,
        None => with_text(&Json::Null, text.as_str()),
    }
}

// ── laws ────────────────────────────────────────────────────────────────────

proof fn member_names()
    ensures
        "role"@ != "content"@,
        "role"@ != "tool_calls"@,
        "content"@ != "tool_calls"@,
        "index"@ != "message"@,
        "index"@ != "finish_reason"@,
        "message"@ != "finish_reason"@,
        "delta"@ != "message"@,
        "delta"@ != "index"@,
        "delta"@ != "finish_reason"@,
        "object"@ != "choices"@,
        "index"@ != "function"@,
        "index"@ != "id"@,
        "index"@ != "type"@,
{
    reveal_strlit("role");
    reveal_strlit("content");
    reveal_strlit("tool_calls");
    reveal_strlit("index");
    reveal_strlit("message");
    reveal_strlit("finish_reason");
    reveal_strlit("delta");
    reveal_strlit("object");
    reveal_strlit("choices");
    reveal_strlit("function");
    reveal_strlit("id");
    reveal_strlit("type");
    assert("index"@[0] == 'i' && "delta"@[0] == 'd');
    assert("role"@.len() == 4 && "content"@.len() == 7 && "tool_calls"@.len() == 10);
    assert("message"@.len() == 7 && "finish_reason"@.len() == 13 && "index"@.len() == 5);
    assert("object"@.len() == 6 && "choices"@.len() == 7 && "function"@.len() == 8);
    assert("id"@.len() == 2 && "type"@.len() == 4 && "delta"@.len() == 5);
}

proof fn numbers_change_no_call(items: Seq<JsonView>, n: int)
    requires
        0 <= n <= items.len(),
    ensures
        chat_calls(Seq::new(items.len(), |i: int| numbered_item(items[i], i)), n) == chat_calls(
            items,
            n,
        ),
    decreases n,
{
    if n > 0 {
        member_names();
        numbers_change_no_call(items, n - 1);
        let list = Seq::new(items.len(), |i: int| numbered_item(items[i], i));
        assert(list[n - 1] == numbered_item(items[n - 1], n - 1));
        assert(chat_call(numbered_item(items[n - 1], n - 1)) == chat_call(items[n - 1]));
    }
}

/// A chunk that a line carries is the whole of what is gathered from that line.
pub proof fn carried_chunks_are_gathered(line: Seq<char>, v: JsonView)
    ensures
        carries(line, v) ==> chunks_read(lines(line), 2) == (v, content_in(v)),
{
    if carries(line, v) {
        let list = lines(line);
        assert(event_in(list[1]) is None) by {
            reveal_strlit("data:");
        }
        reveal_with_fuel(chunks_read, 3);
        assert(Seq::<char>::empty() + content_in(v) =~= content_in(v));
    }
}

/// A response that is sent as a chunk and put together again says the same: the
/// same calls, or the same text.
pub proof fn chunks_round_trip(v: JsonView)
    requires
        v.get("choices"@) matches Some(JsonView::Array(choices)) && choices.len() > 0
            && choices[0] is Object && choices[0].get("delta"@) is None
            && choices[0].get("message"@) is Some,
    ensures
        decoded(response_of(chunk_of(v, true))) == decoded(v),
{
    member_names();
    let members = v->Object_0;
    let choices = members["choices"@]->Array_0;
    let chunk = chunk_of(v, true);
    let cs = choices.map_values(|c: JsonView| moved_member(c, "message"@, "delta"@, true));
    assert(chunk.get("choices"@) == Some(JsonView::Array(cs)));
    let back = response_of(chunk);
    let bs = cs.map_values(|c: JsonView| moved_member(c, "delta"@, "message"@, false));
    assert(back.get("choices"@) == Some(JsonView::Array(bs)));
    let m = choices[0]->Object_0;
    let message = m["message"@];
    assert(cs[0] == moved_member(choices[0], "message"@, "delta"@, true));
    assert(bs[0] == moved_member(cs[0], "delta"@, "message"@, false));
    assert(bs[0].get("message"@) == Some(numbered(message)));
    assert(first_message(v) == Some(message));
    assert(first_message(back) == Some(numbered(message)));
    if let Some(items) = items_in(message.get("tool_calls"@)) {
        numbers_change_no_call(items, items.len() as int);
        assert(numbered(message).get("content"@) == message.get("content"@));
    }
}

/// What a session answers reaches a client that asked for no stream as it was
/// meant: the calls with their ids and the text beside them, or the text.
pub proof fn answers_survive_buffering(
    template: JsonView,
    calls: Seq<CallView>,
    text: Seq<char>,
)
    ensures
        decoded(response_of(chunk_of(text_response(template, text), true))) == OutputView::Text(
            text,
        ),
        calls.len() > 0 ==> decoded(
            response_of(chunk_of(calls_response(template, calls, text), true)),
        ) == OutputView::ToolCalls(with_ids(calls)),
{
    member_names();
    crate::domain::decode::text_round_trip(template, text);
    chunks_round_trip(text_response(template, text));
    if calls.len() > 0 {
        crate::domain::decode::calls_round_trip(template, calls, text);
        chunks_round_trip(calls_response(template, calls, text));
    }
}

proof fn chunks_of_prefix(a: Seq<Seq<char>>, b: Seq<Seq<char>>, n: int)
    requires
        0 <= n <= a.len(),
        n <= b.len(),
        forall|i: int| 0 <= i < n ==> #[trigger] a[i] == b[i],
    ensures
        chunks_read(a, n) == chunks_read(b, n),
        events_read(a, n) == events_read(b, n),
    decreases n,
{
    if n > 0 {
        chunks_of_prefix(a, b, n - 1);
        assert(a[n - 1] == b[n - 1]);
    }
}

/// What is gathered of chunks is the text of every one of them, in their order and
/// as it is, and the last chunk.
pub proof fn every_chunk_is_gathered(
    list: Seq<Seq<char>>,
    line: Seq<char>,
    chunk: JsonView,
    delta: Map<Seq<char>, JsonView>,
    text: Seq<char>,
)
    requires
        event_in(line) == Some(chunk),
        has_delta(chunk, delta),
    ensures
        ({
            let n = list.len() as int;
            let (_, said) = chunks_read(list, n);
            let (last, now) = chunks_read(list.push(line), n + 1);
            &&& last == chunk
            &&& delta.contains_key("content"@) && delta["content"@] == JsonView::Str(text) ==> now
                == said + text
            &&& !(delta.contains_key("content"@) && delta["content"@] is Str) ==> now == said
        }),
        chunks_read(Seq::empty(), 0) == (JsonView::Null, Seq::<char>::empty()),
{
    let n = list.len() as int;
    chunks_of_prefix(list, list.push(line), n);
    let said = chunks_read(list, n).1;
    assert(said + Seq::<char>::empty() =~= said);
}

/// A line that carries nothing adds nothing.
pub proof fn other_lines_add_nothing(list: Seq<Seq<char>>, line: Seq<char>)
    requires
        event_in(line) is None,
    ensures
        ({
            let n = list.len() as int;
            &&& chunks_read(list.push(line), n + 1) == chunks_read(list, n)
            &&& events_read(list.push(line), n + 1) == events_read(list, n)
        }),
{
    chunks_of_prefix(list, list.push(line), list.len() as int);
}

/// What chunks make is the calls of the last one, with the text beside them; or
/// the text of all, where it makes none.
pub proof fn chunks_make_calls_or_text(last: JsonView, text: Seq<char>)
    ensures
        last is Null ==> rebuilt(last, text) is Null,
        !(last is Null) ==> match decoded(response_of(last)) {
            OutputView::ToolCalls(calls) => rebuilt(last, text) == calls_response(
                response_of(last),
                calls,
                match first_message(response_of(last)) {
                    Some(message) => match message.get("content"@) {
                        Some(JsonView::Str(beside)) => beside,
                        _ => Seq::empty(),
                    },
                    None => Seq::empty(),
                },
            ),
            OutputView::Text(_) => rebuilt(last, text) == text_response(response_of(last), text),
        },
{
}

/// Of a stream of events the last response that ended it counts, and every delta of
/// text is gathered as it is.
pub proof fn every_event_is_gathered(
    list: Seq<Seq<char>>,
    line: Seq<char>,
    event: JsonView,
    response: JsonView,
    text: Seq<char>,
)
    requires
        event_in(line) == Some(event),
    ensures
        ({
            let n = list.len() as int;
            let (last, said) = events_read(list, n);
            let now = events_read(list.push(line), n + 1);
            &&& event.get("type"@) == Some(JsonView::Str("response.completed"@)) && event.get(
                "response"@,
            ) == Some(response) ==> now == (Some(response), said)
            &&& event.get("type"@) == Some(JsonView::Str("response.output_text.delta"@))
                && event.get("delta"@) == Some(JsonView::Str(text)) ==> now == (last, said + text)
            &&& event.get("type"@) != Some(JsonView::Str("response.completed"@)) && event.get(
                "type"@,
            ) != Some(JsonView::Str("response.output_text.delta"@)) ==> now == (last, said)
        }),
        events_read(Seq::empty(), 0) == (None::<JsonView>, Seq::<char>::empty()),
{
    chunks_of_prefix(list, list.push(line), list.len() as int);
    reveal_strlit("response.completed");
    reveal_strlit("response.output_text.delta");
    assert("response.completed"@.len() == 18);
    assert("response.output_text.delta"@.len() == 26);
}

/// A response that is sent as a chunk says the same, under the names that chunks
/// have: its message is a delta, its calls tell their places, and all else is as
/// it was.
pub proof fn chunks_say_what_responses_say(
    v: JsonView,
    choices: Seq<JsonView>,
    i: int,
    name: Seq<char>,
    j: int,
)
    requires
        v.get("choices"@) == Some(JsonView::Array(choices)),
        0 <= i < choices.len(),
        choices[i] is Object,
        choices[i].get("message"@) is Some,
    ensures
        ({
            let chunk = chunk_of(v, true);
            let message = choices[i].get("message"@)->0;
            &&& chunk.get("object"@) == Some(JsonView::Str("chat.completion.chunk"@))
            &&& name != "object"@ && name != "choices"@ ==> chunk.get(name) == v.get(name)
            &&& chunk.get("choices"@) matches Some(JsonView::Array(sent)) && sent.len()
                == choices.len() && {
                &&& name != "message"@ && name != "delta"@ ==> sent[i].get(name) == choices[i].get(
                    name,
                )
                &&& sent[i].get("message"@) is None
                &&& sent[i].get("delta"@) matches Some(delta) && {
                    &&& name != "tool_calls"@ ==> delta.get(name) == message.get(name)
                    &&& message.get("tool_calls"@) matches Some(JsonView::Array(items)) ==> {
                        delta.get("tool_calls"@) matches Some(JsonView::Array(told)) && told.len()
                            == items.len() && (0 <= j < items.len() && items[j] is Object ==> {
                            &&& told[j].get("index"@) == Some(JsonView::Int(j))
                            &&& name != "index"@ ==> told[j].get(name) == items[j].get(name)
                        })
                    }
                }
            }
        }),
{
    member_names();
    reveal_strlit("object");
    reveal_strlit("choices");
    reveal_strlit("message");
    reveal_strlit("delta");
    assert("object"@.len() == 6 && "choices"@.len() == 7 && "message"@.len() == 7);
    assert("delta"@.len() == 5);
    let cs = choices.map_values(|c: JsonView| moved_member(c, "message"@, "delta"@, true));
    assert(chunk_of(v, true).get("choices"@) == Some(JsonView::Array(cs)));
    assert(cs[i] == moved_member(choices[i], "message"@, "delta"@, true));
}

/// A stream that a JSON response is turned into carries that response as its one
/// chunk, and then ends; what is no JSON gives an empty stream.
pub proof fn a_response_becomes_a_stream(json: Seq<char>)
    ensures
        match json_of(json) {
            Some(v) => stream_of(json) == "data: "@ + json_text(chunk_of(v, false)) + "\n\n"@
                + "data: [DONE]\n\n"@,
            None => stream_of(json) == "data: [DONE]\n\n"@,
        },
{
    assert(Seq::<char>::empty() + "data: [DONE]\n\n"@ =~= "data: [DONE]\n\n"@);
}

/// A failure that is told in a stream names the status, and is an error of the
/// upstream.
pub proof fn failures_are_told_in_the_stream(status: Seq<char>, code: u16, why: Seq<char>)
    ensures
        failure_event(status, code).get("error"@) matches Some(error) && error.get("message"@)
            == Some(JsonView::Str("The upstream provider returned "@ + status + "."@))
            && error.get("type"@) == Some(JsonView::Str("upstream_error"@)) && error.get("code"@)
            == Some(JsonView::Int(code as int)),
        broken_event(why).get("error"@) matches Some(error) && error.get("message"@) == Some(
            JsonView::Str("The upstream provider's answer broke off: "@ + why),
        ) && error.get("type"@) == Some(JsonView::Str("upstream_error"@)) && error.get("code"@)
            == Some(JsonView::Int(502)),
{
    reveal_strlit("message");
    reveal_strlit("type");
    reveal_strlit("code");
    assert("message"@.len() == 7 && "type"@[0] == 't' && "code"@[0] == 'c');
}

/// The response that ends a Responses stream is carried whole.
pub proof fn the_last_event_carries_the_response(body: JsonView)
    ensures
        completed_event(body).get("type"@) == Some(JsonView::Str("response.completed"@)),
        completed_event(body).get("response"@) == Some(body),
{
    reveal_strlit("type");
    reveal_strlit("response");
    assert("type"@.len() == 4 && "response"@.len() == 8);
}

} // verus!
