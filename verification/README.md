# guardrail

A transparent proxy for OpenAI-compatible servers that repairs malformed tool
calls before they reach the client. It speaks the Chat Completions and the
Responses API.

`src/` is the library: everything that the proxy decides. It is written in Verus,
and what each function does is stated in its contract and proved. `app/` is the
program around it: the servers, the database and the command line.

| Module | What it holds |
| --- | --- |
| `json`, `text`, `names` | JSON values, texts and text-keyed maps, with the models that contracts speak of |
| `members`, `written` | What JSON text names twice, and JSON text in an order of its own |
| `domain::rescue`, `pythonic`, `lenient` | Tool calls that a model wrote as text, and almost-JSON |
| `domain::validate`, `precondition`, `retry`, `respond` | What a call must meet, how it is repaired, and what the model is told |
| `domain::decode`, `model`, `responses` | Requests and answers of both APIs |
| `domain::sse`, `responses_sse` | Streams, assembled as they arrive |
| `domain::registry`, `provider`, `config`, `stored` | Which provider serves a model, and what is exposed |
| `domain::metrics`, `conversation`, `ledger`, `stats`, `report` | What is recorded, which requests belong together, and what they amount to |
| `domain::repetition` | Output that has fallen into a loop |
| `application` | What is done with a request, and the guardrail loop of each API |
| `admin` | What the admin server shows and changes |
| `connector`, `cli` | Headers, lines and options |

What rests on other crates and on the standard library without proof stands
where it is used, under doc comments that say what is claimed: reading and
writing JSON in `json`, header names, URLs and bytes in `connector`, characters
in `text` and `domain::lenient`, the clock in `domain::clock`, sorting in
`domain::distribution`.

The laws that the library keeps as a whole are the public proof functions at the
end of each module.
