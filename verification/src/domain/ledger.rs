//! What is recorded of a request, and the conversation that it belongs to.
use vstd::prelude::*;

use super::conversation::{
    close, continues, encoded, gap_floor, hashes_in, hex_digits, hex_text, is_gap_floor, is_latest,
    match_parent, qualifies, Candidate, PrefixChain,
};
use super::decode::{copy_text, owned_text};
use super::metrics::{Conversation, Outcome, OutcomeRecord, Usage};
use super::tally::{ascending, distinct_keys, find_key, key, keys, precedes, precedes_is_total};
use crate::text::{
    before, decimal, decimal_reads_back, same_text, signed_decimal, signed_text, sorts_before, strs,
};

verus! {

/// The beginning of an id that was given to a turn here, rather than by the
/// backend.
pub const INFERRED_PREFIX: &'static str = "inferred:";

/// A recorded request.
#[derive(Debug, PartialEq, Eq)]
pub struct Row {
    /// Rows are numbered as they are recorded.
    pub id: i64,
    pub ts: String,
    pub provider: Option<String>,
    pub model: String,
    pub outcome: String,
    pub error_category: Option<String>,
    pub parser: Option<String>,
    pub tool_name: Option<String>,
    pub retries: u32,
    pub fixed: bool,
    pub detail: Option<String>,
    /// The usage is absent where the backend reported none.
    pub prompt_tokens: Option<i64>,
    pub completion_tokens: Option<i64>,
    pub cached_tokens: Option<i64>,
    pub billed_calls: Option<i64>,
    /// The id of the turn in its conversation.
    pub response_id: Option<String>,
    /// The id of the turn that this one continues.
    pub parent_id: Option<String>,
    pub prefix_chain: Option<String>,
    /// The hash of the whole transcript, by which the next turn finds this one.
    pub head_hash: Option<i64>,
}

// ── recording ───────────────────────────────────────────────────────────────

/// The digits of a number in hexadecimal, without leading zeros.
pub open spec fn hex(n: nat) -> Seq<char>
    decreases n,
{
    if n < 16 {
        hex_digits(n, 1)
    } else {
        hex(n / 16) + hex_digits(n % 16, 1)
    }
}

fn short_hex(n: u64) -> (text: String)
    ensures
        text@ == hex(n as nat),
    decreases n,
{
    if n < 16 {
        hex_text(n, 1)
    } else {
        short_hex(n / 16).concat(hex_text(n % 16, 1).as_str())
    }
}

/// The bits of a signed number, read as an unsigned one.
pub open spec fn bits_of(n: i64) -> int {
    if n >= 0 {
        n as int
    } else {
        n + 0x1_0000_0000_0000_0000
    }
}

fn unsigned_bits(n: i64) -> (bits: u64)
    ensures
        bits == bits_of(n),
{
    if n >= 0 {
        n as u64
    } else {
        (n - i64::MIN) as u64 + 0x8000_0000_0000_0000
    }
}

/// The bits of an unsigned number, read as a signed one.
pub open spec fn signed_of(n: u64) -> int {
    if n < 0x8000_0000_0000_0000 {
        n as int
    } else {
        n - 0x1_0000_0000_0000_0000
    }
}

fn signed_bits(n: u64) -> (bits: i64)
    ensures
        bits == signed_of(n),
{
    if n < 0x8000_0000_0000_0000 {
        n as i64
    } else {
        (n - 0x8000_0000_0000_0000) as i64 + i64::MIN
    }
}

/// The id of a turn whose conversation was inferred: its transcript's hash and
/// the number of its row, so that no two turns share one.
pub open spec fn id_of_turn(hashes: Seq<u64>, row: i64) -> Seq<char> {
    if hashes.len() == 0 {
        Seq::empty()
    } else {
        INFERRED_PREFIX@ + hex_digits(hashes.last() as nat, 16) + "-"@ + hex(bits_of(row) as nat)
    }
}

/// The id of a turn whose conversation was inferred.
pub fn synthetic_id(chain: &PrefixChain, row: i64) -> (id: String)
    ensures
        id@ == id_of_turn(chain@, row),
{
    match chain.head() {
        Some(head) => INFERRED_PREFIX.to_owned().concat(hex_text(head, 16).as_str()).concat(
            "-",
        ).concat(short_hex(unsigned_bits(row)).as_str()),
        None => String::new(),
    }
}

/// The usage that is recorded: a report that holds nothing counts as none.
pub open spec fn usage_kept(usage: Option<Usage>) -> Option<Usage> {
    match usage {
        Some(u) => if u.reports_nothing() {
            None
        } else {
            Some(u)
        },
        None => None,
    }
}

/// The id that is recorded for a turn. One that was inferred and has none yet
/// gets its own.
pub open spec fn turn_id(record: OutcomeRecord, row: i64) -> Option<Seq<char>> {
    match record.conversation {
        Some(c) => match record.prefix_chain {
            Some(chain) => if c.id@.len() == 0 && chain@.len() > 0 {
                Some(id_of_turn(chain@, row))
            } else {
                Some(c.id@)
            },
            None => Some(c.id@),
        },
        None => None,
    }
}

/// Whether a row records a request.
pub open spec fn records(row: Row, record: OutcomeRecord, id: i64) -> bool {
    &&& row.id == id
    &&& row.ts@ == record.ts@
    &&& owned_text(row.provider) == Some(record.provider@)
    &&& row.model@ == record.model@
    &&& row.outcome@ == record.outcome.tag()
    &&& owned_text(row.error_category) == (match record.error_category {
        Some(c) => Some(c.tag()),
        None => None,
    })
    &&& owned_text(row.parser) == owned_text(record.parser)
    &&& owned_text(row.tool_name) == owned_text(record.tool_name)
    &&& row.retries == record.retries
    &&& row.fixed == !(record.outcome == Outcome::RetriesExhausted || record.outcome
        == Outcome::WriteRefused)
    &&& owned_text(row.detail) == owned_text(record.detail)
    &&& match usage_kept(record.usage) {
        Some(u) => row.prompt_tokens == Some(u.prompt_tokens) && row.completion_tokens == Some(
            u.completion_tokens,
        ) && row.cached_tokens == Some(u.cached_tokens) && row.billed_calls == Some(u.attempts),
        None => row.prompt_tokens is None && row.completion_tokens is None && row.cached_tokens
            is None && row.billed_calls is None,
    }
    &&& owned_text(row.response_id) == turn_id(record, id)
    &&& owned_text(row.parent_id) == (match record.conversation {
        Some(c) => owned_text(c.parent),
        None => None,
    })
    &&& owned_text(row.prefix_chain) == (match record.prefix_chain {
        Some(chain) => Some(encoded(chain@)),
        None => None,
    })
    &&& row.head_hash == (match record.prefix_chain {
        Some(chain) => if chain@.len() > 0 {
            Some(signed_of(chain@.last()) as i64)
        } else {
            None
        },
        None => None,
    })
}

/// The row that records a request under a number.
pub fn insert(record: &OutcomeRecord, id: i64) -> (row: Row)
    ensures
        records(row, *record, id),
{
    let usage: Option<Usage> = match record.usage {
        Some(u) => if u.is_empty() {
            None
        } else {
            Some(u)
        },
        None => None,
    };
    let error_category: Option<String> = match record.error_category {
        Some(c) => Some(c.as_str().to_owned()),
        None => None,
    };
    let response_id: Option<String> = match &record.conversation {
        Some(c) => match &record.prefix_chain {
            Some(chain) => if c.id.as_str().is_empty() && !chain.is_empty() {
                Some(synthetic_id(chain, id))
            } else {
                Some(c.id.clone())
            },
            None => Some(c.id.clone()),
        },
        None => None,
    };
    let parent_id: Option<String> = match &record.conversation {
        Some(c) => copy_text(&c.parent),
        None => None,
    };
    let prefix_chain: Option<String> = match &record.prefix_chain {
        Some(chain) => Some(chain.encode()),
        None => None,
    };
    let head_hash: Option<i64> = match &record.prefix_chain {
        Some(chain) => match chain.head() {
            Some(h) => Some(signed_bits(h)),
            None => None,
        },
        None => None,
    };
    let (prompt_tokens, completion_tokens, cached_tokens, billed_calls) = match usage {
        Some(u) => (
            Some(u.prompt_tokens),
            Some(u.completion_tokens),
            Some(u.cached_tokens),
            Some(u.attempts),
        ),
        None => (None, None, None, None),
    };
    Row {
        id,
        ts: record.ts.clone(),
        provider: Some(record.provider.clone()),
        model: record.model.clone(),
        outcome: record.outcome.as_str().to_owned(),
        error_category,
        parser: copy_text(&record.parser),
        tool_name: copy_text(&record.tool_name),
        retries: record.retries,
        fixed: record.outcome.fixed(),
        detail: copy_text(&record.detail),
        prompt_tokens,
        completion_tokens,
        cached_tokens,
        billed_calls,
        response_id,
        parent_id,
        prefix_chain,
        head_hash,
    }
}

/// Whether recorded rows must be given up: the table is there and lacks a column
/// that every new row has, so that nothing could be recorded any more. The
/// column that came last tells of the ones before it.
pub fn must_reset(table: bool, provider_column: bool, head_column: bool) -> (yes: bool)
    ensures
        yes == (table && !(provider_column && head_column)),
{
    table && !(provider_column && head_column)
}

// ── the turn before ─────────────────────────────────────────────────────────

/// How many rows of one transcript are looked at.
pub const MATCH_WINDOW: usize = 64;

/// Whether a row may record the turn before a request: one of the same provider
/// and model, recent enough, whose whole transcript has the hash `head`.
pub open spec fn eligible(row: Row, record: OutcomeRecord, floor: Seq<char>, head: u64) -> bool {
    &&& row.head_hash == Some(signed_of(head) as i64)
    &&& row.response_id is Some
    &&& owned_text(row.provider) == Some(record.provider@)
    &&& row.model@ == record.model@
    &&& !before(row.ts@, floor)
}

/// The last `room` of the first `n` rows that may record the turn before, latest
/// first.
pub open spec fn turns_of(
    rows: Seq<Row>,
    record: OutcomeRecord,
    floor: Seq<char>,
    head: u64,
    n: int,
    room: nat,
) -> Seq<Row>
    decreases n,
{
    if n <= 0 || room == 0 {
        Seq::empty()
    } else if eligible(rows[n - 1], record, floor, head) {
        seq![rows[n - 1]] + turns_of(rows, record, floor, head, n - 1, (room - 1) as nat)
    } else {
        turns_of(rows, record, floor, head, n - 1, room)
    }
}

/// The hashes that a row stores.
pub open spec fn stored_hashes(row: Row) -> Seq<u64> {
    match row.prefix_chain {
        Some(text) => hashes_in(text@),
        None => Seq::empty(),
    }
}

/// Whether a candidate is what a row records.
pub open spec fn stands_for(candidate: Candidate, row: Row) -> bool {
    &&& owned_text(row.response_id) == Some(candidate.id@)
    &&& candidate.ts@ == row.ts@
    &&& candidate.chain@ == stored_hashes(row)
    &&& candidate.prompt_tokens == (match row.prompt_tokens {
        Some(n) => n,
        None => 0,
    })
    &&& candidate.cached_tokens == (match row.cached_tokens {
        Some(n) => n,
        None => 0,
    })
}

/// Whether candidates are what rows record.
pub open spec fn stand_for(candidates: Seq<Candidate>, rows: Seq<Row>) -> bool {
    &&& candidates.len() == rows.len()
    &&& forall|i: int| 0 <= i < rows.len() ==> stands_for(#[trigger] candidates[i], rows[i])
}

/// The rows whose transcript is the first `length` messages of a request.
pub open spec fn turns_at(
    rows: Seq<Row>,
    record: OutcomeRecord,
    floor: Seq<char>,
    length: int,
) -> Seq<Row> {
    turns_of(
        rows,
        record,
        floor,
        record.prefix_chain->0@[length - 1],
        rows.len() as int,
        MATCH_WINDOW as nat,
    )
}

/// Whether the turn before a request has `length` messages and is the one of
/// that id.
pub open spec fn follows_at(
    rows: Seq<Row>,
    record: OutcomeRecord,
    floor: Seq<char>,
    length: int,
    id: Seq<char>,
) -> bool {
    exists|candidates: Seq<Candidate>, i: int|
        stand_for(candidates, turns_at(rows, record, floor, length)) && #[trigger] is_latest(
            record.prefix_chain->0@,
            record.ts@,
            candidates,
            i,
        ) && candidates[i].id@ == id
}

/// Whether no turn of `length` messages comes before a request.
pub open spec fn none_at(
    rows: Seq<Row>,
    record: OutcomeRecord,
    floor: Seq<char>,
    length: int,
) -> bool {
    forall|i: int|
        0 <= i < turns_at(rows, record, floor, length).len() ==> {
            let row = #[trigger] turns_at(rows, record, floor, length)[i];
            !(continues(record.prefix_chain->0@, stored_hashes(row)) && close(
                row.ts@,
                record.ts@,
            ))
        }
}

/// Whether no turn of more than `length` messages comes before a request.
pub open spec fn none_longer(
    rows: Seq<Row>,
    record: OutcomeRecord,
    floor: Seq<char>,
    length: int,
) -> bool {
    forall|longer: int|
        length < longer < record.prefix_chain->0@.len() ==> #[trigger] none_at(
            rows,
            record,
            floor,
            longer,
        )
}

/// Whether a turn is the one before a request: of all that are, the one whose
/// transcript is longest.
pub open spec fn is_turn_before(
    rows: Seq<Row>,
    record: OutcomeRecord,
    floor: Seq<char>,
    id: Seq<char>,
) -> bool {
    exists|length: int|
        1 <= length < record.prefix_chain->0@.len() && #[trigger] follows_at(
            rows,
            record,
            floor,
            length,
            id,
        ) && none_longer(rows, record, floor, length)
}

/// Whether `parent` is the turn before a request, and absent where there is
/// none.
pub open spec fn is_parent(
    rows: Seq<Row>,
    record: OutcomeRecord,
    floor: Seq<char>,
    parent: Option<Seq<char>>,
) -> bool {
    match parent {
        Some(id) => is_turn_before(rows, record, floor, id),
        None => none_longer(rows, record, floor, 0),
    }
}

/// Whether a request's place in a conversation is to be inferred.
pub open spec fn to_be_inferred(record: OutcomeRecord) -> bool {
    record.conversation is None && record.prefix_chain is Some && record.prefix_chain->0@.len() > 0
}

/// What a row that has an id records, as a candidate.
fn candidate_of(row: &Row) -> (candidate: Option<Candidate>)
    ensures
        match candidate {
            Some(c) => stands_for(c, *row),
            None => row.response_id is None,
        },
{
    let id: String = match &row.response_id {
        Some(id) => id.clone(),
        None => {
            return None;
        },
    };
    let chain = match &row.prefix_chain {
        Some(text) => PrefixChain::decode(text.as_str()),
        None => PrefixChain::default(),
    };
    let prompt_tokens: i64 = match row.prompt_tokens {
        Some(n) => n,
        None => 0,
    };
    let cached_tokens: i64 = match row.cached_tokens {
        Some(n) => n,
        None => 0,
    };
    Some(Candidate { id, ts: row.ts.clone(), chain, prompt_tokens, cached_tokens })
}

fn may_precede(row: &Row, record: &OutcomeRecord, floor: &str, head: u64) -> (yes: bool)
    ensures
        yes == eligible(*row, *record, floor@, head),
{
    let same_head: bool = match row.head_hash {
        Some(h) => h == signed_bits(head),
        None => false,
    };
    let same_provider: bool = match &row.provider {
        Some(p) => same_text(p.as_str(), record.provider.as_str()),
        None => false,
    };
    same_head && row.response_id.is_some() && same_provider && same_text(
        row.model.as_str(),
        record.model.as_str(),
    ) && !sorts_before(row.ts.as_str(), floor)
}

fn candidates_at(rows: &[Row], record: &OutcomeRecord, floor: &str, head: u64) -> (candidates: Vec<
    Candidate,
>)
    ensures
        stand_for(
            candidates@,
            turns_of(rows@, *record, floor@, head, rows@.len() as int, MATCH_WINDOW as nat),
        ),
{
    let ghost all = turns_of(rows@, *record, floor@, head, rows@.len() as int, MATCH_WINDOW as nat);
    let mut candidates: Vec<Candidate> = Vec::new();
    let mut n: usize = rows.len();
    let ghost mut found: Seq<Row> = Seq::empty();
    assert(found + all =~= all);
    while n > 0 && candidates.len() < MATCH_WINDOW
        invariant
            n <= rows@.len(),
            candidates@.len() <= MATCH_WINDOW,
            stand_for(candidates@, found),
            all == found + turns_of(
                rows@,
                *record,
                floor@,
                head,
                n as int,
                (MATCH_WINDOW - candidates@.len()) as nat,
            ),
        decreases n,
    {
        let row = &rows[n - 1];
        if may_precede(row, record, floor, head) {
            if let Some(candidate) = candidate_of(row) {
                let ghost rest = turns_of(
                    rows@,
                    *record,
                    floor@,
                    head,
                    n - 1,
                    (MATCH_WINDOW - candidates@.len() - 1) as nat,
                );
                candidates.push(candidate);
                proof {
                    assert(found + (seq![*row] + rest) =~= found.push(*row) + rest);
                    found = found.push(*row);
                }
            }
        }
        n = n - 1;
    }
    assert(found + Seq::<Row>::empty() =~= found);
    candidates
}

/// Finds the turn that a request continues, where its conversation is to be
/// inferred. The turn's own id is left empty: it gets one with its row.
pub fn infer_conversation(rows: &[Row], record: &mut OutcomeRecord)
    ensures
        !to_be_inferred(*old(record)) ==> *final(record) == *old(record),
        to_be_inferred(*old(record)) ==> {
            &&& *final(record) == (OutcomeRecord {
                conversation: final(record).conversation,
                ..*old(record)
            })
            &&& final(record).conversation matches Some(c) && c.id@.len() == 0 && exists|
                floor: Seq<char>,
            |
                is_gap_floor(old(record).ts@, floor) && #[trigger] is_parent(
                    rows@,
                    *old(record),
                    floor,
                    owned_text(c.parent),
                )
        },
{
    if record.conversation.is_some() {
        return ;
    }
    let parent: Option<String> = match &record.prefix_chain {
        Some(chain) => {
            if chain.is_empty() {
                return ;
            }
            find_parent(rows, &*record, chain)
        },
        None => {
            return ;
        },
    };
    record.conversation = Some(Conversation { id: String::new(), parent });
}

fn find_parent(rows: &[Row], record: &OutcomeRecord, chain: &PrefixChain) -> (parent: Option<String>)
    requires
        record.prefix_chain == Some(*chain),
        chain@.len() > 0,
    ensures
        exists|floor: Seq<char>|
            is_gap_floor(record.ts@, floor) && #[trigger] is_parent(
                rows@,
                *record,
                floor,
                owned_text(parent),
            ),
{
    let floor = gap_floor(record.ts.as_str());
    let mut length: usize = chain.len();
    while length > 1
        invariant
            1 <= length <= chain@.len(),
            record.prefix_chain == Some(*chain),
            is_gap_floor(record.ts@, floor@),
            forall|longer: int|
                length <= longer < chain@.len() ==> #[trigger] none_at(
                    rows@,
                    *record,
                    floor@,
                    longer,
                ),
        decreases length,
    {
        length = length - 1;
        let head: u64 = chain.hashes()[length - 1];
        let candidates = candidates_at(rows, record, floor.as_str(), head);
        match match_parent(chain, record.ts.as_str(), candidates.as_slice()) {
            Some(found) => {
                let id = found.id.clone();
                proof {
                    let i = choose|i: int|
                        is_latest(chain@, record.ts@, candidates@, i) && *found
                            == #[trigger] candidates@[i];
                    assert(is_latest(record.prefix_chain->0@, record.ts@, candidates@, i));
                    assert(stand_for(
                        candidates@,
                        turns_at(rows@, *record, floor@, length as int),
                    ));
                }
                assert(follows_at(rows@, *record, floor@, length as int, id@));
                assert(none_longer(rows@, *record, floor@, length as int));
                assert(is_turn_before(rows@, *record, floor@, id@));
                assert(is_parent(rows@, *record, floor@, Some(id@)));
                return Some(id);
            },
            None => {
                proof {
                    let turns = turns_at(rows@, *record, floor@, length as int);
                    assert(stand_for(candidates@, turns));
                    assert forall|i: int| 0 <= i < turns.len() implies {
                        let row = #[trigger] turns[i];
                        !(continues(chain@, stored_hashes(row)) && close(row.ts@, record.ts@))
                    } by {
                        assert(stands_for(candidates@[i], turns[i]));
                        assert(!qualifies(chain@, record.ts@, candidates@[i]));
                    }
                    assert(none_at(rows@, *record, floor@, length as int));
                }
            },
        }
    }
    assert(is_parent(rows@, *record, floor@, None));
    None
}

// ── conversations ───────────────────────────────────────────────────────────

/// How many turns back the start of a conversation is looked for.
pub const MAX_CHAIN_DEPTH: usize = 1024;

/// Whether a row has an id.
pub open spec fn has_id(row: Row, id: Seq<char>) -> bool {
    owned_text(row.response_id) == Some(id)
}

/// Whether a turn was recorded.
pub open spec fn recorded(rows: Seq<Row>, id: Seq<char>) -> bool {
    exists|i: int| 0 <= i < rows.len() && has_id(#[trigger] rows[i], id)
}

/// The recorded turns that any of some turns continues, as the first `n` rows
/// tell, each once.
pub open spec fn turns_before(rows: Seq<Row>, ids: Seq<Seq<char>>, n: int) -> Seq<Seq<char>>
    decreases n,
{
    if n <= 0 {
        Seq::empty()
    } else {
        let found = turns_before(rows, ids, n - 1);
        match (owned_text(rows[n - 1].response_id), owned_text(rows[n - 1].parent_id)) {
            (Some(id), Some(parent)) => if ids.contains(id) && recorded(rows, parent)
                && !found.contains(parent) {
                found.push(parent)
            } else {
                found
            },
            _ => found,
        }
    }
}

/// The turn that some turns lead back to in at most `steps` steps.
pub open spec fn start_of(rows: Seq<Row>, ids: Seq<Seq<char>>, steps: nat) -> Seq<char>
    decreases steps,
{
    let earlier = turns_before(rows, ids, rows.len() as int);
    if steps == 0 || earlier.len() == 0 {
        ids[0]
    } else {
        start_of(rows, earlier, (steps - 1) as nat)
    }
}

/// The conversation of a row: the turn that it leads back to, or the row itself
/// where it has no id. Rows outside a window lead back too.
pub open spec fn conversation_of(rows: Seq<Row>, row: Row) -> Seq<char> {
    match row.response_id {
        Some(id) => start_of(rows, seq![id@], MAX_CHAIN_DEPTH as nat),
        None => "row:"@ + signed_decimal(row.id as int),
    }
}

fn is_among(list: &Vec<&str>, text: &str) -> (yes: bool)
    ensures
        yes == strs(list@).contains(text@),
{
    let ghost all = strs(list@);
    for i in 0..list.len()
        invariant
            all == strs(list@),
            forall|j: int| 0 <= j < i ==> #[trigger] all[j] != text@,
    {
        assert(all[i as int] == list@[i as int]@);
        if same_text(list[i], text) {
            return true;
        }
    }
    false
}

/// The turns of rows by their ids, and the turns that each continues.
#[derive(Debug)]
pub struct Links<'a> {
    ids: Vec<Vec<String>>,
    earlier: Vec<Vec<&'a str>>,
}

/// An id as a key.
fn id_key(id: &str) -> (k: Vec<String>)
    ensures
        key(k) == seq![id@],
{
    let mut k: Vec<String> = Vec::new();
    k.push(id.to_owned());
    assert(key(k) =~= seq![id@]);
    k
}

/// Whether ids are those that rows have, in order.
spec fn lists_ids(ids: Seq<Vec<String>>, rows: Seq<Row>) -> bool {
    &&& ascending(keys(ids))
    &&& forall|i: int| 0 <= i < ids.len() ==> (#[trigger] keys(ids)[i]).len() == 1
    &&& forall|id: Seq<char>| #[trigger] recorded(rows, id) <==> keys(ids).contains(seq![id])
}

/// Whether the turns before each are those that the first `n` rows tell.
spec fn tells_earlier(
    earlier: Seq<Vec<&str>>,
    ids: Seq<Vec<String>>,
    rows: Seq<Row>,
    n: int,
) -> bool {
    &&& earlier.len() == ids.len()
    &&& forall|k: int|
        0 <= k < ids.len() ==> strs((#[trigger] earlier[k])@) == turns_before(
            rows,
            seq![keys(ids)[k][0]],
            n,
        )
}

fn list_ids(rows: &[Row]) -> (ids: Vec<Vec<String>>)
    ensures
        lists_ids(ids@, rows@),
{
    let mut found: Vec<Vec<String>> = Vec::new();
    for i in 0..rows.len()
        invariant
            forall|j: int|
                0 <= j < found@.len() ==> (#[trigger] keys(found@)[j]).len() == 1 && recorded(
                    rows@,
                    keys(found@)[j][0],
                ),
            forall|j: int|
                0 <= j < i && (#[trigger] rows@[j]).response_id is Some ==> keys(found@).contains(
                    seq![rows@[j].response_id->0@],
                ),
    {
        if let Some(id) = &rows[i].response_id {
            let ghost was = keys(found@);
            let k = id_key(id.as_str());
            found.push(k);
            proof {
                let now = keys(found@);
                assert(now =~= was.push(seq![id@]));
                assert(has_id(rows@[i as int], id@));
                assert forall|j: int| 0 <= j < now.len() implies (#[trigger] now[j]).len() == 1
                    && recorded(rows@, now[j][0]) by {
                    if j < was.len() {
                        assert(now[j] == was[j]);
                    }
                }
                assert forall|j: int|
                    0 <= j < i + 1 && (#[trigger] rows@[j]).response_id is Some implies now.contains(
                    seq![rows@[j].response_id->0@],
                ) by {
                    if j < i {
                        let x = seq![rows@[j].response_id->0@];
                        let m = choose|m: int| 0 <= m < was.len() && was[m] == x;
                        assert(now[m] == x);
                    } else {
                        assert(now[was.len() as int] == seq![id@]);
                    }
                }
            }
        }
    }
    let ids = distinct_keys(&found);
    proof {
        let all = keys(found@);
        let d = keys(ids@);
        assert forall|i: int| 0 <= i < ids@.len() implies (#[trigger] d[i]).len() == 1 by {
            assert(d.contains(d[i]));
            let m = choose|m: int| 0 <= m < all.len() && all[m] == d[i];
            assert(all[m].len() == 1);
        }
        assert forall|id: Seq<char>| #[trigger] recorded(rows@, id) <==> d.contains(seq![id]) by {
            if recorded(rows@, id) {
                let j = choose|j: int| 0 <= j < rows@.len() && has_id(#[trigger] rows@[j], id);
                assert(rows@[j].response_id is Some);
                assert(all.contains(seq![id]));
            }
            if d.contains(seq![id]) {
                assert(all.contains(seq![id]));
                let m = choose|m: int| 0 <= m < all.len() && all[m] == seq![id];
                assert(recorded(rows@, all[m][0]));
                assert(seq![id][0] == id);
            }
        }
    }
    ids
}

impl<'a> Links<'a> {
    /// Whether these are the links of rows.
    pub closed spec fn are_of(&self, rows: Seq<Row>) -> bool {
        lists_ids(self.ids@, rows) && tells_earlier(
            self.earlier@,
            self.ids@,
            rows,
            rows.len() as int,
        )
    }

    /// The links of rows.
    pub fn of(rows: &'a [Row]) -> (links: Links<'a>)
        ensures
            links.are_of(rows@),
    {
        let ids = list_ids(rows);
        let mut earlier: Vec<Vec<&'a str>> = Vec::new();
        for k in 0..ids.len()
            invariant
                earlier@.len() == k,
                forall|j: int| 0 <= j < k ==> (#[trigger] earlier@[j])@.len() == 0,
        {
            earlier.push(Vec::new());
        }
        proof {
            assert forall|k: int| 0 <= k < ids@.len() implies strs((#[trigger] earlier@[k])@)
                == turns_before(rows@, seq![keys(ids@)[k][0]], 0) by {
                assert(strs(earlier@[k]@) =~= Seq::empty());
            }
        }
        for i in 0..rows.len()
            invariant
                lists_ids(ids@, rows@),
                tells_earlier(earlier@, ids@, rows@, i as int),
        {
            let ghost was = earlier@;
            let ghost mut changed: int = -1;
            if let Some(id) = &rows[i].response_id {
                if let Some(parent) = &rows[i].parent_id {
                    let here = find_key(&ids, &id_key(id.as_str()));
                    let there = find_key(&ids, &id_key(parent.as_str()));
                    if let Some(k) = here {
                        if there.is_some() && !is_among(&earlier[k], parent.as_str()) {
                            let mut list: Vec<&'a str> = Vec::new();
                            std::mem::swap(&mut list, &mut earlier[k]);
                            list.push(parent.as_str());
                            assert(strs(list@) =~= strs(was[k as int]@).push(parent@));
                            earlier.set(k, list);
                            proof {
                                changed = k as int;
                            }
                        }
                    }
                }
            }
            proof {
                next_row_is_told(was, earlier@, ids@, rows@, i as int, changed);
            }
        }
        Links { ids, earlier }
    }

    /// The turns that any of some turns continues.
    fn step_back(&self, rows: &'a [Row], from: &Vec<&'a str>) -> (found: Vec<&'a str>)
        requires
            self.are_of(rows@),
        ensures
            strs(found@) == turns_before(rows@, strs(from@), rows@.len() as int),
    {
        if from.len() == 1 {
            let k = id_key(from[0]);
            assert(strs(from@) =~= seq![from@[0]@]);
            return match find_key(&self.ids, &k) {
                Some(i) => {
                    assert(seq![keys(self.ids@)[i as int][0]] =~= strs(from@));
                    copy_strs(&self.earlier[i])
                },
                None => {
                    proof {
                        assert(!recorded(rows@, from@[0]@));
                        unknown_continues_nothing(rows@, from@[0]@, rows@.len() as int);
                    }
                    let none: Vec<&'a str> = Vec::new();
                    assert(strs(none@) =~= Seq::empty());
                    none
                },
            };
        }
        let ghost ids = strs(from@);
        let mut found: Vec<&'a str> = Vec::new();
        assert(strs(found@) =~= Seq::empty());
        for i in 0..rows.len()
            invariant
                self.are_of(rows@),
                ids == strs(from@),
                strs(found@) == turns_before(rows@, ids, i as int),
        {
            if let Some(id) = &rows[i].response_id {
                if let Some(parent) = &rows[i].parent_id {
                    let known: bool = find_key(&self.ids, &id_key(parent.as_str())).is_some();
                    assert(known == recorded(rows@, parent@)) by {
                        if known {
                            assert(keys(self.ids@).contains(seq![parent@]));
                        }
                    }
                    if is_among(from, id.as_str()) && known && !is_among(&found, parent.as_str()) {
                        let ghost was = strs(found@);
                        found.push(parent.as_str());
                        assert(strs(found@) =~= was.push(parent@));
                    }
                }
            }
        }
        found
    }

    /// The conversation of a row.
    pub fn conversation_label(&self, rows: &'a [Row], row: &'a Row) -> (label: String)
        requires
            self.are_of(rows@),
        ensures
            label@ == conversation_of(rows@, *row),
    {
        let id: &str = match &row.response_id {
            Some(id) => id.as_str(),
            None => {
                return "row:".to_owned().concat(signed_text(row.id).as_str());
            },
        };
        let mut ids: Vec<&'a str> = Vec::new();
        ids.push(id);
        let ghost goal = conversation_of(rows@, *row);
        assert(strs(ids@) =~= seq![id@]);
        let mut steps: usize = MAX_CHAIN_DEPTH;
        loop
            invariant
                self.are_of(rows@),
                ids@.len() > 0,
                goal == start_of(rows@, strs(ids@), steps as nat),
            ensures
                ids@.len() > 0,
                goal == ids@[0]@,
            decreases steps,
        {
            let earlier = self.step_back(rows, &ids);
            assert(strs(earlier@).len() == earlier@.len());
            assert(strs(ids@)[0] == ids@[0]@);
            if steps == 0 || earlier.len() == 0 {
                break ;
            }
            ids = earlier;
            steps = steps - 1;
        }
        ids[0].to_owned()
    }
}

fn copy_strs<'a>(list: &Vec<&'a str>) -> (copy: Vec<&'a str>)
    ensures
        copy@ == list@,
{
    let mut copy: Vec<&'a str> = Vec::new();
    for i in 0..list.len()
        invariant
            copy@ == list@.take(i as int),
    {
        copy.push(list[i]);
        assert(copy@ =~= list@.take(i + 1));
    }
    assert(copy@ =~= list@);
    copy
}

proof fn unknown_continues_nothing(rows: Seq<Row>, id: Seq<char>, n: int)
    requires
        !recorded(rows, id),
        0 <= n <= rows.len(),
    ensures
        turns_before(rows, seq![id], n) == Seq::<Seq<char>>::empty(),
    decreases n,
{
    if n > 0 {
        unknown_continues_nothing(rows, id, n - 1);
        if let Some(found) = owned_text(rows[n - 1].response_id) {
            if seq![id].contains(found) {
                assert(found == id);
                assert(has_id(rows[n - 1], id));
            }
        }
    }
}

proof fn next_row_is_told(
    was: Seq<Vec<&str>>,
    now: Seq<Vec<&str>>,
    ids: Seq<Vec<String>>,
    rows: Seq<Row>,
    n: int,
    changed: int,
)
    requires
        lists_ids(ids, rows),
        tells_earlier(was, ids, rows, n),
        0 <= n < rows.len(),
        now.len() == was.len(),
        forall|k: int| 0 <= k < was.len() && k != changed ==> now[k]@ == (#[trigger] was[k])@,
        changed == -1 || ({
            &&& 0 <= changed < was.len()
            &&& rows[n].response_id is Some
            &&& rows[n].parent_id is Some
            &&& keys(ids)[changed] == seq![rows[n].response_id->0@]
            &&& recorded(rows, rows[n].parent_id->0@)
            &&& !strs(was[changed]@).contains(rows[n].parent_id->0@)
            &&& strs(now[changed]@) == strs(was[changed]@).push(rows[n].parent_id->0@)
        }),
        changed == -1 && rows[n].response_id is Some && rows[n].parent_id is Some && recorded(
            rows,
            rows[n].parent_id->0@,
        ) ==> forall|k: int|
            0 <= k < ids.len() && #[trigger] keys(ids)[k] == seq![rows[n].response_id->0@]
                ==> strs(was[k]@).contains(rows[n].parent_id->0@),
    ensures
        tells_earlier(now, ids, rows, n + 1),
{
    assert forall|k: int| 0 <= k < ids.len() implies strs((#[trigger] now[k])@) == turns_before(
        rows,
        seq![keys(ids)[k][0]],
        n + 1,
    ) by {
        let one = seq![keys(ids)[k][0]];
        assert(strs(was[k]@) == turns_before(rows, one, n));
        assert(keys(ids)[k] =~= one);
        if let (Some(id), Some(parent)) = (
            owned_text(rows[n].response_id),
            owned_text(rows[n].parent_id),
        ) {
            if one.contains(id) {
                assert(one[0] == id);
                assert(keys(ids)[k] =~= seq![id]);
                if changed != -1 && changed != k {
                    if changed < k {
                        assert(precedes(keys(ids)[changed], keys(ids)[k]));
                    } else {
                        assert(precedes(keys(ids)[k], keys(ids)[changed]));
                    }
                    precedes_is_total(keys(ids)[k], keys(ids)[k]);
                }
            } else if changed == k {
                assert(one[0] == id);
            }
        }
    }
}

// ── laws ────────────────────────────────────────────────────────────────────

/// Whether no two rows have the same id.
pub open spec fn ids_differ(rows: Seq<Row>) -> bool {
    forall|i: int, j: int|
        0 <= i < rows.len() && 0 <= j < rows.len() && rows[i].response_id is Some && owned_text(
            (#[trigger] rows[i]).response_id,
        ) == owned_text((#[trigger] rows[j]).response_id) ==> i == j
}

/// Whether some turns lead back to a start in at most `steps` steps.
pub open spec fn reaches_start(rows: Seq<Row>, ids: Seq<Seq<char>>, steps: nat) -> bool
    decreases steps,
{
    let earlier = turns_before(rows, ids, rows.len() as int);
    earlier.len() == 0 || (steps > 0 && reaches_start(rows, earlier, (steps - 1) as nat))
}

proof fn one_turn_back(rows: Seq<Row>, i: int, n: int)
    requires
        ids_differ(rows),
        0 <= i < rows.len(),
        rows[i].response_id is Some,
        0 <= n <= rows.len(),
    ensures
        turns_before(rows, seq![rows[i].response_id->0@], n) == (if i < n && rows[i].parent_id
            is Some && recorded(rows, rows[i].parent_id->0@) {
            seq![rows[i].parent_id->0@]
        } else {
            Seq::empty()
        }),
    decreases n,
{
    let ids = seq![rows[i].response_id->0@];
    if n > 0 {
        one_turn_back(rows, i, n - 1);
        let found = turns_before(rows, ids, n - 1);
        if let Some(id) = owned_text(rows[n - 1].response_id) {
            assert(ids.contains(id) ==> id == ids[0]);
            if id == ids[0] {
                assert(owned_text(rows[i].response_id) == owned_text(rows[n - 1].response_id));
                assert(n - 1 == i);
                assert(ids.contains(id)) by {
                    assert(ids[0] == id);
                }
                assert(found =~= Seq::empty());
                if let Some(parent) = owned_text(rows[i].parent_id) {
                    assert(!found.contains(parent));
                    assert(found.push(parent) =~= seq![parent]);
                }
            }
        }
        if i == n - 1 {
            assert(owned_text(rows[n - 1].response_id) == Some(ids[0]));
        }
    }
}

proof fn more_steps_change_nothing(rows: Seq<Row>, ids: Seq<Seq<char>>, steps: nat)
    requires
        reaches_start(rows, ids, steps),
    ensures
        start_of(rows, ids, steps + 1) == start_of(rows, ids, steps),
    decreases steps,
{
    let earlier = turns_before(rows, ids, rows.len() as int);
    if earlier.len() > 0 {
        more_steps_change_nothing(rows, earlier, (steps - 1) as nat);
    }
}

/// A turn belongs to the conversation of the turn that it continues, however
/// their ids sort, where ids are not shared and the start is not out of reach.
pub proof fn turns_share_a_conversation(rows: Seq<Row>, earlier: int, later: int)
    requires
        ids_differ(rows),
        0 <= earlier < rows.len(),
        0 <= later < rows.len(),
        rows[earlier].response_id is Some,
        rows[later].response_id is Some,
        owned_text(rows[later].parent_id) == owned_text(rows[earlier].response_id),
        reaches_start(
            rows,
            seq![rows[earlier].response_id->0@],
            (MAX_CHAIN_DEPTH - 1) as nat,
        ),
    ensures
        conversation_of(rows, rows[later]) == conversation_of(rows, rows[earlier]),
{
    let id = rows[earlier].response_id->0@;
    assert(has_id(rows[earlier], id));
    assert(recorded(rows, id));
    one_turn_back(rows, later, rows.len() as int);
    more_steps_change_nothing(rows, seq![id], (MAX_CHAIN_DEPTH - 1) as nat);
}

/// A request without an id is a conversation of its own.
pub proof fn unchained_requests_stand_alone(rows: Seq<Row>, a: int, b: int)
    requires
        0 <= a < rows.len(),
        0 <= b < rows.len(),
        rows[a].response_id is None,
        rows[b].response_id is None,
        rows[a].id != rows[b].id,
    ensures
        conversation_of(rows, rows[a]) != conversation_of(rows, rows[b]),
{
    let x = signed_decimal(rows[a].id as int);
    let y = signed_decimal(rows[b].id as int);
    signed_decimals_differ(rows[a].id as int, rows[b].id as int);
    let l = "row:"@;
    if l + x == l + y {
        assert((l + x).skip(l.len() as int) =~= x);
        assert((l + y).skip(l.len() as int) =~= y);
    }
}

/// Ids that were given to turns here differ, whatever their transcripts are.
pub proof fn given_ids_differ(a: Seq<u64>, b: Seq<u64>, row: i64, other: i64)
    requires
        a.len() > 0,
        b.len() > 0,
        row != other,
    ensures
        id_of_turn(a, row) != id_of_turn(b, other),
{
    let p = INFERRED_PREFIX@;
    let x = hex(bits_of(row) as nat);
    let y = hex(bits_of(other) as nat);
    let before_x = p + hex_digits(a.last() as nat, 16) + "-"@;
    let before_y = p + hex_digits(b.last() as nat, 16) + "-"@;
    super::conversation::hex_width(a.last() as nat, 16);
    super::conversation::hex_width(b.last() as nat, 16);
    assert(before_x.len() == before_y.len());
    if id_of_turn(a, row) == id_of_turn(b, other) {
        assert((before_x + x).skip(before_x.len() as int) =~= x);
        assert((before_y + y).skip(before_y.len() as int) =~= y);
        hex_is_distinct(bits_of(row) as nat, bits_of(other) as nat);
    }
}

proof fn hex_is_distinct(m: nat, n: nat)
    requires
        hex(m) == hex(n),
    ensures
        m == n,
    decreases m,
{
    hex_has_digits(m);
    hex_has_digits(n);
    one_hex_digit(m % 16);
    one_hex_digit(n % 16);
    assert(hex(m).last() == hex_digits(m % 16, 1)[0]);
    assert(hex(n).last() == hex_digits(n % 16, 1)[0]);
    assert(m % 16 == n % 16);
    if m >= 16 || n >= 16 {
        if m < 16 {
            hex_has_digits(n / 16);
        } else if n < 16 {
            hex_has_digits(m / 16);
        } else {
            assert(hex(m).drop_last() =~= hex(m / 16));
            assert(hex(n).drop_last() =~= hex(n / 16));
            hex_is_distinct(m / 16, n / 16);
        }
    }
}

proof fn one_hex_digit(d: nat)
    requires
        d < 16,
    ensures
        hex_digits(d, 1) == seq![super::conversation::hex_char(d as int)],
        forall|e: nat|
            e < 16 && #[trigger] super::conversation::hex_char(e as int)
                == super::conversation::hex_char(d as int) ==> e == d,
{
    assert(hex_digits(d / 16, 0) =~= Seq::empty());
    assert(hex_digits(d, 1) =~= seq![super::conversation::hex_char(d as int)]);
}

proof fn hex_has_digits(n: nat)
    ensures
        hex(n).len() > 0,
        hex(n).last() == hex_digits(n % 16, 1)[0],
    decreases n,
{
    one_hex_digit(n % 16);
    if n >= 16 {
        hex_has_digits(n / 16);
    }
}

proof fn signed_decimals_differ(m: int, n: int)
    requires
        m != n,
    ensures
        signed_decimal(m) != signed_decimal(n),
{
    if signed_decimal(m) == signed_decimal(n) {
        decimal_reads_back(if m < 0 {
            (-m) as nat
        } else {
            m as nat
        });
        decimal_reads_back(if n < 0 {
            (-n) as nat
        } else {
            n as nat
        });
        if m < 0 && n < 0 {
            assert(signed_decimal(m).skip(1) =~= decimal((-m) as nat));
            assert(signed_decimal(n).skip(1) =~= decimal((-n) as nat));
        } else if m < 0 {
            assert(signed_decimal(m)[0] == '-');
            assert(crate::text::is_digit(decimal(n as nat)[0]));
        } else if n < 0 {
            assert(signed_decimal(n)[0] == '-');
            assert(crate::text::is_digit(decimal(m as nat)[0]));
        }
    }
}

/// A row keeps all that was recorded: whose it is, how it ended, what it cost, and
/// where it stands in a conversation.
pub proof fn rows_keep_what_was_recorded(row: Row, record: OutcomeRecord, id: i64)
    requires
        records(row, record, id),
    ensures
        row.id == id && row.ts@ == record.ts@ && row.model@ == record.model@,
        row.provider matches Some(p) && p@ == record.provider@,
        row.outcome@ == record.outcome.tag(),
        row.retries == record.retries,
        row.fixed <==> record.outcome != Outcome::RetriesExhausted && record.outcome
            != Outcome::WriteRefused,
        owned_text(row.parser) == owned_text(record.parser),
        owned_text(row.tool_name) == owned_text(record.tool_name),
        owned_text(row.detail) == owned_text(record.detail),
        record.error_category matches Some(c) ==> owned_text(row.error_category) == Some(c.tag()),
        record.error_category is None ==> row.error_category is None,
        record.usage matches Some(u) ==> !u.reports_nothing() ==> row.prompt_tokens == Some(
            u.prompt_tokens,
        ) && row.completion_tokens == Some(u.completion_tokens) && row.cached_tokens == Some(
            u.cached_tokens,
        ) && row.billed_calls == Some(u.attempts),
        record.usage is None ==> row.prompt_tokens is None && row.completion_tokens is None
            && row.cached_tokens is None && row.billed_calls is None,
        record.conversation matches Some(c) ==> owned_text(row.parent_id) == owned_text(c.parent) && (
        c.id@.len() > 0 ==> owned_text(row.response_id) == Some(c.id@)),
        record.conversation is None ==> row.response_id is None && row.parent_id is None,
        record.prefix_chain matches Some(chain) ==> owned_text(row.prefix_chain) == Some(
            encoded(chain@),
        ),
        record.prefix_chain is None ==> row.prefix_chain is None && row.head_hash is None,
{
}

/// A hash is stored as a signed number of the same bits, and no two as the same.
pub proof fn bits_are_kept(a: u64, b: u64, n: i64)
    ensures
        i64::MIN <= signed_of(a) <= i64::MAX,
        bits_of(signed_of(a) as i64) == a,
        signed_of(bits_of(n) as u64) == n,
        signed_of(a) == signed_of(b) ==> a == b,
{
}

proof fn turns_of_prefix(
    a: Seq<Row>,
    b: Seq<Row>,
    record: OutcomeRecord,
    floor: Seq<char>,
    head: u64,
    n: int,
    room: nat,
)
    requires
        0 <= n <= a.len(),
        n <= b.len(),
        forall|i: int| 0 <= i < n ==> #[trigger] a[i] == b[i],
    ensures
        turns_of(a, record, floor, head, n, room) == turns_of(b, record, floor, head, n, room),
    decreases n,
{
    if n > 0 && room > 0 {
        turns_of_prefix(a, b, record, floor, head, n - 1, room);
        turns_of_prefix(a, b, record, floor, head, n - 1, (room - 1) as nat);
        assert(a[n - 1] == b[n - 1]);
    }
}

/// The turns that a request may continue are those of its own provider and model
/// that end in the hash, not too old, and in a conversation: the latest first.
pub proof fn turns_are_looked_for_backwards(
    rows: Seq<Row>,
    row: Row,
    record: OutcomeRecord,
    floor: Seq<char>,
    head: u64,
    room: nat,
)
    ensures
        ({
            let n = rows.len() as int;
            let fits = row.head_hash == Some(signed_of(head) as i64) && row.response_id is Some && (
            row.provider matches Some(p) && p@ == record.provider@) && row.model@ == record.model@
                && !before(row.ts@, floor);
            let now = turns_of(rows.push(row), record, floor, head, n + 1, room);
            if fits && room > 0 {
                now == seq![row] + turns_of(rows, record, floor, head, n, (room - 1) as nat)
            } else {
                now == turns_of(rows, record, floor, head, n, room)
            }
        }),
        turns_of(rows, record, floor, head, rows.len() as int, 0) == Seq::<Row>::empty(),
{
    let n = rows.len() as int;
    turns_of_prefix(rows, rows.push(row), record, floor, head, n, room);
    if room > 0 {
        turns_of_prefix(rows, rows.push(row), record, floor, head, n, (room - 1) as nat);
    }
}

/// Whether a row is a turn of one of the ids, and continues a turn.
pub open spec fn links(row: Row, ids: Seq<Seq<char>>, parent: Seq<char>) -> bool {
    &&& row.response_id matches Some(id) && ids.contains(id@)
    &&& row.parent_id matches Some(p) && p@ == parent
}

/// The turns before some are those that they continue and that were recorded, each
/// once.
pub proof fn earlier_turns_are_those_continued(
    rows: Seq<Row>,
    ids: Seq<Seq<char>>,
    n: int,
    parent: Seq<char>,
)
    requires
        0 <= n <= rows.len(),
    ensures
        turns_before(rows, ids, n).contains(parent) <==> recorded(rows, parent) && exists|i: int|
            0 <= i < n && links(#[trigger] rows[i], ids, parent),
        turns_before(rows, ids, n).no_duplicates(),
    decreases n,
{
    if n > 0 {
        earlier_turns_are_those_continued(rows, ids, n - 1, parent);
        let found = turns_before(rows, ids, n - 1);
        let now = turns_before(rows, ids, n);
        if found.contains(parent) {
            let k = choose|k: int| 0 <= k < found.len() && found[k] == parent;
            assert(now[k] == parent);
        }
        if now.contains(parent) && !found.contains(parent) {
            let k = choose|k: int| 0 <= k < now.len() && now[k] == parent;
            if k < found.len() {
                assert(found[k] == parent);
            }
            assert(links(rows[n - 1], ids, parent));
        }
        if links(rows[n - 1], ids, parent) && recorded(rows, parent) && !found.contains(parent) {
            assert(now[found.len() as int] == parent);
        }
        if now.len() > found.len() {
            assert forall|a: int, b: int| 0 <= a < b < now.len() implies now[a] != now[b] by {
                if b == found.len() {
                    assert(found.contains(found[a]));
                }
            }
        }
    }
}

/// A conversation goes by the id of its first turn: a turn that continues none
/// starts one, and a row without an id stands alone.
pub proof fn conversations_go_by_their_start(rows: Seq<Row>, row: Row)
    ensures
        row.response_id is None ==> conversation_of(rows, row) == "row:"@ + signed_decimal(
            row.id as int,
        ),
        row.response_id matches Some(id) ==> {
            let earlier = turns_before(rows, seq![id@], rows.len() as int);
            &&& earlier.len() == 0 ==> conversation_of(rows, row) == id@
            &&& earlier.len() > 0 ==> conversation_of(rows, row) == start_of(rows, earlier, 1023)
        },
{
}

/// A candidate is the turn that its row records.
pub proof fn candidates_are_their_rows(candidate: Candidate, row: Row)
    requires
        stands_for(candidate, row),
    ensures
        row.response_id matches Some(id) && candidate.id@ == id@,
        candidate.ts@ == row.ts@,
        row.prefix_chain matches Some(text) ==> candidate.chain@ == hashes_in(text@),
        row.prefix_chain is None ==> candidate.chain@.len() == 0,
        row.prompt_tokens matches Some(n) ==> candidate.prompt_tokens == n,
        row.cached_tokens matches Some(n) ==> candidate.cached_tokens == n,
{
}

/// Where a conversation is looked for, a longer shared prefix goes before a shorter
/// one; and where none is found, no turn shares any.
pub proof fn the_longest_prefix_counts(
    rows: Seq<Row>,
    record: OutcomeRecord,
    floor: Seq<char>,
    parent: Option<Seq<char>>,
    length: int,
    i: int,
)
    requires
        is_parent(rows, record, floor, parent),
        parent is None,
        1 <= length < record.prefix_chain->0@.len(),
        0 <= i < turns_at(rows, record, floor, length).len(),
    ensures
        ({
            let row = turns_at(rows, record, floor, length)[i];
            !(continues(record.prefix_chain->0@, stored_hashes(row)) && close(row.ts@, record.ts@))
        }),
{
    assert(none_at(rows, record, floor, length));
}

} // verus!
