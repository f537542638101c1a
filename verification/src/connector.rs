//! What crosses the hop to a backend: the headers that do, the lines that a
//! stream of bytes holds, and what may be told of a backend's URL.
use vstd::prelude::*;
use vstd::utf8::{decode_utf8, valid_utf8};

use crate::application::wire::{json_to_sse, stream_of};
use crate::domain::provider::Provider;
use crate::domain::rescue::opens_json;
use crate::text::{
    chars_of, contains, decimal, decimal_text, includes, is_ascii_alnum, lines, lines_of, lowered, runs,
    same_lowered, same_text, split, split_at_token, text_of, texts, trim, trim_start, trimmed,
    trimmed_start,
};

verus! {

// ── trusted: names, bytes and URLs ──────────────────────────────────────────

/// A character that a header name may hold.
pub open spec fn is_name_char(c: char) -> bool {
    ||| is_ascii_alnum(c)
    ||| c == '!'
    ||| c == '#'
    ||| c == '$'
    ||| c == '%'
    ||| c == '&'
    ||| c == '\''
    ||| c == '*'
    ||| c == '+'
    ||| c == '-'
    ||| c == '.'
    ||| c == '^'
    ||| c == '_'
    ||| c == '`'
    ||| c == '|'
    ||| c == '~'
}

/// The header name that a text is, in small letters.
pub open spec fn header_name_in(text: Seq<char>) -> Option<Seq<char>> {
    if 0 < text.len() <= 65_535 && forall|i: int|
        0 <= i < text.len() ==> is_name_char(#[trigger] text[i]) {
        Some(lowered(text))
    } else {
        None
    }
}

/// `http`'s `HeaderName::from_bytes`: claimed to take one to 65535 characters
/// that a name may hold, and to make them small.
#[verifier::external_body]
fn header_name(text: &str) -> (name: Option<String>)
    ensures
        match name {
            Some(n) => header_name_in(text@) == Some(n@),
            None => header_name_in(text@) is None,
        },
{
    let name = reqwest::header::HeaderName::from_bytes(text.as_bytes()).ok()?;
    Some(name.as_str().to_owned())
}

/// The text that `String::from_utf8_lossy` makes of bytes.
pub uninterp spec fn lossy_text(bytes: Seq<u8>) -> Seq<char>;

/// `String::from_utf8_lossy`: claimed to depend on the bytes alone, and to
/// decode those that are UTF-8.
#[verifier::external_body]
fn decode_lossy(bytes: &[u8]) -> (text: String)
    ensures
        text@ == lossy_text(bytes@),
        valid_utf8(bytes@) ==> text@ == decode_utf8(bytes@),
{
    String::from_utf8_lossy(bytes).into_owned()
}

/// Scheme, host and port of the URL that `url::Url::parse` reads from a text; a
/// host and a port only where the URL has them.
pub uninterp spec fn url_parts(text: Seq<char>) -> Option<
    (Seq<char>, Option<Seq<char>>, Option<u16>),
>;

/// `url::Url::parse`, with the URL's scheme, host and port: claimed to depend on
/// the text alone.
#[verifier::external_body]
fn parse_url(text: &str) -> (parts: Option<(String, Option<String>, Option<u16>)>)
    ensures
        match parts {
            Some((scheme, host, port)) => url_parts(text@) == Some(
                (
                    scheme@,
                    match host {
                        Some(h) => Some(h@),
                        None => None,
                    },
                    port,
                ),
            ),
            None => url_parts(text@) is None,
        },
{
    let url = reqwest::Url::parse(text).ok()?;
    Some((url.scheme().to_owned(), url.host_str().map(|h| h.to_owned()), url.port()))
}

// ── headers ─────────────────────────────────────────────────────────────────

/// A header: its name in small letters, and the bytes of its value.
#[derive(Debug, PartialEq, Eq)]
pub struct Header {
    pub name: String,
    pub value: Vec<u8>,
}

/// A header by views.
pub type HeaderView = (Seq<char>, Seq<u8>);

/// Headers by their views.
pub open spec fn header_views(headers: Seq<Header>) -> Seq<HeaderView> {
    headers.map_values(|h: Header| (h.name@, h.value@))
}

fn copy_bytes(bytes: &Vec<u8>) -> (copy: Vec<u8>)
    ensures
        copy@ == bytes@,
{
    let mut copy: Vec<u8> = Vec::new();
    for i in 0..bytes.len()
        invariant
            copy@ == bytes@.take(i as int),
    {
        copy.push(bytes[i]);
        assert(bytes@.take(i + 1) =~= bytes@.take(i as int).push(bytes@[i as int]));
    }
    assert(bytes@.take(bytes@.len() as int) =~= bytes@);
    copy
}

/// Whether a header belongs to the connection rather than to the message.
pub open spec fn belongs_to_hop(name: Seq<char>) -> bool {
    let n = lowered(name);
    ||| n == lowered("connection"@)
    ||| n == lowered("keep-alive"@)
    ||| n == lowered("proxy-authenticate"@)
    ||| n == lowered("proxy-authorization"@)
    ||| n == lowered("te"@)
    ||| n == lowered("trailer"@)
    ||| n == lowered("transfer-encoding"@)
    ||| n == lowered("upgrade"@)
    ||| n == lowered("host"@)
}

/// Whether a header belongs to the connection rather than to the message.
pub fn is_hop_by_hop(name: &str) -> (yes: bool)
    ensures
        yes == belongs_to_hop(name@),
{
    same_lowered(name, "connection") || same_lowered(name, "keep-alive") || same_lowered(
        name,
        "proxy-authenticate",
    ) || same_lowered(name, "proxy-authorization") || same_lowered(name, "te") || same_lowered(
        name,
        "trailer",
    ) || same_lowered(name, "transfer-encoding") || same_lowered(name, "upgrade") || same_lowered(
        name,
        "host",
    )
}

/// Whether the bytes of a header value are plain text.
pub open spec fn is_plain_value(value: Seq<u8>) -> bool {
    forall|i: int| 0 <= i < value.len() ==> 32 <= #[trigger] value[i] <= 126 || value[i] == 9
}

/// The text of a plain header value.
pub open spec fn plain_text(value: Seq<u8>) -> Seq<char> {
    Seq::new(value.len(), |i: int| value[i] as char)
}

fn value_text(value: &Vec<u8>) -> (text: Option<String>)
    ensures
        match text {
            Some(t) => is_plain_value(value@) && t@ == plain_text(value@),
            None => !is_plain_value(value@),
        },
{
    let mut text = String::new();
    for i in 0..value.len()
        invariant
            forall|j: int| 0 <= j < i ==> 32 <= #[trigger] value@[j] <= 126 || value@[j] == 9,
            text@ == plain_text(value@).take(i as int),
    {
        let b: u8 = value[i];
        if !((32 <= b && b <= 126) || b == 9) {
            return None;
        }
        text.push(b as char);
        assert(text@ =~= plain_text(value@).take(i + 1));
    }
    assert(plain_text(value@).take(value@.len() as int) =~= plain_text(value@));
    Some(text)
}

/// The header names among the first `n` parts.
pub open spec fn names_among(parts: Seq<Seq<char>>, n: int) -> Seq<Seq<char>>
    decreases n,
{
    if n <= 0 {
        Seq::empty()
    } else {
        match header_name_in(trim(parts[n - 1])) {
            Some(name) => names_among(parts, n - 1).push(name),
            None => names_among(parts, n - 1),
        }
    }
}

/// The header names that a `Connection` value lists.
pub open spec fn names_listed(value: Seq<u8>) -> Seq<Seq<char>> {
    if is_plain_value(value) {
        let parts = split(plain_text(value), ","@);
        names_among(parts, parts.len() as int)
    } else {
        Seq::empty()
    }
}

/// The header names that the `Connection` headers among the first `n` list.
pub open spec fn connection_names(headers: Seq<HeaderView>, n: int) -> Seq<Seq<char>>
    decreases n,
{
    if n <= 0 {
        Seq::empty()
    } else if headers[n - 1].0 == "connection"@ {
        connection_names(headers, n - 1) + names_listed(headers[n - 1].1)
    } else {
        connection_names(headers, n - 1)
    }
}

/// The header names that a message's own `Connection` headers list.
pub fn connection_header_names(headers: &[Header]) -> (names: Vec<String>)
    ensures
        texts(names@) == connection_names(header_views(headers@), headers@.len() as int),
{
    proof {
        reveal_strlit(",");
    }
    let ghost all = header_views(headers@);
    let mut names: Vec<String> = Vec::new();
    assert(texts(names@) =~= Seq::empty());
    for i in 0..headers.len()
        invariant
            ","@.len() == 1,
            all == header_views(headers@),
            texts(names@) == connection_names(all, i as int),
    {
        let ghost before = texts(names@);
        assert(all[i as int] == (headers@[i as int].name@, headers@[i as int].value@));
        if same_text(headers[i].name.as_str(), "connection") {
            if let Some(value) = value_text(&headers[i].value) {
                let chars = chars_of(value.as_str());
                let parts = split_at_token(chars.as_slice(), ",");
                let ghost pieces = runs(parts@);
                assert(before + names_among(pieces, 0) =~= before);
                for j in 0..parts.len()
                    invariant
                        pieces == runs(parts@),
                        texts(names@) == before + names_among(pieces, j as int),
                {
                    let ghost read = texts(names@);
                    assert(pieces[j as int] == parts@[j as int]@);
                    let token = text_of(trimmed(parts[j]));
                    if let Some(name) = header_name(token.as_str()) {
                        let ghost n = name@;
                        names.push(name);
                        assert(texts(names@) =~= read.push(n));
                        assert(texts(names@) =~= before + names_among(pieces, j + 1));
                    }
                }
                assert(texts(names@) =~= before + names_listed(headers@[i as int].value@));
            } else {
                assert(before + names_listed(headers@[i as int].value@) =~= before);
            }
        }
    }
    names
}

/// Whether a header stays on this side of the hop.
pub open spec fn is_stripped(name: Seq<char>, connection: Seq<Seq<char>>) -> bool {
    belongs_to_hop(name) || connection.contains(name)
}

/// Whether a header stays on this side of the hop: it belongs to the connection,
/// or the message's own `Connection` header lists it.
pub fn should_strip_header(name: &str, connection: &[String]) -> (yes: bool)
    ensures
        yes == is_stripped(name@, texts(connection@)),
{
    if is_hop_by_hop(name) {
        return true;
    }
    for i in 0..connection.len()
        invariant
            forall|j: int| 0 <= j < i ==> (#[trigger] texts(connection@)[j]) != name@,
    {
        if same_text(connection[i].as_str(), name) {
            assert(texts(connection@)[i as int] == name@);
            return true;
        }
    }
    false
}

/// The first `n` headers that cross the hop. The length of a body is not told:
/// it may be rewritten. Headers of the `reserved` names are the provider's own.
pub open spec fn crossing(
    headers: Seq<HeaderView>,
    connection: Seq<Seq<char>>,
    reserved: Map<Seq<char>, ()>,
    n: int,
) -> Seq<HeaderView>
    decreases n,
{
    if n <= 0 {
        Seq::empty()
    } else {
        let before = crossing(headers, connection, reserved, n - 1);
        let name = headers[n - 1].0;
        if is_stripped(name, connection) || name == "content-length"@ || reserved.contains_key(
            lowered(name),
        ) {
            before
        } else {
            before.push(headers[n - 1])
        }
    }
}

/// The headers that cross the hop.
pub open spec fn crossed(headers: Seq<HeaderView>, reserved: Map<Seq<char>, ()>) -> Seq<
    HeaderView,
> {
    crossing(
        headers,
        connection_names(headers, headers.len() as int),
        reserved,
        headers.len() as int,
    )
}

/// The client's headers that cross the hop to a provider: not those that the
/// provider owns.
pub fn forward_headers_reserving(src: &[Header], provider: &Provider) -> (out: Vec<Header>)
    ensures
        header_views(out@) == crossed(header_views(src@), provider@.reserved),
{
    let ghost all = header_views(src@);
    let connection = connection_header_names(src);
    let ghost listed = texts(connection@);
    let mut out: Vec<Header> = Vec::new();
    assert(header_views(out@) =~= Seq::empty());
    for i in 0..src.len()
        invariant
            all == header_views(src@),
            listed == texts(connection@),
            header_views(out@) == crossing(all, listed, provider@.reserved, i as int),
    {
        let ghost read = header_views(out@);
        let name = src[i].name.as_str();
        assert(all[i as int] == (src@[i as int].name@, src@[i as int].value@));
        if !(should_strip_header(name, connection.as_slice()) || same_text(name, "content-length")
            || provider.reserves(name)) {
            let header = Header { name: src[i].name.clone(), value: copy_bytes(&src[i].value) };
            let ghost h = (header.name@, header.value@);
            out.push(header);
            assert(header_views(out@) =~= read.push(h));
        }
    }
    out
}

/// Headers that cross the hop, whoever they go to.
pub fn forward_headers(src: &[Header]) -> (out: Vec<Header>)
    ensures
        header_views(out@) == crossed(header_views(src@), Map::empty()),
{
    let nobody = Provider::new("", "");
    forward_headers_reserving(src, &nobody)
}

/// No header that a provider owns reaches it from a client, nor one that
/// belongs to the connection.
pub proof fn owned_headers_never_cross(
    headers: Seq<HeaderView>,
    reserved: Map<Seq<char>, ()>,
    i: int,
)
    requires
        0 <= i < crossed(headers, reserved).len(),
    ensures
        !reserved.contains_key(lowered(crossed(headers, reserved)[i].0)),
        !belongs_to_hop(crossed(headers, reserved)[i].0),
        crossed(headers, reserved)[i].0 != "content-length"@,
        !connection_names(headers, headers.len() as int).contains(crossed(headers, reserved)[i].0),
{
    crossing_is_clean(
        headers,
        connection_names(headers, headers.len() as int),
        reserved,
        headers.len() as int,
        i,
    );
}

proof fn crossing_is_clean(
    headers: Seq<HeaderView>,
    connection: Seq<Seq<char>>,
    reserved: Map<Seq<char>, ()>,
    n: int,
    i: int,
)
    requires
        0 <= i < crossing(headers, connection, reserved, n).len(),
    ensures
        ({
            let name = crossing(headers, connection, reserved, n)[i].0;
            &&& !reserved.contains_key(lowered(name))
            &&& !is_stripped(name, connection)
            &&& name != "content-length"@
        }),
    decreases n,
{
    if n > 0 {
        let before = crossing(headers, connection, reserved, n - 1);
        if i < before.len() {
            crossing_is_clean(headers, connection, reserved, n - 1, i);
        }
    }
}

// ── lines ───────────────────────────────────────────────────────────────────

/// The first place of a line feed, from `from` on.
pub open spec fn feed_from(bytes: Seq<u8>, from: int) -> Option<int>
    decreases bytes.len() - from,
{
    if !(0 <= from < bytes.len()) {
        None
    } else if bytes[from] == 10 {
        Some(from)
    } else {
        feed_from(bytes, from + 1)
    }
}

/// A line without the carriage return that may end it.
pub open spec fn without_return(line: Seq<u8>) -> Seq<u8> {
    if line.len() > 0 && line.last() == 13 {
        line.drop_last()
    } else {
        line
    }
}

/// The line feed that is found is the first.
pub proof fn feed_is_in_range(bytes: Seq<u8>, from: int)
    requires
        0 <= from,
    ensures
        match feed_from(bytes, from) {
            Some(i) => from <= i < bytes.len() && bytes[i] == 10 && forall|j: int|
                from <= j < i ==> bytes[j] != 10,
            None => forall|j: int| from <= j < bytes.len() ==> bytes[j] != 10,
        },
    decreases bytes.len() - from,
{
    if from < bytes.len() && bytes[from] != 10 {
        feed_is_in_range(bytes, from + 1);
    }
}

/// The lines that are complete in a run of bytes.
pub open spec fn complete_lines(bytes: Seq<u8>) -> Seq<Seq<u8>>
    decreases bytes.len(),
{
    match feed_from(bytes, 0) {
        Some(i) => {
            proof {
                feed_is_in_range(bytes, 0);
            }
            seq![without_return(bytes.take(i))] + complete_lines(bytes.skip(i + 1))
        },
        None => Seq::empty(),
    }
}

/// What follows the last complete line.
pub open spec fn partial_line(bytes: Seq<u8>) -> Seq<u8>
    decreases bytes.len(),
{
    match feed_from(bytes, 0) {
        Some(i) => {
            proof {
                feed_is_in_range(bytes, 0);
            }
            partial_line(bytes.skip(i + 1))
        },
        None => bytes,
    }
}

/// Lines by the texts that their bytes make.
pub open spec fn line_texts(lines: Seq<Seq<u8>>) -> Seq<Seq<char>> {
    lines.map_values(|l: Seq<u8>| lossy_text(l))
}

/// Decodes a complete line. Bytes that are not UTF-8 are replaced: one bad line
/// does not end a stream.
pub fn decode_line(bytes: &[u8]) -> (line: String)
    ensures
        line@ == lossy_text(bytes@),
        valid_utf8(bytes@) ==> line@ == decode_utf8(bytes@),
{
    decode_lossy(bytes)
}

/// Splits a stream of bytes into lines. Bytes are kept until their line is
/// complete, so that a character cut in two by the transport is whole again
/// when it is decoded.
#[derive(Debug, Default)]
pub struct LineBuffer {
    bytes: Vec<u8>,
}

impl View for LineBuffer {
    type V = Seq<u8>;

    closed spec fn view(&self) -> Seq<u8> {
        self.bytes@
    }
}

impl LineBuffer {
    pub fn new() -> (buffer: LineBuffer)
        ensures
            buffer@ == Seq::<u8>::empty(),
    {
        LineBuffer { bytes: Vec::new() }
    }

    /// Takes more bytes, and gives the lines that are complete.
    pub fn push(&mut self, bytes: &[u8]) -> (lines: Vec<String>)
        ensures
            texts(lines@) == line_texts(complete_lines(old(self)@ + bytes@)),
            final(self)@ == partial_line(old(self)@ + bytes@),
    {
        let mut all: Vec<u8> = Vec::new();
        std::mem::swap(&mut all, &mut self.bytes);
        let ghost before = all@;
        for i in 0..bytes.len()
            invariant
                all@ == before + bytes@.take(i as int),
        {
            all.push(bytes[i]);
            assert(bytes@.take(i + 1) =~= bytes@.take(i as int).push(bytes@[i as int]));
            assert(all@ =~= before + bytes@.take(i + 1));
        }
        assert(bytes@.take(bytes@.len() as int) =~= bytes@);
        let ghost whole = before + bytes@;
        let mut lines: Vec<String> = Vec::new();
        let mut start: usize = 0;
        let mut i: usize = 0;
        proof {
            assert(whole.skip(0) =~= whole);
            assert(texts(lines@) + line_texts(complete_lines(whole)) =~= line_texts(
                complete_lines(whole),
            ));
        }
        while i < all.len()
            invariant
                all@ == whole,
                start <= i <= all@.len(),
                forall|j: int| start <= j < i ==> all@[j] != 10,
                line_texts(complete_lines(whole)) == texts(lines@) + line_texts(
                    complete_lines(whole.skip(start as int)),
                ),
                partial_line(whole) == partial_line(whole.skip(start as int)),
            decreases all@.len() - i,
        {
            if all[i] == 10 {
                let ghost rest = whole.skip(start as int);
                let ghost at = i - start;
                proof {
                    feed_is_in_range(rest, 0);
                    assert(rest[at] == 10);
                    if let Some(f) = feed_from(rest, 0) {
                        if f < at {
                            assert(rest[f] == whole[start + f]);
                        }
                        assert(f == at);
                    }
                }
                let mut end: usize = i;
                if i > start && all[i - 1] == 13 {
                    end = i - 1;
                }
                let line = decode_line(vstd::slice::slice_subrange(all.as_slice(), start, end));
                proof {
                    assert(whole.subrange(start as int, end as int) =~= without_return(
                        rest.take(at),
                    ));
                    assert(rest.skip(at + 1) =~= whole.skip(i + 1));
                }
                let ghost read = texts(lines@);
                let ghost l = line@;
                lines.push(line);
                proof {
                    assert(texts(lines@) =~= read.push(l));
                    let more = complete_lines(whole.skip(i + 1));
                    let here = complete_lines(rest);
                    assert(here =~= seq![without_return(rest.take(at))] + more);
                    assert(line_texts(here) =~= seq![l] + line_texts(more));
                    assert(line_texts(complete_lines(whole)) =~= texts(lines@) + line_texts(more));
                }
                start = i + 1;
            }
            i = i + 1;
        }
        let mut left: Vec<u8> = Vec::new();
        let ghost rest = whole.skip(start as int);
        proof {
            feed_is_in_range(rest, 0);
            if let Some(f) = feed_from(rest, 0) {
                assert(rest[f] == whole[start + f]);
            }
            assert(texts(lines@) + line_texts(complete_lines(rest)) =~= texts(lines@));
        }
        let mut k: usize = start;
        while k < all.len()
            invariant
                all@ == whole,
                start <= k <= all@.len(),
                rest == whole.skip(start as int),
                left@ == rest.take(k - start),
            decreases all@.len() - k,
        {
            left.push(all[k]);
            assert(rest.take(k + 1 - start) =~= rest.take(k - start).push(rest[k - start]));
            k = k + 1;
        }
        assert(rest.take(rest.len() as int) =~= rest);
        self.bytes = left;
        lines
    }

    /// The line that was not ended, where the stream stops in one.
    pub fn finish(self) -> (line: Option<String>)
        ensures
            match line {
                Some(l) => self@.len() > 0 && l@ == lossy_text(self@),
                None => self@.len() == 0,
            },
    {
        if self.bytes.len() == 0 {
            None
        } else {
            Some(decode_line(self.bytes.as_slice()))
        }
    }
}

/// How a stream is cut into pieces does not matter: the lines that come out of
/// two pieces are those of the pieces together.
pub proof fn pieces_do_not_matter(a: Seq<u8>, b: Seq<u8>)
    ensures
        complete_lines(a + b) == complete_lines(a) + complete_lines(partial_line(a) + b),
        partial_line(a + b) == partial_line(partial_line(a) + b),
    decreases a.len(),
{
    feed_is_in_range(a, 0);
    feed_is_in_range(a + b, 0);
    match feed_from(a, 0) {
        Some(i) => {
            let j = feed_from(a + b, 0)->0;
            assert((a + b)[i] == 10);
            if j < i {
                assert((a + b)[j] == a[j]);
            }
            assert(j == i);
            assert((a + b).take(i) =~= a.take(i));
            assert((a + b).skip(i + 1) =~= a.skip(i + 1) + b);
            pieces_do_not_matter(a.skip(i + 1), b);
            assert(complete_lines(a + b) =~= complete_lines(a) + complete_lines(
                partial_line(a) + b,
            ));
        },
        None => {
            assert(complete_lines(a) + complete_lines(a + b) =~= complete_lines(a + b));
        },
    }
}

// ── answers ─────────────────────────────────────────────────────────────────

/// Whether a content type is that of a stream of events.
pub fn is_event_stream(content_type: Option<&str>) -> (yes: bool)
    ensures
        yes == match content_type {
            Some(t) => contains(t@, "text/event-stream"@),
            None => false,
        },
{
    match content_type {
        Some(t) => includes(t, "text/event-stream"),
        None => false,
    }
}

/// Whether a body that is no stream is taken for JSON.
pub fn opens_as_json(body: &str) -> (yes: bool)
    ensures
        yes == opens_json(trim_start(body@)),
{
    let chars = chars_of(body);
    let rest = trimmed_start(chars.as_slice());
    rest.len() > 0 && (rest[0] == '{' || rest[0] == '[')
}

/// How an answer of a backend is read.
#[derive(Debug, Clone, Copy, PartialEq, Eq, Structural)]
pub enum Reading {
    /// It is a failure, and is relayed with its own status: what it says must
    /// not pass for an empty answer.
    Relay,
    /// Its events are read as they arrive.
    Events,
    /// It is read whole.
    Whole,
}

/// How an answer of a backend is read, by whether it succeeded and what it says
/// it holds.
pub fn reading_of(success: bool, content_type: Option<&str>) -> (reading: Reading)
    ensures
        reading == (if !success {
            Reading::Relay
        } else if content_type matches Some(t) && contains(t@, "text/event-stream"@) {
            Reading::Events
        } else {
            Reading::Whole
        }),
{
    if !success {
        Reading::Relay
    } else if is_event_stream(content_type) {
        Reading::Events
    } else {
        Reading::Whole
    }
}

/// The lines of a stream that says what an answer does which was read whole;
/// nothing where it is taken for no JSON, and is to be relayed as it is.
pub fn body_lines(body: &str) -> (list: Option<Vec<String>>)
    ensures
        match list {
            Some(l) => opens_json(trim_start(body@)) && texts(l@) == lines(stream_of(body@)),
            None => !opens_json(trim_start(body@)),
        },
{
    if opens_as_json(body) {
        Some(lines_of(json_to_sse(body).as_str()))
    } else {
        None
    }
}

// ── URLs ────────────────────────────────────────────────────────────────────

/// What is told of a URL by its parts: scheme, host and port.
pub open spec fn location_of(
    parts: Option<(Seq<char>, Option<Seq<char>>, Option<u16>)>,
) -> Seq<char> {
    match parts {
        Some((scheme, Some(host), Some(port))) => scheme + "://"@ + host + ":"@ + decimal(
            port as nat,
        ),
        Some((scheme, Some(host), None)) => scheme + "://"@ + host,
        _ => "<redacted>"@,
    }
}

/// What is told of a URL by its parts. Neither path nor query nor credentials
/// are among them.
pub fn write_location(parts: Option<(String, Option<String>, Option<u16>)>) -> (text: String)
    ensures
        text@ == location_of(
            match parts {
                Some((scheme, host, port)) => Some(
                    (
                        scheme@,
                        match host {
                            Some(h) => Some(h@),
                            None => None,
                        },
                        port,
                    ),
                ),
                None => None,
            },
        ),
{
    match parts {
        Some((scheme, Some(host), port)) => {
            let base = scheme.concat("://").concat(host.as_str());
            match port {
                Some(port) => base.concat(":").concat(decimal_text(port as u64).as_str()),
                None => base,
            }
        },
        _ => "<redacted>".to_owned(),
    }
}

/// Reduces a backend's URL to what may be shown of it: it may carry
/// credentials.
pub fn redact_backend_url(backend: &str) -> (text: String)
    ensures
        text@ == location_of(url_parts(backend@)),
{
    write_location(parse_url(backend))
}

proof fn hop_names_are_small()
    ensures
        lowered("connection"@) == "connection"@,
        lowered("keep-alive"@) == "keep-alive"@,
        lowered("proxy-authenticate"@) == "proxy-authenticate"@,
        lowered("proxy-authorization"@) == "proxy-authorization"@,
        lowered("te"@) == "te"@,
        lowered("trailer"@) == "trailer"@,
        lowered("transfer-encoding"@) == "transfer-encoding"@,
        lowered("upgrade"@) == "upgrade"@,
        lowered("host"@) == "host"@,
{
    reveal_strlit("connection");
    reveal_strlit("keep-alive");
    reveal_strlit("proxy-authenticate");
    reveal_strlit("proxy-authorization");
    reveal_strlit("te");
    reveal_strlit("trailer");
    reveal_strlit("transfer-encoding");
    reveal_strlit("upgrade");
    reveal_strlit("host");
    assert(lowered("connection"@) =~= "connection"@);
    assert(lowered("keep-alive"@) =~= "keep-alive"@);
    assert(lowered("proxy-authenticate"@) =~= "proxy-authenticate"@);
    assert(lowered("proxy-authorization"@) =~= "proxy-authorization"@);
    assert(lowered("te"@) =~= "te"@);
    assert(lowered("trailer"@) =~= "trailer"@);
    assert(lowered("transfer-encoding"@) =~= "transfer-encoding"@);
    assert(lowered("upgrade"@) =~= "upgrade"@);
    assert(lowered("host"@) =~= "host"@);
}

/// The headers of one hop are these, in whatever case, and no others.
pub proof fn headers_of_one_hop_are_these(name: Seq<char>)
    ensures
        belongs_to_hop(name) <==> {
            let n = lowered(name);
            ||| n == "connection"@
            ||| n == "keep-alive"@
            ||| n == "proxy-authenticate"@
            ||| n == "proxy-authorization"@
            ||| n == "te"@
            ||| n == "trailer"@
            ||| n == "transfer-encoding"@
            ||| n == "upgrade"@
            ||| n == "host"@
        },
{
    hop_names_are_small();
}

proof fn crossing_of_prefix(
    a: Seq<HeaderView>,
    b: Seq<HeaderView>,
    connection: Seq<Seq<char>>,
    reserved: Map<Seq<char>, ()>,
    n: int,
)
    requires
        0 <= n <= a.len(),
        n <= b.len(),
        forall|i: int| 0 <= i < n ==> #[trigger] a[i] == b[i],
    ensures
        crossing(a, connection, reserved, n) == crossing(b, connection, reserved, n),
        connection_names(a, n) == connection_names(b, n),
    decreases n,
{
    if n > 0 {
        crossing_of_prefix(a, b, connection, reserved, n - 1);
        assert(a[n - 1] == b[n - 1]);
    }
}

/// Whether a header may cross: it belongs to no hop, is named by no connection
/// header, tells no length, and is not reserved.
pub open spec fn may_cross(
    name: Seq<char>,
    connection: Seq<Seq<char>>,
    reserved: Map<Seq<char>, ()>,
) -> bool {
    &&& !belongs_to_hop(name)
    &&& !connection.contains(name)
    &&& name != "content-length"@
    &&& !reserved.contains_key(lowered(name))
}

/// Every header that may cross does, with its value and in its order, and no other.
pub proof fn every_header_that_may_cross_does(
    headers: Seq<HeaderView>,
    last: HeaderView,
    connection: Seq<Seq<char>>,
    reserved: Map<Seq<char>, ()>,
)
    ensures
        crossing(Seq::empty(), connection, reserved, 0) == Seq::<HeaderView>::empty(),
        ({
            let n = headers.len() as int;
            let before = crossing(headers, connection, reserved, n);
            crossing(headers.push(last), connection, reserved, n + 1) == (if may_cross(
                last.0,
                connection,
                reserved,
            ) {
                before.push(last)
            } else {
                before
            })
        }),
        crossed(headers, reserved) == crossing(
            headers,
            connection_names(headers, headers.len() as int),
            reserved,
            headers.len() as int,
        ),
{
    crossing_of_prefix(headers, headers.push(last), connection, reserved, headers.len() as int);
}

/// A connection header names the headers between its commas, blanks aside and in
/// small letters; what is no header's name is passed over, and so is any other
/// header.
pub proof fn connection_headers_name_others(
    headers: Seq<HeaderView>,
    last: HeaderView,
    parts: Seq<Seq<char>>,
    part: Seq<char>,
)
    ensures
        ({
            let n = headers.len() as int;
            connection_names(headers.push(last), n + 1) == (if last.0 == "connection"@ {
                connection_names(headers, n) + names_listed(last.1)
            } else {
                connection_names(headers, n)
            })
        }),
        ({
            let n = parts.len() as int;
            names_among(parts.push(part), n + 1) == (match header_name_in(trim(part)) {
                Some(name) => names_among(parts, n).push(name),
                None => names_among(parts, n),
            })
        }),
        is_plain_value(last.1) ==> names_listed(last.1) == names_among(
            split(plain_text(last.1), ","@),
            split(plain_text(last.1), ","@).len() as int,
        ),
        !is_plain_value(last.1) ==> names_listed(last.1).len() == 0,
        connection_names(Seq::empty(), 0) == Seq::<Seq<char>>::empty(),
        names_among(Seq::empty(), 0) == Seq::<Seq<char>>::empty(),
{
    crossing_of_prefix(
        headers,
        headers.push(last),
        Seq::empty(),
        Map::empty(),
        headers.len() as int,
    );
    names_of_prefix(parts, parts.push(part), parts.len() as int);
}

proof fn names_of_prefix(a: Seq<Seq<char>>, b: Seq<Seq<char>>, n: int)
    requires
        0 <= n <= a.len(),
        n <= b.len(),
        forall|i: int| 0 <= i < n ==> #[trigger] a[i] == b[i],
    ensures
        names_among(a, n) == names_among(b, n),
    decreases n,
{
    if n > 0 {
        names_of_prefix(a, b, n - 1);
        assert(a[n - 1] == b[n - 1]);
    }
}

/// A line ends at its line feed, with or without a carriage return before it, and
/// what is not ended waits.
pub proof fn lines_end_at_their_feed(line: Seq<u8>, rest: Seq<u8>)
    requires
        !line.contains(10),
    ensures
        complete_lines(line) == Seq::<Seq<u8>>::empty(),
        partial_line(line) == line,
        !(line.len() > 0 && line.last() == 13) ==> complete_lines(line + seq![10u8] + rest)
            == seq![line] + complete_lines(rest),
        complete_lines(line.push(13) + seq![10u8] + rest) == seq![line] + complete_lines(rest),
        partial_line(line + seq![10u8] + rest) == partial_line(rest),
{
    feed_stands_at(line, Seq::empty(), 0);
    assert(line + Seq::<u8>::empty() =~= line);
    let a = line + seq![10u8] + rest;
    feed_stands_at(line, seq![10u8] + rest, 0);
    assert(a =~= line + (seq![10u8] + rest));
    assert(a.take(line.len() as int) =~= line);
    assert(a.skip(line.len() as int + 1) =~= rest);
    let long = line.push(13);
    let b = long + seq![10u8] + rest;
    assert(!long.contains(10)) by {
        if long.contains(10) {
            let i = choose|i: int| 0 <= i < long.len() && long[i] == 10;
            assert(line[i] == 10);
        }
    }
    feed_stands_at(long, seq![10u8] + rest, 0);
    assert(b =~= long + (seq![10u8] + rest));
    assert(b.take(long.len() as int) =~= long);
    assert(b.skip(long.len() as int + 1) =~= rest);
    assert(long.drop_last() =~= line);
}

proof fn feed_stands_at(line: Seq<u8>, rest: Seq<u8>, from: int)
    requires
        !line.contains(10),
        0 <= from <= line.len(),
        rest.len() > 0 ==> rest[0] == 10,
    ensures
        feed_from(line + rest, from) == (if rest.len() > 0 {
            Some(line.len() as int)
        } else {
            None
        }),
    decreases line.len() - from,
{
    let s = line + rest;
    if from < line.len() {
        assert(s[from] == line[from]);
        assert(line.contains(line[from]));
        feed_stands_at(line, rest, from + 1);
    } else if rest.len() > 0 {
        assert(s[from] == rest[0]);
    }
}

/// What is shown of a URL is its scheme, host and port, and nothing else of it; of
/// what is no such URL nothing is shown.
pub proof fn only_the_location_is_shown(scheme: Seq<char>, host: Seq<char>, port: u16)
    ensures
        location_of(Some((scheme, Some(host), None))) == scheme + "://"@ + host,
        location_of(Some((scheme, Some(host), Some(port)))) == scheme + "://"@ + host + ":"@
            + decimal(port as nat),
        location_of(Some((scheme, None, None))) == "<redacted>"@,
        location_of(Some((scheme, None, Some(port)))) == "<redacted>"@,
        location_of(None) == "<redacted>"@,
{
}

} // verus!
