//! JSON values as plain data.
//!
//! Reading and writing JSON text is `serde_json`'s work. Everything the library
//! decides, it decides on [`Json`], which holds the same tree as plain values,
//! and whose view [`JsonView`] is what contracts speak of.
use vstd::prelude::*;

use crate::members::names_once;
use crate::text::{
    before, before_is_total, before_is_transitive, is_white, same_text, signed_decimal,
    sorts_before,
};

verus! {

/// What a JSON value is: an object is a map from its member names.
#[verifier::ext_equal]
pub enum JsonView {
    Null,
    Bool(bool),
    Int(int),
    /// A number that is no integer, known by the text it is written as.
    Real(Seq<char>),
    Str(Seq<char>),
    Array(Seq<JsonView>),
    Object(Map<Seq<char>, JsonView>),
}

// ── trusted: serde_json ─────────────────────────────────────────────────────

/// `serde_json::Value`, carried opaquely between the text and [`Json`].
#[verifier::external_type_specification]
#[verifier::external_body]
pub struct ExValue(serde_json::Value);

/// `serde_json::Number`, which holds the numbers that are no integers.
#[verifier::external_type_specification]
#[verifier::external_body]
pub struct ExNumber(serde_json::Number);

/// The tree that a `serde_json::Value` holds.
pub uninterp spec fn value_of(value: serde_json::Value) -> JsonView;

/// The number that a `serde_json::Number` holds: `Int` or `Real`.
pub uninterp spec fn number_of(number: serde_json::Number) -> JsonView;

/// What `serde_json::from_str` reads from a text: the one JSON value that it
/// holds, or nothing where it is not JSON.
pub uninterp spec fn json_of(text: Seq<char>) -> Option<JsonView>;

/// What `serde_json`'s stream deserializer reads first from a text: the JSON
/// value at its start, whatever follows it.
pub uninterp spec fn leading_json_of(text: Seq<char>) -> Option<JsonView>;

/// The compact text that `serde_json` writes for a value.
pub uninterp spec fn json_text(value: JsonView) -> Seq<char>;

/// The number that `serde_json::Number::from_f64` makes of the float that std
/// parses from a text; nothing where there is none or it is not finite.
pub uninterp spec fn float_of(text: Seq<char>) -> Option<JsonView>;

/// The indented text that `serde_json` writes for a value.
pub uninterp spec fn pretty_text(value: JsonView) -> Seq<char>;

/// Whether a value holds no number but integers, and nests at most `depth`
/// levels deep.
pub open spec fn is_plain(value: JsonView, depth: nat) -> bool
    decreases depth,
{
    match value {
        JsonView::Real(_) => false,
        JsonView::Array(items) => depth > 0 && forall|i: int|
            0 <= i < items.len() ==> is_plain(#[trigger] items[i], (depth - 1) as nat),
        JsonView::Object(members) => depth > 0 && forall|k: Seq<char>| #[trigger]
            members.contains_key(k) ==> is_plain(members[k], (depth - 1) as nat),
        _ => true,
    }
}

/// Whether a value is read back exactly from the text that is written for it. A
/// number that is no integer may come back as its neighbour, and a value that
/// nests too deep is refused.
pub open spec fn reads_back(value: JsonView) -> bool {
    is_plain(value, 100)
}

/// Whether a value holds no number that is written with an exponent, and nests
/// at most `depth` levels deep.
pub open spec fn is_sound(value: JsonView, depth: nat) -> bool
    decreases depth,
{
    match value {
        JsonView::Real(text) => !text.contains('e'),
        JsonView::Array(items) => depth > 0 && forall|i: int|
            0 <= i < items.len() ==> is_sound(#[trigger] items[i], (depth - 1) as nat),
        JsonView::Object(members) => depth > 0 && forall|k: Seq<char>| #[trigger]
            members.contains_key(k) ==> is_sound(members[k], (depth - 1) as nat),
        _ => true,
    }
}

/// Whether two values are the same down to `depth` levels but for the digits of
/// numbers that are no integers.
pub open spec fn is_alike(a: JsonView, b: JsonView, depth: nat) -> bool
    decreases depth,
{
    match (a, b) {
        (JsonView::Real(_), JsonView::Real(_)) => true,
        (JsonView::Array(x), JsonView::Array(y)) => depth > 0 && x.len() == y.len() && forall|
            i: int,
        |
            0 <= i < x.len() ==> is_alike(#[trigger] x[i], y[i], (depth - 1) as nat),
        (JsonView::Object(x), JsonView::Object(y)) => depth > 0 && x.dom() == y.dom() && forall|
            k: Seq<char>,
        | #[trigger]
            x.contains_key(k) ==> is_alike(x[k], y[k], (depth - 1) as nat),
        _ => a == b,
    }
}

/// Whether a text is read as a value, but for the digits of numbers that are no
/// integers.
pub open spec fn is_read_as(text: Seq<char>, value: JsonView) -> bool {
    json_of(text) matches Some(v) && is_alike(v, value, 100)
}

/// Whether a text stands on one line and has no whitespace around it.
pub open spec fn is_one_line(text: Seq<char>) -> bool {
    &&& text.len() > 0
    &&& !is_white(text[0])
    &&& !is_white(text.last())
    &&& forall|i: int| 0 <= i < text.len() ==> #[trigger] text[i] != '\n' && text[i] != '\r'
}

/// One level of a `serde_json::Value`.
pub enum Opened {
    Null,
    Bool(bool),
    Number(serde_json::Number),
    Str(String),
    Array(Vec<serde_json::Value>),
    Object(Vec<(String, serde_json::Value)>),
}

/// The value that one level of a tree stands for.
pub open spec fn opened_view(opened: Opened) -> JsonView {
    match opened {
        Opened::Null => JsonView::Null,
        Opened::Bool(b) => JsonView::Bool(b),
        Opened::Number(n) => number_of(n),
        Opened::Str(s) => JsonView::Str(s@),
        Opened::Array(items) => JsonView::Array(items@.map_values(|v| value_of(v))),
        Opened::Object(members) => JsonView::Object(object_of(opened_members(members@))),
    }
}

/// The members of an opened object, by their views.
pub open spec fn opened_members(members: Seq<(String, serde_json::Value)>) -> Seq<
    (Seq<char>, JsonView),
> {
    members.map_values(|m: (String, serde_json::Value)| (m.0@, value_of(m.1)))
}

/// `serde_json::from_str` into a `serde_json::Value`: claimed to depend on the
/// text alone.
#[verifier::external_body]
fn parse_value(text: &str) -> (value: Option<serde_json::Value>)
    ensures
        match value {
            Some(v) => json_of(text@) == Some(value_of(v)),
            None => json_of(text@) is None,
        },
{
    serde_json::from_str(text).ok()
}

/// The first item of `serde_json::Deserializer::from_str(..).into_iter()`:
/// claimed to depend on the text alone.
#[verifier::external_body]
fn parse_leading_value(text: &str) -> (value: Option<serde_json::Value>)
    ensures
        match value {
            Some(v) => leading_json_of(text@) == Some(value_of(v)),
            None => leading_json_of(text@) is None,
        },
{
    serde_json::Deserializer::from_str(text).into_iter().next()?.ok()
}

/// The variants of `serde_json::Value` told apart. Its map of members is
/// claimed to hand them out in ascending order of their names, each name once.
#[verifier::external_body]
fn open_value(value: serde_json::Value) -> (opened: Opened)
    ensures
        value_of(value) == opened_view(opened),
        opened matches Opened::Object(members) ==> ascending(opened_members(members@)),
{
    match value {
        serde_json::Value::Null => Opened::Null,
        serde_json::Value::Bool(b) => Opened::Bool(b),
        serde_json::Value::Number(n) => Opened::Number(n),
        serde_json::Value::String(s) => Opened::Str(s),
        serde_json::Value::Array(items) => Opened::Array(items),
        serde_json::Value::Object(members) => Opened::Object(members.into_iter().collect()),
    }
}

/// The variants of `serde_json::Value` built. A map of members collected from
/// distinct names is claimed to hold exactly those members.
#[verifier::external_body]
fn close_value(opened: Opened) -> (value: serde_json::Value)
    requires
        opened matches Opened::Object(members) ==> ascending(opened_members(members@)),
    ensures
        value_of(value) == opened_view(opened),
{
    match opened {
        Opened::Null => serde_json::Value::Null,
        Opened::Bool(b) => serde_json::Value::Bool(b),
        Opened::Number(n) => serde_json::Value::Number(n),
        Opened::Str(s) => serde_json::Value::String(s),
        Opened::Array(items) => serde_json::Value::Array(items),
        Opened::Object(members) => serde_json::Value::Object(members.into_iter().collect()),
    }
}

/// `serde_json::Value`'s `Display`: claimed to depend on the tree alone, to
/// stand on one line with nothing around it, to open an object with a brace,
/// and to be read back by `serde_json::from_str` as the same tree. That much is
/// claimed of trees without floating-point numbers, within the depth that the
/// reader admits. A floating-point number that needs no exponent is claimed to
/// be read back as one, though its digits may differ.
#[verifier::external_body]
fn render_value(value: &serde_json::Value) -> (text: String)
    ensures
        text@ == json_text(value_of(*value)),
        is_one_line(text@),
        value_of(*value) is Object ==> text@[0] == '{',
        reads_back(value_of(*value)) ==> json_of(text@) == Some(value_of(*value)),
        is_sound(value_of(*value), 100) ==> is_read_as(text@, value_of(*value)),
{
    value.to_string()
}

/// `serde_json::Value`'s `Display` in its alternate form, which indents:
/// claimed to depend on the tree alone, to be read back as the compact form is,
/// and to name each member of an object once.
#[verifier::external_body]
fn render_value_pretty(value: &serde_json::Value) -> (text: String)
    ensures
        text@ == pretty_text(value_of(*value)),
        reads_back(value_of(*value)) ==> json_of(text@) == Some(value_of(*value)),
        forall|depth: nat| #[trigger] names_once(text@, depth),
{
    format!("{value:#}")
}

/// `serde_json::Number::as_u64`: claimed to give an integer from 0 to
/// `u64::MAX` and nothing else.
pub assume_specification[ serde_json::Number::as_u64 ](number: &serde_json::Number) -> (n: Option<
    u64,
>)
    ensures
        match number_of(*number) {
            JsonView::Int(v) => n == (if 0 <= v <= u64::MAX {
                Some(v as u64)
            } else {
                None
            }),
            _ => n is None,
        },
;

/// `serde_json::Number::as_i64`: claimed to give an integer that fits in `i64`
/// and nothing else; an integer that does not is at most `u64::MAX`.
pub assume_specification[ serde_json::Number::as_i64 ](number: &serde_json::Number) -> (n: Option<
    i64,
>)
    ensures
        match number_of(*number) {
            JsonView::Int(v) => i64::MIN <= v <= u64::MAX && n == (if v <= i64::MAX {
                Some(v as i64)
            } else {
                None
            }),
            JsonView::Real(_) => n is None,
            _ => false,
        },
;

/// `serde_json::Number`'s `Display`: claimed to write an integer in decimal,
/// and to give any other number the text that it is known by.
#[verifier::external_body]
fn number_text(number: &serde_json::Number) -> (text: String)
    ensures
        match number_of(*number) {
            JsonView::Int(v) => text@ == signed_decimal(v),
            JsonView::Real(t) => text@ == t,
            _ => false,
        },
{
    number.to_string()
}

/// `serde_json::Number`'s `From<u64>`: claimed to hold that integer.
#[verifier::external_body]
fn number_from_u64(n: u64) -> (number: serde_json::Number)
    ensures
        number_of(number) == JsonView::Int(n as int),
{
    serde_json::Number::from(n)
}

/// `serde_json::Number`'s `From<i64>`: claimed to hold that integer.
#[verifier::external_body]
fn number_from_i64(n: i64) -> (number: serde_json::Number)
    ensures
        number_of(number) == JsonView::Int(n as int),
{
    serde_json::Number::from(n)
}

/// `serde_json::Number::from_f64` of what std's `parse` reads as a float:
/// claimed to depend on the text alone and to be no integer.
#[verifier::external_body]
fn number_from_float_text(text: &str) -> (number: Option<serde_json::Number>)
    ensures
        match number {
            Some(n) => float_of(text@) == Some(number_of(n)) && number_of(n) is Real,
            None => float_of(text@) is None,
        },
{
    text.parse().ok().and_then(serde_json::Number::from_f64)
}

/// `serde_json::Number`'s `Clone`: claimed to give an equal number.
#[verifier::external_body]
fn copy_number(number: &serde_json::Number) -> (copy: serde_json::Number)
    ensures
        number_of(copy) == number_of(*number),
{
    number.clone()
}

// ── objects as ordered member lists ─────────────────────────────────────────

/// The object that a list of members makes; of two members of one name the
/// later stands.
pub open spec fn object_of(members: Seq<(Seq<char>, JsonView)>) -> Map<Seq<char>, JsonView>
    decreases members.len(),
{
    if members.len() == 0 {
        Map::empty()
    } else {
        object_of(members.drop_last()).insert(members.last().0, members.last().1)
    }
}

/// Members in strictly ascending order of their names.
pub open spec fn ascending(members: Seq<(Seq<char>, JsonView)>) -> bool {
    forall|i: int, j: int|
        0 <= i < j < members.len() ==> before((#[trigger] members[i]).0, (#[trigger] members[j]).0)
}

/// Names in strictly ascending order.
pub open spec fn ascending_keys(keys: Seq<Seq<char>>) -> bool {
    forall|i: int, j: int|
        0 <= i < j < keys.len() ==> before(#[trigger] keys[i], #[trigger] keys[j])
}

/// Whether `keys` lists the member names of `object` in ascending order.
pub open spec fn lists(keys: Seq<Seq<char>>, object: Map<Seq<char>, JsonView>) -> bool {
    ascending_keys(keys) && forall|k: Seq<char>| object.contains_key(k) <==> keys.contains(k)
}

/// The member names of an object in ascending order, which is the order in
/// which its members are visited and written.
pub open spec fn sorted_keys(object: Map<Seq<char>, JsonView>) -> Seq<Seq<char>> {
    choose|keys: Seq<Seq<char>>| lists(keys, object)
}

proof fn object_of_ascending(members: Seq<(Seq<char>, JsonView)>)
    requires
        ascending(members),
    ensures
        forall|i: int|
            0 <= i < members.len() ==> object_of(members).contains_key((#[trigger] members[i]).0)
                && object_of(members)[members[i].0] == members[i].1,
        forall|k: Seq<char>|
            object_of(members).contains_key(k) ==> exists|i: int|
                0 <= i < members.len() && (#[trigger] members[i]).0 == k,
    decreases members.len(),
{
    if members.len() > 0 {
        let rest = members.drop_last();
        object_of_ascending(rest);
        let last = members.last();
        assert forall|i: int| 0 <= i < members.len() implies object_of(members).contains_key(
            (#[trigger] members[i]).0,
        ) && object_of(members)[members[i].0] == members[i].1 by {
            if i < rest.len() {
                assert(rest[i] == members[i]);
                before_is_total(members[i].0, last.0);
            }
        }
        assert forall|k: Seq<char>| object_of(members).contains_key(k) implies exists|i: int|
            0 <= i < members.len() && (#[trigger] members[i]).0 == k by {
            if k == last.0 {
                assert(members[members.len() - 1].0 == k);
            } else {
                assert(object_of(rest).contains_key(k));
                let i = choose|i: int| 0 <= i < rest.len() && (#[trigger] rest[i]).0 == k;
                assert(members[i].0 == k);
            }
        }
    }
}

/// The object that members in ascending order make is the one with exactly
/// those members.
proof fn object_of_is(members: Seq<(Seq<char>, JsonView)>, object: Map<Seq<char>, JsonView>)
    requires
        ascending(members),
        forall|i: int|
            0 <= i < members.len() ==> object.contains_key((#[trigger] members[i]).0)
                && object[members[i].0] == members[i].1,
        forall|k: Seq<char>|
            object.contains_key(k) ==> exists|i: int|
                0 <= i < members.len() && (#[trigger] members[i]).0 == k,
    ensures
        object_of(members) == object,
{
    object_of_ascending(members);
    let made = object_of(members);
    assert forall|k: Seq<char>| made.contains_key(k) implies object.contains_key(k) && object[k]
        == made[k] by {
        let i = choose|i: int| 0 <= i < members.len() && (#[trigger] members[i]).0 == k;
        assert(members[i].0 == k);
    }
    assert forall|k: Seq<char>| object.contains_key(k) implies made.contains_key(k) by {
        let i = choose|i: int| 0 <= i < members.len() && (#[trigger] members[i]).0 == k;
        assert(members[i].0 == k);
    }
    assert(made =~= object);
}

/// Two ascending lists of the same names are equal.
proof fn ascending_unique(a: Seq<Seq<char>>, b: Seq<Seq<char>>)
    requires
        ascending_keys(a),
        ascending_keys(b),
        forall|k: Seq<char>| a.contains(k) <==> b.contains(k),
    ensures
        a == b,
    decreases a.len(),
{
    if a.len() == 0 {
        if b.len() > 0 {
            assert(b.contains(b[0]));
        }
        assert(a =~= b);
    } else {
        assert(a.contains(a[0]));
        let j = choose|j: int| 0 <= j < b.len() && b[j] == a[0];
        assert(b.contains(b[0]));
        let i = choose|i: int| 0 <= i < a.len() && a[i] == b[0];
        before_is_total(a[0], b[0]);
        if i > 0 && j > 0 {
            assert(before(a[0], a[i]));
            assert(before(b[0], b[j]));
        }
        assert(a[0] == b[0]);
        let ra = a.drop_first();
        let rb = b.drop_first();
        assert forall|x: int, y: int| 0 <= x < y < ra.len() implies before(
            #[trigger] ra[x],
            #[trigger] ra[y],
        ) by {
            assert(before(a[x + 1], a[y + 1]));
        }
        assert forall|x: int, y: int| 0 <= x < y < rb.len() implies before(
            #[trigger] rb[x],
            #[trigger] rb[y],
        ) by {
            assert(before(b[x + 1], b[y + 1]));
        }
        assert forall|k: Seq<char>| ra.contains(k) <==> rb.contains(k) by {
            before_is_total(a[0], a[0]);
            if ra.contains(k) {
                let x = choose|x: int| 0 <= x < ra.len() && ra[x] == k;
                assert(before(a[0], a[x + 1]));
                assert(a.contains(k));
                let y = choose|y: int| 0 <= y < b.len() && b[y] == k;
                assert(y > 0);
                assert(rb[y - 1] == k);
            }
            if rb.contains(k) {
                let y = choose|y: int| 0 <= y < rb.len() && rb[y] == k;
                assert(before(b[0], b[y + 1]));
                assert(b.contains(k));
                let x = choose|x: int| 0 <= x < a.len() && a[x] == k;
                assert(x > 0);
                assert(ra[x - 1] == k);
            }
        }
        ascending_unique(ra, rb);
        assert(a =~= seq![a[0]] + ra);
        assert(b =~= seq![b[0]] + rb);
    }
}

/// Objects with the same member names list them in the same order.
pub proof fn same_names_same_order(a: Map<Seq<char>, JsonView>, b: Map<Seq<char>, JsonView>)
    requires
        a.dom() == b.dom(),
        lists(sorted_keys(a), a),
    ensures
        sorted_keys(a) == sorted_keys(b),
{
    let keys = sorted_keys(a);
    assert forall|k: Seq<char>| b.contains_key(k) <==> keys.contains(k) by {
        assert(a.dom().contains(k) <==> b.dom().contains(k));
    }
    assert(lists(keys, b));
    ascending_unique(keys, sorted_keys(b));
}

/// The names of members in ascending order are the sorted names of the object
/// they make.
proof fn sorted_keys_of(members: Seq<(Seq<char>, JsonView)>)
    requires
        ascending(members),
    ensures
        sorted_keys(object_of(members)) == members.map_values(|m: (Seq<char>, JsonView)| m.0),
        lists(sorted_keys(object_of(members)), object_of(members)),
{
    object_of_ascending(members);
    let keys = members.map_values(|m: (Seq<char>, JsonView)| m.0);
    let object = object_of(members);
    assert forall|i: int, j: int| 0 <= i < j < keys.len() implies before(
        #[trigger] keys[i],
        #[trigger] keys[j],
    ) by {
        assert(before(members[i].0, members[j].0));
    }
    assert forall|k: Seq<char>| object.contains_key(k) <==> keys.contains(k) by {
        if object.contains_key(k) {
            let i = choose|i: int| 0 <= i < members.len() && (#[trigger] members[i]).0 == k;
            assert(keys[i] == k);
        }
        if keys.contains(k) {
            let i = choose|i: int| 0 <= i < keys.len() && keys[i] == k;
            assert(members[i].0 == k);
        }
    }
    assert(lists(keys, object));
    ascending_unique(keys, sorted_keys(object));
}


// ── the tree ────────────────────────────────────────────────────────────────

/// A number that is no integer.
#[derive(Debug, PartialEq)]
pub struct Real {
    number: serde_json::Number,
}

impl Real {
    #[verifier::type_invariant]
    closed spec fn is_real(self) -> bool {
        number_of(self.number) is Real
    }
}

impl View for Real {
    type V = Seq<char>;

    closed spec fn view(&self) -> Seq<char> {
        number_of(self.number)->Real_0
    }
}

/// A JSON value.
#[derive(Debug, PartialEq)]
pub enum Json {
    Null,
    Bool(bool),
    Unsigned(u64),
    Signed(i64),
    Real(Real),
    Str(String),
    Array(Vec<Json>),
    Object(JsonObject),
}

/// A JSON object: its members in ascending order of their names, each name
/// once.
#[derive(Debug, PartialEq)]
pub struct JsonObject {
    entries: Vec<(String, Json)>,
}

impl View for Json {
    type V = JsonView;

    open spec fn view(&self) -> JsonView
        decreases self, 2int,
    {
        match self {
            Json::Null => JsonView::Null,
            Json::Bool(b) => JsonView::Bool(*b),
            Json::Unsigned(n) => JsonView::Int(n as int),
            Json::Signed(n) => JsonView::Int(n as int),
            Json::Real(r) => JsonView::Real(r@),
            Json::Str(s) => JsonView::Str(s@),
            Json::Array(items) => JsonView::Array(
                Seq::new(
                    items@.len(),
                    |i: int|
                        if 0 <= i < items@.len() {
                            items@[i].view()
                        } else {
                            JsonView::Null
                        },
                ),
            ),
            Json::Object(object) => JsonView::Object(object.view()),
        }
    }
}

impl JsonObject {
    /// The members by their views.
    closed spec fn members(&self) -> Seq<(Seq<char>, JsonView)>
        decreases self, 0int,
    {
        Seq::new(
            self.entries@.len(),
            |i: int|
                if 0 <= i < self.entries@.len() {
                    (self.entries@[i].0@, self.entries@[i].1.view())
                } else {
                    arbitrary()
                },
        )
    }
}

impl View for JsonObject {
    type V = Map<Seq<char>, JsonView>;

    closed spec fn view(&self) -> Map<Seq<char>, JsonView>
        decreases self, 1int,
    {
        object_of(self.members())
    }
}

/// A list of values, each by its view.
pub open spec fn views(items: Seq<Json>) -> Seq<JsonView> {
    items.map_values(|j: Json| j@)
}

/// An optional value by its view.
pub open spec fn seen(value: Option<&Json>) -> Option<JsonView> {
    match value {
        Some(j) => Some(j@),
        None => None,
    }
}

/// An optional text by its view.
pub open spec fn seen_text(text: Option<&str>) -> Option<Seq<char>> {
    match text {
        Some(t) => Some(t@),
        None => None,
    }
}

/// The view of an array is that of its items.
pub broadcast proof fn array_view(items: Vec<Json>)
    ensures
        #[trigger] Json::Array(items).view() == JsonView::Array(views(items@)),
{
    assert(Json::Array(items).view()->Array_0 =~= views(items@));
}

/// A list of owned members by their views.
pub open spec fn member_views(members: Seq<(String, Json)>) -> Seq<(Seq<char>, JsonView)> {
    members.map_values(|m: (String, Json)| (m.0@, m.1@))
}

impl JsonObject {
    proof fn object_view(&self)
        ensures
            self@ == object_of(member_views(self.entries@)),
    {
        assert(self.members() =~= member_views(self.entries@));
    }
}

/// Reading a value.
impl JsonView {
    /// The member `key` of an object.
    pub open spec fn get(self, key: Seq<char>) -> Option<JsonView> {
        match self {
            JsonView::Object(members) => if members.contains_key(key) {
                Some(members[key])
            } else {
                None
            },
            _ => None,
        }
    }

    /// The item of an array at a position.
    pub open spec fn at(self, i: int) -> Option<JsonView> {
        match self {
            JsonView::Array(items) => if 0 <= i < items.len() {
                Some(items[i])
            } else {
                None
            },
            _ => None,
        }
    }

    pub open spec fn as_text(self) -> Option<Seq<char>> {
        match self {
            JsonView::Str(s) => Some(s),
            _ => None,
        }
    }

    pub open spec fn as_items(self) -> Option<Seq<JsonView>> {
        match self {
            JsonView::Array(items) => Some(items),
            _ => None,
        }
    }

    pub open spec fn as_members(self) -> Option<Map<Seq<char>, JsonView>> {
        match self {
            JsonView::Object(members) => Some(members),
            _ => None,
        }
    }

    pub open spec fn as_bool(self) -> Option<bool> {
        match self {
            JsonView::Bool(b) => Some(b),
            _ => None,
        }
    }

    /// An integer from 0 to `u64::MAX`.
    pub open spec fn as_unsigned(self) -> Option<u64> {
        match self {
            JsonView::Int(n) => if 0 <= n <= u64::MAX {
                Some(n as u64)
            } else {
                None
            },
            _ => None,
        }
    }
}

/// The member `key` of an optional value.
pub open spec fn field(value: Option<JsonView>, key: Seq<char>) -> Option<JsonView> {
    match value {
        Some(v) => v.get(key),
        None => None,
    }
}

/// The text that an optional value is.
pub open spec fn text_in(value: Option<JsonView>) -> Option<Seq<char>> {
    match value {
        Some(v) => v.as_text(),
        None => None,
    }
}

/// The items that an optional value holds.
pub open spec fn items_in(value: Option<JsonView>) -> Option<Seq<JsonView>> {
    match value {
        Some(v) => v.as_items(),
        None => None,
    }
}

/// The unsigned integer that an optional value is.
pub open spec fn unsigned_in(value: Option<JsonView>) -> Option<u64> {
    match value {
        Some(v) => v.as_unsigned(),
        None => None,
    }
}

impl Json {
    /// The member `key` of an object.
    pub fn get(&self, key: &str) -> (value: Option<&Json>)
        ensures
            seen(value) == self@.get(key@),
    {
        match self {
            Json::Object(object) => object.get(key),
            _ => None,
        }
    }

    /// The item of an array at a position.
    pub fn at(&self, i: usize) -> (value: Option<&Json>)
        ensures
            seen(value) == self@.at(i as int),
    {
        broadcast use array_view;

        match self {
            Json::Array(items) => if i < items.len() {
                Some(&items[i])
            } else {
                None
            },
            _ => None,
        }
    }

    pub fn as_str(&self) -> (text: Option<&str>)
        ensures
            seen_text(text) == self@.as_text(),
    {
        match self {
            Json::Str(s) => Some(s.as_str()),
            _ => None,
        }
    }

    pub fn as_array(&self) -> (items: Option<&Vec<Json>>)
        ensures
            match items {
                Some(list) => self@ == JsonView::Array(views(list@)),
                None => self@.as_items() is None,
            },
    {
        broadcast use array_view;

        match self {
            Json::Array(items) => Some(items),
            _ => None,
        }
    }

    pub fn as_object(&self) -> (object: Option<&JsonObject>)
        ensures
            match object {
                Some(o) => self@ == JsonView::Object(o@),
                None => self@.as_members() is None,
            },
    {
        match self {
            Json::Object(object) => Some(object),
            _ => None,
        }
    }

    pub fn as_bool(&self) -> (value: Option<bool>)
        ensures
            value == self@.as_bool(),
    {
        match self {
            Json::Bool(b) => Some(*b),
            _ => None,
        }
    }

    pub fn as_u64(&self) -> (value: Option<u64>)
        ensures
            value == self@.as_unsigned(),
    {
        match self {
            Json::Unsigned(n) => Some(*n),
            Json::Signed(n) => if *n >= 0 {
                Some(*n as u64)
            } else {
                None
            },
            _ => None,
        }
    }

    pub fn is_null(&self) -> (null: bool)
        ensures
            null == (self@ is Null),
    {
        matches!(self, Json::Null)
    }

    /// A text value.
    pub fn text(text: &str) -> (value: Json)
        ensures
            value@ == JsonView::Str(text@),
    {
        Json::Str(text.to_owned())
    }

    /// An equal value.
    pub fn copy(&self) -> (copy: Json)
        ensures
            copy@ == self@,
        decreases self,
    {
        broadcast use array_view;

        match self {
            Json::Null => Json::Null,
            Json::Bool(b) => Json::Bool(*b),
            Json::Unsigned(n) => Json::Unsigned(*n),
            Json::Signed(n) => Json::Signed(*n),
            Json::Real(r) => Json::Real(r.copy()),
            Json::Str(s) => Json::Str(s.clone()),
            Json::Array(items) => Json::Array(copy_items(items)),
            Json::Object(object) => Json::Object(object.copy()),
        }
    }
}

/// Equal items.
pub fn copy_items(items: &Vec<Json>) -> (copies: Vec<Json>)
    ensures
        views(copies@) == views(items@),
    decreases items,
{
    let mut copies: Vec<Json> = Vec::new();
    for i in 0..items.len()
        invariant
            views(copies@) == views(items@).take(i as int),
    {
        let copy = items[i].copy();
        copies.push(copy);
        assert(views(copies@) =~= views(items@).take(i as int).push(copy@));
        assert(views(copies@) =~= views(items@).take(i + 1));
    }
    assert(views(copies@) =~= views(items@));
    copies
}

impl Real {
    /// An equal number.
    pub fn copy(&self) -> (copy: Real)
        ensures
            copy@ == self@,
    {
        proof {
            use_type_invariant(self);
        }
        Real { number: copy_number(&self.number) }
    }

    /// The text that the number is written as.
    pub fn text(&self) -> (text: String)
        ensures
            text@ == self@,
    {
        proof {
            use_type_invariant(self);
        }
        number_text(&self.number)
    }
}

impl JsonObject {
    #[verifier::type_invariant]
    closed spec fn is_ordered(self) -> bool {
        ascending(member_views(self.entries@))
    }

    /// The object without members.
    pub fn new() -> (object: JsonObject)
        ensures
            object@ == Map::<Seq<char>, JsonView>::empty(),
    {
        let object = JsonObject { entries: Vec::new() };
        proof {
            object.object_view();
            assert(member_views(object.entries@) =~= Seq::empty());
        }
        object
    }

    /// How many members there are.
    pub fn len(&self) -> (n: usize)
        ensures
            n == sorted_keys(self@).len(),
            lists(sorted_keys(self@), self@),
    {
        proof {
            use_type_invariant(self);
            self.object_view();
            sorted_keys_of(member_views(self.entries@));
        }
        self.entries.len()
    }

    /// The member at a position in the order of the names.
    pub fn entry(&self, i: usize) -> (member: (&str, &Json))
        requires
            i < sorted_keys(self@).len(),
        ensures
            member.0@ == sorted_keys(self@)[i as int],
            self@.contains_key(member.0@),
            member.1@ == self@[member.0@],
    {
        proof {
            use_type_invariant(self);
            self.object_view();
            sorted_keys_of(member_views(self.entries@));
            object_of_ascending(member_views(self.entries@));
            assert(member_views(self.entries@)[i as int] == (
                self.entries@[i as int].0@,
                self.entries@[i as int].1@,
            ));
        }
        (self.entries[i].0.as_str(), &self.entries[i].1)
    }

    /// The position of the first member whose name does not sort before `key`.
    fn position(&self, key: &str) -> (at: usize)
        ensures
            at <= self.entries@.len(),
            forall|i: int| 0 <= i < at ==> before((#[trigger] self.entries@[i]).0@, key@),
            at < self.entries@.len() ==> !before(self.entries@[at as int].0@, key@),
    {
        let mut at: usize = 0;
        while at < self.entries.len() && sorts_before(self.entries[at].0.as_str(), key)
            invariant
                at <= self.entries@.len(),
                forall|i: int| 0 <= i < at ==> before((#[trigger] self.entries@[i]).0@, key@),
            decreases self.entries@.len() - at,
        {
            at = at + 1;
        }
        at
    }

    /// The member `key`.
    pub fn get(&self, key: &str) -> (value: Option<&Json>)
        ensures
            seen(value) == JsonView::Object(self@).get(key@),
    {
        let at = self.position(key);
        proof {
            use_type_invariant(self);
            self.object_view();
            let members = member_views(self.entries@);
            object_of_ascending(members);
            if at < members.len() && members[at as int].0 == key@ {
            } else if self@.contains_key(key@) {
                let i = choose|i: int| 0 <= i < members.len() && (#[trigger] members[i]).0 == key@;
                assert(members[i].0 == self.entries@[i].0@);
                before_is_total(key@, key@);
                before_is_total(members[at as int].0, key@);
                assert(i > at);
                assert(before(members[at as int].0, members[i].0));
            }
        }
        if at < self.entries.len() && same_text(self.entries[at].0.as_str(), key) {
            Some(&self.entries[at].1)
        } else {
            None
        }
    }

    /// Whether there is a member `key`.
    pub fn contains_key(&self, key: &str) -> (yes: bool)
        ensures
            yes == self@.contains_key(key@),
    {
        self.get(key).is_some()
    }

    /// The object with the member `key` set to `value`.
    pub fn with(self, key: &str, value: Json) -> (object: JsonObject)
        ensures
            object@ == self@.insert(key@, value@),
    {
        let at = self.position(key);
        proof {
            use_type_invariant(&self);
            self.object_view();
            object_of_ascending(member_views(self.entries@));
        }
        let ghost old_entries = self.entries@;
        let ghost members = member_views(self.entries@);
        let ghost target = self@.insert(key@, value@);
        let mut entries = self.entries;
        if at < entries.len() && same_text(entries[at].0.as_str(), key) {
            entries.set(at, (key.to_owned(), value));
            proof {
                let now = member_views(entries@);
                assert(now =~= members.update(at as int, (key@, value@)));
                assert forall|i: int, j: int| 0 <= i < j < now.len() implies before(
                    (#[trigger] now[i]).0,
                    (#[trigger] now[j]).0,
                ) by {
                    assert(now[i].0 == members[i].0);
                    assert(now[j].0 == members[j].0);
                }
                before_is_total(key@, key@);
                assert forall|i: int| 0 <= i < now.len() implies target.contains_key(
                    (#[trigger] now[i]).0,
                ) && target[now[i].0] == now[i].1 by {
                    if i != at {
                        assert(now[i] == members[i]);
                        if i < at {
                            assert(before(members[i].0, members[at as int].0));
                        } else {
                            assert(before(members[at as int].0, members[i].0));
                        }
                    }
                }
                assert forall|k: Seq<char>| target.contains_key(k) implies exists|i: int|
                    0 <= i < now.len() && (#[trigger] now[i]).0 == k by {
                    if k == key@ {
                        assert(now[at as int].0 == k);
                    } else {
                        let i = choose|i: int|
                            0 <= i < members.len() && (#[trigger] members[i]).0 == k;
                        assert(now[i].0 == k);
                    }
                }
                object_of_is(now, target);
            }
        } else {
            entries.insert(at, (key.to_owned(), value));
            proof {
                let now = member_views(entries@);
                assert(now =~= members.insert(at as int, (key@, value@)));
                if at < members.len() {
                    before_is_total(key@, members[at as int].0);
                }
                assert forall|i: int| at <= i < members.len() implies before(
                    key@,
                    (#[trigger] members[i]).0,
                ) by {
                    if i > at {
                        assert(before(members[at as int].0, members[i].0));
                        before_is_transitive(key@, members[at as int].0, members[i].0);
                    }
                }
                assert forall|i: int| 0 <= i < at implies before(
                    (#[trigger] members[i]).0,
                    key@,
                ) by {
                    assert(old_entries[i].0@ == members[i].0);
                }
                assert forall|i: int, j: int| 0 <= i < j < now.len() implies before(
                    (#[trigger] now[i]).0,
                    (#[trigger] now[j]).0,
                ) by {
                    let a = if i < at { i } else { i - 1 };
                    let b = if j < at { j } else { j - 1 };
                    if i != at {
                        assert(now[i] == members[a]);
                    }
                    if j != at {
                        assert(now[j] == members[b]);
                    }
                }
                before_is_total(key@, key@);
                assert forall|i: int| 0 <= i < now.len() implies target.contains_key(
                    (#[trigger] now[i]).0,
                ) && target[now[i].0] == now[i].1 by {
                    if i < at {
                        assert(now[i] == members[i]);
                    } else if i > at {
                        assert(now[i] == members[i - 1]);
                    }
                }
                assert forall|k: Seq<char>| target.contains_key(k) implies exists|i: int|
                    0 <= i < now.len() && (#[trigger] now[i]).0 == k by {
                    if k == key@ {
                        assert(now[at as int].0 == k);
                    } else {
                        let i = choose|i: int|
                            0 <= i < members.len() && (#[trigger] members[i]).0 == k;
                        if i < at {
                            assert(now[i].0 == k);
                        } else {
                            assert(now[i + 1].0 == k);
                        }
                    }
                }
                object_of_is(now, target);
            }
        }
        let object = JsonObject { entries };
        proof {
            object.object_view();
        }
        object
    }

    /// Sets the member `key` to `value`.
    pub fn insert(&mut self, key: &str, value: Json)
        ensures
            final(self)@ == old(self)@.insert(key@, value@),
    {
        let mut taken = JsonObject::new();
        std::mem::swap(self, &mut taken);
        *self = taken.with(key, value);
    }

    /// The object without the member `key`.
    pub fn without(self, key: &str) -> (object: JsonObject)
        ensures
            object@ == self@.remove(key@),
    {
        let at = self.position(key);
        proof {
            use_type_invariant(&self);
            self.object_view();
            object_of_ascending(member_views(self.entries@));
        }
        let ghost members = member_views(self.entries@);
        let ghost target = self@.remove(key@);
        let ghost entries_before = self.entries@;
        let mut entries = self.entries;
        if at < entries.len() && same_text(entries[at].0.as_str(), key) {
            let _ = entries.remove(at);
            proof {
                let now = member_views(entries@);
                assert(now =~= members.remove(at as int));
                before_is_total(key@, key@);
                assert forall|i: int, j: int| 0 <= i < j < now.len() implies before(
                    (#[trigger] now[i]).0,
                    (#[trigger] now[j]).0,
                ) by {
                    let a = if i < at { i } else { i + 1 };
                    let b = if j < at { j } else { j + 1 };
                    assert(now[i] == members[a]);
                    assert(now[j] == members[b]);
                }
                assert forall|i: int| 0 <= i < now.len() implies target.contains_key(
                    (#[trigger] now[i]).0,
                ) && target[now[i].0] == now[i].1 by {
                    let a = if i < at { i } else { i + 1 };
                    assert(now[i] == members[a]);
                    if a < at {
                        assert(before(members[a].0, members[at as int].0));
                    } else {
                        assert(before(members[at as int].0, members[a].0));
                    }
                }
                assert forall|k: Seq<char>| target.contains_key(k) implies exists|i: int|
                    0 <= i < now.len() && (#[trigger] now[i]).0 == k by {
                    let i = choose|i: int| 0 <= i < members.len() && (#[trigger] members[i]).0 == k;
                    if i < at {
                        assert(now[i].0 == k);
                    } else {
                        assert(now[i - 1].0 == k);
                    }
                }
                object_of_is(now, target);
            }
        } else {
            proof {
                if target != self@ {
                    assert(self@.contains_key(key@)) by {
                        if !self@.contains_key(key@) {
                            assert(target =~= self@);
                        }
                    }
                    let i = choose|i: int|
                        0 <= i < members.len() && (#[trigger] members[i]).0 == key@;
                    assert(members[i].0 == entries_before[i].0@);
                    before_is_total(key@, key@);
                    before_is_total(members[at as int].0, key@);
                    assert(i > at);
                    assert(before(members[at as int].0, members[i].0));
                }
            }
        }
        let object = JsonObject { entries };
        proof {
            object.object_view();
        }
        object
    }

    /// Takes the member `key` out.
    pub fn remove(&mut self, key: &str)
        ensures
            final(self)@ == old(self)@.remove(key@),
    {
        let mut taken = JsonObject::new();
        std::mem::swap(self, &mut taken);
        *self = taken.without(key);
    }

    /// An equal object.
    pub fn copy(&self) -> (copy: JsonObject)
        ensures
            copy@ == self@,
        decreases self,
    {
        let mut entries: Vec<(String, Json)> = Vec::new();
        for i in 0..self.entries.len()
            invariant
                member_views(entries@) == member_views(self.entries@).take(i as int),
        {
            let name = self.entries[i].0.clone();
            let value = self.entries[i].1.copy();
            entries.push((name, value));
            assert(member_views(entries@) =~= member_views(self.entries@).take(i as int).push(
                (name@, value@),
            ));
            assert(member_views(entries@) =~= member_views(self.entries@).take(i + 1));
        }
        assert(member_views(entries@) =~= member_views(self.entries@));
        proof {
            use_type_invariant(self);
            self.object_view();
        }
        let copy = JsonObject { entries };
        proof {
            copy.object_view();
        }
        copy
    }
}

impl Clone for Json {
    fn clone(&self) -> (copy: Self)
        ensures
            copy@ == self@,
    {
        self.copy()
    }
}

impl Clone for JsonObject {
    fn clone(&self) -> (copy: Self)
        ensures
            copy@ == self@,
    {
        self.copy()
    }
}

/// The member `key` of an optional value.
pub fn field_of<'a>(value: Option<&'a Json>, key: &str) -> (found: Option<&'a Json>)
    ensures
        seen(found) == field(seen(value), key@),
{
    match value {
        Some(v) => v.get(key),
        None => None,
    }
}

/// The text that an optional value is.
pub fn text_of_value<'a>(value: Option<&'a Json>) -> (found: Option<&'a str>)
    ensures
        seen_text(found) == text_in(seen(value)),
{
    match value {
        Some(v) => v.as_str(),
        None => None,
    }
}

/// The items that an optional value holds.
pub fn items_of_value<'a>(value: Option<&'a Json>) -> (found: Option<&'a Vec<Json>>)
    ensures
        match found {
            Some(items) => items_in(seen(value)) == Some(views(items@)),
            None => items_in(seen(value)) is None,
        },
{
    match value {
        Some(v) => v.as_array(),
        None => None,
    }
}

/// The unsigned integer that an optional value is.
pub fn unsigned_of_value(value: Option<&Json>) -> (found: Option<u64>)
    ensures
        found == unsigned_in(seen(value)),
{
    match value {
        Some(v) => v.as_u64(),
        None => None,
    }
}

// ── between text and the tree ───────────────────────────────────────────────

proof fn object_of_is_finite(members: Seq<(Seq<char>, JsonView)>)
    ensures
        object_of(members).dom().finite(),
    decreases members.len(),
{
    if members.len() > 0 {
        object_of_is_finite(members.drop_last());
    }
}

fn from_number(number: serde_json::Number) -> (json: Json)
    ensures
        json@ == number_of(number),
{
    let signed: Option<i64> = number.as_i64();
    match number.as_u64() {
        Some(n) => Json::Unsigned(n),
        None => match signed {
            Some(n) => Json::Signed(n),
            None => Json::Real(Real { number }),
        },
    }
}

fn from_value(value: serde_json::Value) -> (json: Json)
    ensures
        json@ == value_of(value),
    decreases value_of(value),
{
    broadcast use array_view;

    match open_value(value) {
        Opened::Null => Json::Null,
        Opened::Bool(b) => Json::Bool(b),
        Opened::Number(n) => from_number(n),
        Opened::Str(s) => Json::Str(s),
        Opened::Array(items) => {
            let ghost all = items@.map_values(|v| value_of(v));
            let mut list: Vec<Json> = Vec::new();
            for item in it: items
                invariant
                    value_of(value) == JsonView::Array(all),
                    all == it.seq().map_values(|v| value_of(v)),
                    views(list@) == all.take(it.index() as int),
            {
                assert(all[it.index() as int] == value_of(item));
                assert(decreases_to!(all => all[it.index() as int]));
                assert(decreases_to!(value_of(value)->Array_0 => all[it.index() as int]));
                let json = from_value(item);
                list.push(json);
                assert(views(list@) =~= all.take(it.index() as int).push(json@));
                assert(views(list@) =~= all.take(it.index() + 1));
            }
            assert(views(list@) =~= all);
            Json::Array(list)
        },
        Opened::Object(members) => {
            let ghost all = opened_members(members@);
            let mut entries: Vec<(String, Json)> = Vec::new();
            for member in it: members
                invariant
                    value_of(value) == JsonView::Object(object_of(all)),
                    ascending(all),
                    all == opened_members(it.seq()),
                    member_views(entries@) == all.take(it.index() as int),
            {
                assert(all[it.index() as int] == (member.0@, value_of(member.1)));
                proof {
                    object_of_ascending(all);
                    object_of_is_finite(all);
                    assert(object_of(all).contains_key(member.0@));
                    assert(object_of(all)[member.0@] == value_of(member.1));
                }
                let (name, inner) = member;
                assert(decreases_to!(object_of(all) => object_of(all)[name@]));
                assert(decreases_to!(value_of(value)->Object_0 => object_of(all)[name@]));
                let json = from_value(inner);
                entries.push((name, json));
                assert(member_views(entries@) =~= all.take(it.index() as int).push(
                    (name@, json@),
                ));
                assert(member_views(entries@) =~= all.take(it.index() + 1));
            }
            assert(member_views(entries@) =~= all);
            let object = JsonObject { entries };
            proof {
                object.object_view();
            }
            Json::Object(object)
        },
    }
}

fn to_value(json: &Json) -> (value: serde_json::Value)
    ensures
        value_of(value) == json@,
    decreases json,
{
    broadcast use array_view;

    match json {
        Json::Null => close_value(Opened::Null),
        Json::Bool(b) => close_value(Opened::Bool(*b)),
        Json::Unsigned(n) => close_value(Opened::Number(number_from_u64(*n))),
        Json::Signed(n) => close_value(Opened::Number(number_from_i64(*n))),
        Json::Real(r) => {
            proof {
                use_type_invariant(r);
            }
            close_value(Opened::Number(copy_number(&r.number)))
        },
        Json::Str(s) => close_value(Opened::Str(s.clone())),
        Json::Array(items) => close_value(Opened::Array(to_values(items))),
        Json::Object(object) => {
            let members = to_members(object);
            proof {
                use_type_invariant(object);
                object.object_view();
            }
            close_value(Opened::Object(members))
        },
    }
}

fn to_values(items: &Vec<Json>) -> (values: Vec<serde_json::Value>)
    ensures
        values@.map_values(|v| value_of(v)) == views(items@),
    decreases items,
{
    let mut values: Vec<serde_json::Value> = Vec::new();
    for i in 0..items.len()
        invariant
            values@.map_values(|v| value_of(v)) == views(items@).take(i as int),
    {
        let value = to_value(&items[i]);
        values.push(value);
        assert(values@.map_values(|v| value_of(v)) =~= views(items@).take(i as int).push(
            value_of(value),
        ));
        assert(values@.map_values(|v| value_of(v)) =~= views(items@).take(i + 1));
    }
    assert(values@.map_values(|v| value_of(v)) =~= views(items@));
    values
}

fn to_members(object: &JsonObject) -> (members: Vec<(String, serde_json::Value)>)
    ensures
        opened_members(members@) == member_views(object.entries@),
    decreases object,
{
    let mut members: Vec<(String, serde_json::Value)> = Vec::new();
    for i in 0..object.entries.len()
        invariant
            opened_members(members@) == member_views(object.entries@).take(i as int),
    {
        let name = object.entries[i].0.clone();
        let value = to_value(&object.entries[i].1);
        members.push((name, value));
        assert(opened_members(members@) =~= member_views(object.entries@).take(i as int).push(
            (name@, value_of(value)),
        ));
        assert(opened_members(members@) =~= member_views(object.entries@).take(i + 1));
    }
    assert(opened_members(members@) =~= member_views(object.entries@));
    members
}

/// Reads the one JSON value that a text holds.
pub fn parse(text: &str) -> (json: Option<Json>)
    ensures
        seen_json(json) == json_of(text@),
{
    match parse_value(text) {
        Some(value) => Some(from_value(value)),
        None => None,
    }
}

/// Reads the JSON value that a text starts with, ignoring what follows it.
pub fn parse_leading(text: &str) -> (json: Option<Json>)
    ensures
        seen_json(json) == leading_json_of(text@),
{
    match parse_leading_value(text) {
        Some(value) => Some(from_value(value)),
        None => None,
    }
}

/// The number that a text holds when it is read as a float.
pub fn parse_float(text: &str) -> (json: Option<Json>)
    ensures
        seen_json(json) == float_of(text@),
        json matches Some(number) ==> number@ is Real,
{
    match number_from_float_text(text) {
        Some(number) => Some(Json::Real(Real { number })),
        None => None,
    }
}

/// Writes a value as compact JSON text.
pub fn render(json: &Json) -> (text: String)
    ensures
        text@ == json_text(json@),
        is_one_line(text@),
        json@ is Object ==> text@[0] == '{',
        reads_back(json@) ==> json_of(text@) == Some(json@),
        is_sound(json@, 100) ==> is_read_as(text@, json@),
{
    render_value(&to_value(json))
}

/// Writes a value as indented JSON text.
pub fn render_pretty(json: &Json) -> (text: String)
    ensures
        text@ == pretty_text(json@),
        reads_back(json@) ==> json_of(text@) == Some(json@),
        forall|depth: nat| #[trigger] names_once(text@, depth),
{
    render_value_pretty(&to_value(json))
}

/// An optional owned value by its view.
pub open spec fn seen_json(value: Option<Json>) -> Option<JsonView> {
    match value {
        Some(j) => Some(j@),
        None => None,
    }
}

} // verus!
