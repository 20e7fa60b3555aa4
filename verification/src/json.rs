//! JSON values as the server reads and writes them, and the calls into `serde_json`.

use serde_json::{Number, Value};
use vstd::prelude::*;

verus! {

broadcast use vstd::string::group_string_axioms;

/// `serde_json::Value`: one JSON value.
#[verifier::external_type_specification]
#[verifier::external_body]
pub struct ExValue(serde_json::Value);

/// `serde_json::Number`: one JSON number.
#[verifier::external_type_specification]
#[verifier::external_body]
pub struct ExNumber(serde_json::Number);

/// What a JSON value is.
#[verifier::ext_equal]
pub enum JsonView {
    Null,
    Bool(bool),
    Number(Number),
    String(Seq<char>),
    Array(Seq<JsonView>),
    Object(Map<Seq<char>, JsonView>),
}

/// A JSON value. Of two members with one name the later one counts.
#[derive(Debug)]
pub enum Json {
    Null,
    Bool(bool),
    Number(Number),
    String(String),
    Array(Vec<Json>),
    Object(Vec<(String, Json)>),
}

/// One level of a `serde_json` value.
enum Node {
    Null,
    Bool(bool),
    Number(Number),
    String(String),
    Array(Vec<Value>),
    Object(Vec<(String, Value)>),
}

/// What the `serde_json` value holds.
pub uninterp spec fn value_view(value: Value) -> JsonView;

/// The members that `pairs` leaves when each pair is put in, in order.
pub open spec fn members_of(pairs: Seq<(Seq<char>, JsonView)>) -> Map<Seq<char>, JsonView>
    decreases pairs.len(),
{
    if pairs.len() == 0 {
        Map::empty()
    } else {
        members_of(pairs.drop_last()).insert(pairs.last().0, pairs.last().1)
    }
}

/// The names of the members and what their values hold.
spec fn value_pairs(members: Seq<(String, Value)>) -> Seq<(Seq<char>, JsonView)> {
    members.map_values(|m: (String, Value)| (m.0@, value_view(m.1)))
}

/// What the level holds.
spec fn node_view(node: Node) -> JsonView {
    match node {
        Node::Null => JsonView::Null,
        Node::Bool(b) => JsonView::Bool(b),
        Node::Number(n) => JsonView::Number(n),
        Node::String(s) => JsonView::String(s@),
        Node::Array(items) => JsonView::Array(items@.map_values(|item: Value| value_view(item))),
        Node::Object(members) => JsonView::Object(members_of(value_pairs(members@))),
    }
}

impl View for Json {
    type V = JsonView;

    open spec fn view(&self) -> JsonView {
        json_view(*self)
    }
}

/// What the value is.
pub open spec fn json_view(json: Json) -> JsonView
    decreases json,
{
    match json {
        Json::Null => JsonView::Null,
        Json::Bool(b) => JsonView::Bool(b),
        Json::Number(n) => JsonView::Number(n),
        Json::String(s) => JsonView::String(s@),
        Json::Array(items) => JsonView::Array(item_views(items@)),
        Json::Object(members) => JsonView::Object(members_of(member_views(members@))),
    }
}

/// What the items are.
pub open spec fn item_views(items: Seq<Json>) -> Seq<JsonView>
    decreases items,
{
    Seq::new(
        items.len(),
        |i: int|
            if 0 <= i < items.len() {
                json_view(items[i])
            } else {
                JsonView::Null
            },
    )
}

/// The members' names and what they are.
pub open spec fn member_views(members: Seq<(String, Json)>) -> Seq<(Seq<char>, JsonView)>
    decreases members,
{
    Seq::new(
        members.len(),
        |i: int|
            if 0 <= i < members.len() {
                (members[i].0@, json_view(members[i].1))
            } else {
                (seq![], JsonView::Null)
            },
    )
}

/// Takes one level of a `serde_json` value apart.
///
/// The variants of `serde_json::Value`, and `serde_json::Map::into_iter` for an object. What the
/// level holds is what the value holds, and the map gives each name once.
#[verifier::external_body]
fn open_value(value: Value) -> (node: Node)
    ensures
        node_view(node) == value_view(value),
        node matches Node::Object(members) ==> forall|i: int, j: int|
            0 <= i < j < members@.len() ==> members@[i].0@ != members@[j].0@,
{
    match value {
        Value::Null => Node::Null,
        Value::Bool(b) => Node::Bool(b),
        Value::Number(n) => Node::Number(n),
        Value::String(s) => Node::String(s),
        Value::Array(items) => Node::Array(items),
        Value::Object(members) => Node::Object(members.into_iter().collect()),
    }
}

/// Puts one level of a `serde_json` value together.
///
/// The variants of `serde_json::Value`, and `serde_json::Map::from_iter` for an object. The value
/// holds what the level holds, where no two members have one name.
#[verifier::external_body]
fn close_value(node: Node) -> (value: Value)
    requires
        node matches Node::Object(members) ==> forall|i: int, j: int|
            0 <= i < j < members@.len() ==> members@[i].0@ != members@[j].0@,
    ensures
        value_view(value) == node_view(node),
{
    match node {
        Node::Null => Value::Null,
        Node::Bool(b) => Value::Bool(b),
        Node::Number(n) => Value::Number(n),
        Node::String(s) => Value::String(s),
        Node::Array(items) => Value::Array(items),
        Node::Object(members) => Value::Object(members.into_iter().collect()),
    }
}

/// Where no name occurs twice, each pair is a member.
proof fn members_of_distinct(pairs: Seq<(Seq<char>, JsonView)>, i: int)
    requires
        0 <= i < pairs.len(),
        forall|a: int, b: int|
            0 <= a < b < pairs.len() ==> (#[trigger] pairs[a]).0 != (#[trigger] pairs[b]).0,
    ensures
        members_of(pairs).dom().finite(),
        members_of(pairs).contains_key(pairs[i].0),
        members_of(pairs)[pairs[i].0] == pairs[i].1,
    decreases pairs.len(),
{
    let rest = pairs.drop_last();
    if rest.len() == 0 {
        assert(members_of(rest) =~= Map::empty());
    } else {
        assert(forall|a: int, b: int|
            0 <= a < b < rest.len() ==> rest[a] == pairs[a] && rest[b] == pairs[b]);
        if i < rest.len() {
            assert(pairs[i].0 != pairs[pairs.len() - 1].0);
            members_of_distinct(rest, i);
        } else {
            members_of_distinct(rest, 0);
        }
    }
}

/// Where no name occurs twice, to put another value in place of a member's own is to put the
/// member in once more.
proof fn members_of_update(pairs: Seq<(Seq<char>, JsonView)>, i: int, value: JsonView)
    requires
        0 <= i < pairs.len(),
        forall|a: int, b: int|
            0 <= a < b < pairs.len() ==> (#[trigger] pairs[a]).0 != (#[trigger] pairs[b]).0,
    ensures
        members_of(pairs.update(i, (pairs[i].0, value))) == members_of(pairs).insert(
            pairs[i].0,
            value,
        ),
    decreases pairs.len(),
{
    let rest = pairs.drop_last();
    let updated = pairs.update(i, (pairs[i].0, value));
    if i < rest.len() {
        assert(forall|a: int, b: int|
            0 <= a < b < rest.len() ==> rest[a] == pairs[a] && rest[b] == pairs[b]);
        members_of_update(rest, i, value);
        assert(updated.drop_last() =~= rest.update(i, (rest[i].0, value)));
        assert(pairs[i].0 != pairs[pairs.len() - 1].0);
    } else {
        assert(updated.drop_last() =~= rest);
    }
    assert(members_of(updated) =~= members_of(pairs).insert(pairs[i].0, value));
}

/// Puts a member in, in place of one that has its name already.
fn put_member(members: &mut Vec<(String, Value)>, name: String, value: Value)
    requires
        forall|i: int, j: int|
            0 <= i < j < old(members)@.len() ==> old(members)@[i].0@ != old(members)@[j].0@,
    ensures
        forall|i: int, j: int|
            0 <= i < j < final(members)@.len() ==> final(members)@[i].0@ != final(members)@[j].0@,
        members_of(value_pairs(final(members)@)) == members_of(
            value_pairs(old(members)@),
        ).insert(name@, value_view(value)),
{
    let ghost pairs = value_pairs(members@);
    let mut i: usize = 0;
    while i < members.len()
        invariant
            i <= members.len(),
            members@ == old(members)@,
            pairs == value_pairs(members@),
            forall|a: int, b: int|
                0 <= a < b < members@.len() ==> members@[a].0@ != members@[b].0@,
            forall|j: int| 0 <= j < i ==> (#[trigger] members@[j]).0@ != name@,
        decreases members.len() - i,
    {
        if members[i].0 == name {
            proof {
                members_of_update(pairs, i as int, value_view(value));
            }
            members.set(i, (name, value));
            assert(value_pairs(members@) =~= pairs.update(
                i as int,
                (pairs[i as int].0, value_view(value)),
            ));
            return;
        }
        i = i + 1;
    }
    members.push((name, value));
    assert(value_pairs(members@).drop_last() =~= pairs);
}

/// Turns a `serde_json` value into one of the library's.
fn decode(value: Value) -> (json: Json)
    ensures
        json@ == value_view(value),
    decreases value_view(value),
{
    let ghost whole = value_view(value);
    match open_value(value) {
        Node::Null => Json::Null,
        Node::Bool(b) => Json::Bool(b),
        Node::Number(n) => Json::Number(n),
        Node::String(s) => Json::String(s),
        Node::Array(items) => {
            let ghost held = items@;
            let mut out: Vec<Json> = Vec::new();
            for item in it: items
                invariant
                    it.seq() == held,
                    whole == value_view(value),
                    whole == JsonView::Array(held.map_values(|v: Value| value_view(v))),
                    out@.len() == it.index(),
                    forall|j: int| 0 <= j < out@.len() ==> (#[trigger] out@[j])@ == value_view(held[j]),
            {
                proof {
                    let views = held.map_values(|v: Value| value_view(v));
                    assert(views[it.index() as int] == value_view(item));
                    assert(decreases_to!(whole => whole->Array_0));
                    assert(decreases_to!(views => views[it.index() as int]));
                }
                out.push(decode(item));
            }
            assert(item_views(out@) =~= whole->Array_0);
            Json::Array(out)
        },
        Node::Object(members) => {
            let ghost held = members@;
            let ghost pairs = value_pairs(held);
            let mut out: Vec<(String, Json)> = Vec::new();
            for member in it: members
                invariant
                    it.seq() == held,
                    whole == value_view(value),
                    pairs == value_pairs(held),
                    whole == JsonView::Object(members_of(pairs)),
                    forall|i: int, j: int|
                        0 <= i < j < held.len() ==> (#[trigger] held[i]).0@ != (#[trigger] held[j]).0@,
                    out@.len() == it.index(),
                    forall|j: int|
                        0 <= j < out@.len() ==> (#[trigger] out@[j]).0@ == held[j].0@ && out@[j].1@
                            == value_view(held[j].1),
            {
                let (name, inner) = member;
                proof {
                    let i = it.index() as int;
                    members_of_distinct(pairs, i);
                    assert(pairs[i] == (name@, value_view(inner)));
                    let map = members_of(pairs);
                    assert(decreases_to!(whole => whole->Object_0));
                    assert(decreases_to!(map => map[pairs[i].0]));
                }
                out.push((name, decode(inner)));
            }
            assert(member_views(out@) =~= pairs);
            Json::Object(out)
        },
    }
}

/// Copies a number.
///
/// `serde_json::Number::clone`, which is derived: the copy is the same number.
#[verifier::external_body]
fn copy_number(number: &Number) -> (copy: Number)
    ensures
        copy == *number,
{
    number.clone()
}

/// Turns one of the library's values into a `serde_json` value.
fn encode(json: &Json) -> (value: Value)
    ensures
        value_view(value) == json@,
    decreases json,
{
    match json {
        Json::Null => close_value(Node::Null),
        Json::Bool(b) => close_value(Node::Bool(*b)),
        Json::Number(n) => close_value(Node::Number(copy_number(n))),
        Json::String(s) => close_value(Node::String(s.clone())),
        Json::Array(items) => {
            let mut out: Vec<Value> = Vec::new();
            let mut i: usize = 0;
            while i < items.len()
                invariant
                    i <= items.len(),
                    *json == Json::Array(*items),
                    out@.len() == i,
                    forall|j: int| 0 <= j < i ==> value_view(#[trigger] out@[j]) == items@[j]@,
                decreases items.len() - i,
            {
                assert(decreases_to!(*json => json->Array_0));
                assert(decreases_to!(*items => items@));
                assert(decreases_to!(items@ => items@[i as int]));
                out.push(encode(&items[i]));
                i = i + 1;
            }
            assert(out@.map_values(|v: Value| value_view(v)) =~= item_views(items@));
            close_value(Node::Array(out))
        },
        Json::Object(members) => {
            let mut out: Vec<(String, Value)> = Vec::new();
            let ghost pairs = member_views(members@);
            let mut i: usize = 0;
            assert(value_pairs(out@) =~= pairs.take(0));
            while i < members.len()
                invariant
                    i <= members.len(),
                    *json == Json::Object(*members),
                    pairs == member_views(members@),
                    forall|a: int, b: int|
                        0 <= a < b < out@.len() ==> out@[a].0@ != out@[b].0@,
                    members_of(value_pairs(out@)) == members_of(pairs.take(i as int)),
                decreases members.len() - i,
            {
                assert(decreases_to!(*json => json->Object_0));
                assert(decreases_to!(*members => members@));
                assert(decreases_to!(members@ => members@[i as int]));
                assert(decreases_to!(members@[i as int] => members@[i as int].1));
                put_member(&mut out, members[i].0.clone(), encode(&members[i].1));
                assert(pairs.take(i + 1).drop_last() =~= pairs.take(i as int));
                i = i + 1;
            }
            assert(pairs.take(i as int) =~= pairs);
            close_value(Node::Object(out))
        },
    }
}

/// Copies a value.
fn copy_json(json: &Json) -> (copy: Json)
    ensures
        copy@ == json@,
    decreases json,
{
    match json {
        Json::Null => Json::Null,
        Json::Bool(b) => Json::Bool(*b),
        Json::Number(n) => Json::Number(copy_number(n)),
        Json::String(s) => Json::String(s.clone()),
        Json::Array(items) => {
            let mut out: Vec<Json> = Vec::new();
            let mut i: usize = 0;
            while i < items.len()
                invariant
                    i <= items.len(),
                    *json == Json::Array(*items),
                    out@.len() == i,
                    forall|j: int| 0 <= j < i ==> (#[trigger] out@[j])@ == items@[j]@,
                decreases items.len() - i,
            {
                assert(decreases_to!(*json => json->Array_0));
                assert(decreases_to!(*items => items@));
                assert(decreases_to!(items@ => items@[i as int]));
                out.push(copy_json(&items[i]));
                i = i + 1;
            }
            assert(item_views(out@) =~= item_views(items@));
            Json::Array(out)
        },
        Json::Object(members) => {
            let mut out: Vec<(String, Json)> = Vec::new();
            let mut i: usize = 0;
            while i < members.len()
                invariant
                    i <= members.len(),
                    *json == Json::Object(*members),
                    out@.len() == i,
                    forall|j: int|
                        0 <= j < i ==> (#[trigger] out@[j]).0@ == members@[j].0@ && out@[j].1@
                            == members@[j].1@,
                decreases members.len() - i,
            {
                assert(decreases_to!(*json => json->Object_0));
                assert(decreases_to!(*members => members@));
                assert(decreases_to!(members@ => members@[i as int]));
                assert(decreases_to!(members@[i as int] => members@[i as int].1));
                out.push((members[i].0.clone(), copy_json(&members[i].1)));
                i = i + 1;
            }
            assert(member_views(out@) =~= member_views(members@));
            Json::Object(out)
        },
    }
}

impl Clone for Json {
    fn clone(&self) -> (copy: Self)
        ensures
            copy@ == self@,
    {
        copy_json(self)
    }
}

/// What `serde_json::from_str` makes of a text: the value that it writes, or what is wrong with it.
pub uninterp spec fn parsed_json(text: Seq<char>) -> Result<JsonView, Seq<char>>;

/// Reads a JSON text.
///
/// `serde_json::from_str`. The value that it gives, or else the message of its error, depends on
/// the text alone.
#[verifier::external_body]
fn value_from_str(text: &str) -> (value: Result<Value, String>)
    ensures
        match value {
            Ok(v) => parsed_json(text@) == Ok::<JsonView, Seq<char>>(value_view(v)),
            Err(message) => parsed_json(text@) == Err::<JsonView, Seq<char>>(message@),
        },
{
    serde_json::from_str(text).map_err(|e| e.to_string())
}

/// The text that `serde_json::to_string_pretty` writes a value as, where it can.
pub uninterp spec fn pretty_json(json: JsonView) -> Option<Seq<char>>;

/// Writes a value over several lines, indented.
///
/// `serde_json::to_string_pretty`. Its text, and whether there is one, depends on the value alone:
/// the map of an object is sorted, so its members come in the order of their names.
#[verifier::external_body]
fn value_to_string_pretty(value: &Value) -> (text: Option<String>)
    ensures
        match text {
            Some(t) => pretty_json(value_view(*value)) == Some(t@),
            None => pretty_json(value_view(*value)) is None,
        },
{
    serde_json::to_string_pretty(value).ok()
}

/// The text that `serde_json` displays a value as.
pub uninterp spec fn compact_json(json: JsonView) -> Seq<char>;

/// Writes a value on one line.
///
/// `Value::to_string`, through `Display`. The text depends on the value alone: the map of an object
/// is sorted, so its members come in the order of their names. No line feed stands in it: nothing is
/// written between the tokens, and one inside a string is written as an escape.
#[verifier::external_body]
fn value_to_string(value: &Value) -> (text: String)
    ensures
        text@ == compact_json(value_view(*value)),
        !text@.contains('\n'),
{
    value.to_string()
}

/// The number that `serde_json` makes of an unsigned integer.
pub uninterp spec fn unsigned_number(n: u64) -> Number;

/// Makes a number of an unsigned integer.
///
/// `serde_json::Number::from::<u64>`. The number depends on the integer alone.
#[verifier::external_body]
fn number_from(n: u64) -> (number: Number)
    ensures
        number == unsigned_number(n),
{
    Number::from(n)
}

/// Reads a JSON text, or says what is wrong with it.
pub fn parse(text: &str) -> (json: Result<Json, String>)
    ensures
        match json {
            Ok(j) => parsed_json(text@) == Ok::<JsonView, Seq<char>>(j@),
            Err(message) => parsed_json(text@) == Err::<JsonView, Seq<char>>(message@),
        },
{
    match value_from_str(text) {
        Ok(value) => Ok(decode(value)),
        Err(message) => Err(message),
    }
}

impl Json {
    /// The object without members.
    pub fn empty_object() -> (json: Json)
        ensures
            json@ == JsonView::Object(Map::empty()),
    {
        let json = Json::Object(Vec::new());
        assert(members_of(member_views(json->Object_0@)) =~= Map::empty());
        json
    }

    /// The number `n`.
    pub fn unsigned(n: u64) -> (json: Json)
        ensures
            json@ == JsonView::Number(unsigned_number(n)),
    {
        Json::Number(number_from(n))
    }

    /// The value on one line.
    pub fn to_compact(&self) -> (text: String)
        ensures
            text@ == compact_json(self@),
            !text@.contains('\n'),
    {
        value_to_string(&encode(self))
    }

    /// The value over several lines, indented, where it can be written so.
    pub fn to_pretty(&self) -> (text: Option<String>)
        ensures
            match text {
                Some(t) => pretty_json(self@) == Some(t@),
                None => pretty_json(self@) is None,
            },
    {
        value_to_string_pretty(&encode(self))
    }

    /// The member called `name`, where the value is an object that has one.
    pub fn get(&self, name: &str) -> (member: Option<&Json>)
        ensures
            match member {
                Some(m) => self@.member(name@) == Some(m@),
                None => self@.member(name@) is None,
            },
    {
        match self {
            Json::Object(members) => {
                let wanted = name.to_owned();
                let mut i: usize = members.len();
                let ghost pairs = member_views(members@);
                assert(pairs.take(pairs.len() as int) =~= pairs);
                while i > 0
                    invariant
                        i <= members.len(),
                        *self == Json::Object(*members),
                        wanted@ == name@,
                        pairs == member_views(members@),
                        self@.member(name@) == JsonView::Object(
                            members_of(pairs.take(i as int)),
                        ).member(name@),
                    decreases i,
                {
                    assert(pairs.take(i as int).drop_last() =~= pairs.take(i - 1));
                    i = i - 1;
                    if members[i].0 == wanted {
                        return Some(&members[i].1);
                    }
                }
                assert(members_of(pairs.take(0)) =~= Map::empty());
                None
            },
            _ => None,
        }
    }

    /// The text, where the value is a string.
    pub fn as_str(&self) -> (text: Option<&str>)
        ensures
            match text {
                Some(t) => self@ == JsonView::String(t@),
                None => !(self@ is String),
            },
    {
        match self {
            Json::String(s) => Some(s.as_str()),
            _ => None,
        }
    }

    /// The truth value, where the value is one.
    pub fn as_bool(&self) -> (truth: Option<bool>)
        ensures
            match truth {
                Some(b) => self@ == JsonView::Bool(b),
                None => !(self@ is Bool),
            },
    {
        match self {
            Json::Bool(b) => Some(*b),
            _ => None,
        }
    }

    /// Whether the value is an array without items.
    pub fn is_empty_array(&self) -> (yes: bool)
        ensures
            yes == (self@ matches JsonView::Array(items) && items.len() == 0),
    {
        match self {
            Json::Array(items) => items.len() == 0,
            _ => false,
        }
    }
}

impl JsonView {
    /// The member called `name`, where the value is an object that has one.
    pub open spec fn member(self, name: Seq<char>) -> Option<JsonView> {
        match self {
            JsonView::Object(members) => if members.contains_key(name) {
                Some(members[name])
            } else {
                None
            },
            _ => None,
        }
    }

    /// The text, where the value is a string.
    pub open spec fn text(self) -> Option<Seq<char>> {
        match self {
            JsonView::String(s) => Some(s),
            _ => None,
        }
    }

    /// The text of the member called `name`, where there is such a member and it is a string.
    pub open spec fn member_text(self, name: Seq<char>) -> Option<Seq<char>> {
        match self.member(name) {
            Some(m) => m.text(),
            None => None,
        }
    }
}

/// Each kind of value is what it says: a truth value, a number and a text as they stand, and an
/// array item by item.
pub proof fn values_are_what_they_say(b: bool, n: Number, s: String, items: Vec<Json>)
    ensures
        Json::Null@ is Null,
        Json::Bool(b)@ == JsonView::Bool(b),
        Json::Number(n)@ == JsonView::Number(n),
        Json::String(s)@ == JsonView::String(s@),
        Json::Array(items)@ is Array,
        Json::Array(items)@->Array_0.len() == items@.len(),
        forall|i: int|
            0 <= i < items@.len() ==> #[trigger] Json::Array(items)@->Array_0[i] == items@[i]@,
{
}

proof fn members_of_is_the_latest(pairs: Seq<(Seq<char>, JsonView)>, name: Seq<char>)
    ensures
        members_of(pairs).contains_key(name) ==> exists|i: int|
            0 <= i < pairs.len() && (#[trigger] pairs[i]).0 == name && pairs[i].1 == members_of(
                pairs,
            )[name] && forall|j: int| i < j < pairs.len() ==> (#[trigger] pairs[j]).0 != name,
        !members_of(pairs).contains_key(name) ==> forall|i: int|
            0 <= i < pairs.len() ==> (#[trigger] pairs[i]).0 != name,
    decreases pairs.len(),
{
    if pairs.len() > 0 {
        let rest = pairs.drop_last();
        members_of_is_the_latest(rest, name);
        let last = pairs.len() - 1;
        assert(pairs[last] == pairs.last());
        if pairs.last().0 == name {
            assert(members_of(pairs).contains_key(name));
        } else if members_of(rest).contains_key(name) {
            let i = choose|i: int|
                0 <= i < rest.len() && (#[trigger] rest[i]).0 == name && rest[i].1 == members_of(
                    rest,
                )[name] && forall|j: int| i < j < rest.len() ==> (#[trigger] rest[j]).0 != name;
            assert(pairs[i] == rest[i]);
            assert forall|j: int| i < j < pairs.len() implies (#[trigger] pairs[j]).0 != name by {
                if j < last {
                    assert(rest[j] == pairs[j]);
                }
            }
        } else {
            assert forall|j: int| 0 <= j < pairs.len() implies (#[trigger] pairs[j]).0 != name by {
                if j < last {
                    assert(rest[j] == pairs[j]);
                }
            }
        }
    }
}

/// A member of an object is the last one of its name among the pairs that the object is made of;
/// where no pair has the name there is none.
pub proof fn the_last_of_a_name_counts(members: Vec<(String, Json)>, name: Seq<char>)
    ensures
        match Json::Object(members)@.member(name) {
            Some(v) => exists|i: int|
                0 <= i < members@.len() && (#[trigger] members@[i]).0@ == name && members@[i].1@ == v
                    && forall|j: int|
                    i < j < members@.len() ==> (#[trigger] members@[j]).0@ != name,
            None => forall|i: int|
                0 <= i < members@.len() ==> (#[trigger] members@[i]).0@ != name,
        },
{
    let pairs = member_views(members@);
    members_of_is_the_latest(pairs, name);
    assert(forall|i: int|
        0 <= i < members@.len() ==> #[trigger] pairs[i] == (members@[i].0@, members@[i].1@));
    if members_of(pairs).contains_key(name) {
        let i = choose|i: int|
            0 <= i < pairs.len() && (#[trigger] pairs[i]).0 == name && pairs[i].1 == members_of(
                pairs,
            )[name] && forall|j: int| i < j < pairs.len() ==> (#[trigger] pairs[j]).0 != name;
        assert(members@[i].0@ == name);
        assert forall|j: int| i < j < members@.len() implies (#[trigger] members@[j]).0@ != name by {
            assert(pairs[j].0 != name);
        }
    } else {
        assert forall|j: int| 0 <= j < members@.len() implies (#[trigger] members@[j]).0@ != name by {
            assert(pairs[j].0 != name);
        }
    }
}

/// Only an object has members, and only a string is a text.
pub proof fn members_and_texts(v: JsonView, name: Seq<char>, inner: JsonView, text: Seq<char>)
    ensures
        v.member(name) == Some(inner) <==> (v matches JsonView::Object(members)
            && members.contains_key(name) && members[name] == inner),
        v.text() == Some(text) <==> v == JsonView::String(text),
        v.member_text(name) == Some(text) <==> v.member(name) == Some(JsonView::String(text)),
{
}

} // verus!
