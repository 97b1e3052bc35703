use vstd::prelude::*;
use crate::rules::RuleError;
use serde_json::Value;

verus! {

/// A JSON number as the JSON parser holds it.
#[derive(Clone, Debug)]
pub enum JsonNumber {
    /// A non-negative integer.
    PosInt(u64),
    /// A negative integer.
    NegInt(i64),
    /// Any other number, by its shortest decimal text.
    Float(String),
}

/// A JSON value. A parsed object holds its members in key order, each key
/// once (see `json_well_formed`).
#[derive(Debug)]
pub enum JsonValue {
    Null,
    Bool(bool),
    Number(JsonNumber),
    String(String),
    Array(Vec<JsonValue>),
    Object(Vec<(String, JsonValue)>),
}

/// The mathematical view of a JSON number.
pub enum NumberView {
    PosInt(u64),
    NegInt(i64),
    Float(Seq<char>),
}

/// The mathematical view of a JSON value.
pub enum JsonView {
    Null,
    Bool(bool),
    Number(NumberView),
    String(Seq<char>),
    Array(Seq<JsonView>),
    Object(Seq<(Seq<char>, JsonView)>),
}

/// The text of a float, with negative zero written as zero (the two are
/// equal numbers).
pub open spec fn float_text(text: Seq<char>) -> Seq<char> {
    if text == "-0.0"@ { "0.0"@ } else { text }
}

pub open spec fn number_view(n: JsonNumber) -> NumberView {
    match n {
        JsonNumber::PosInt(u) => NumberView::PosInt(u),
        JsonNumber::NegInt(i) => NumberView::NegInt(i),
        JsonNumber::Float(s) => NumberView::Float(float_text(s@)),
    }
}

/// The view of a JSON value: strings by their characters, recursively.
pub open spec fn json_view(v: JsonValue) -> JsonView
    decreases v, 0int,
{
    match v {
        JsonValue::Null => JsonView::Null,
        JsonValue::Bool(b) => JsonView::Bool(b),
        JsonValue::Number(n) => JsonView::Number(number_view(n)),
        JsonValue::String(s) => JsonView::String(s@),
        JsonValue::Array(items) => JsonView::Array(items_view(items@)),
        JsonValue::Object(members) => JsonView::Object(members_view(members@)),
    }
}

/// The views of a sequence of values.
pub open spec fn items_view(items: Seq<JsonValue>) -> Seq<JsonView>
    decreases items, 1int,
{
    if items.len() == 0 {
        Seq::empty()
    } else {
        seq![json_view(items[0])] + items_view(items.drop_first())
    }
}

/// The views of a sequence of object members.
pub open spec fn members_view(members: Seq<(String, JsonValue)>) -> Seq<(Seq<char>, JsonView)>
    decreases members, 1int,
{
    if members.len() == 0 {
        Seq::empty()
    } else {
        seq![(members[0].0@, json_view(members[0].1))] + members_view(members.drop_first())
    }
}


/// `a` comes before `b` in the order of keys: lexicographically, by characters.
pub open spec fn key_less(a: Seq<char>, b: Seq<char>) -> bool
    decreases a.len(),
{
    if a.len() == 0 {
        b.len() > 0
    } else if b.len() == 0 {
        false
    } else if a[0] != b[0] {
        (a[0] as u32) < (b[0] as u32)
    } else {
        key_less(a.drop_first(), b.drop_first())
    }
}

/// Every object in the value holds its members in strictly increasing key
/// order, as the JSON parser's ordered map gives them.
pub open spec fn json_well_formed(v: JsonView) -> bool
    decreases v, 0int,
{
    match v {
        JsonView::Array(items) => items_well_formed(items),
        JsonView::Object(members) => members_well_formed(members),
        _ => true,
    }
}

pub open spec fn items_well_formed(items: Seq<JsonView>) -> bool
    decreases items, 1int,
{
    items.len() == 0 || (json_well_formed(items[0]) && items_well_formed(items.drop_first()))
}

pub open spec fn members_well_formed(members: Seq<(Seq<char>, JsonView)>) -> bool
    decreases members, 1int,
{
    members.len() == 0 || {
        &&& json_well_formed(members[0].1)
        &&& members.len() > 1 ==> key_less(members[0].0, members[1].0)
        &&& members_well_formed(members.drop_first())
    }
}

proof fn lemma_key_less_irreflexive(a: Seq<char>)
    ensures
        !key_less(a, a),
    decreases a.len(),
{
    if a.len() > 0 {
        lemma_key_less_irreflexive(a.drop_first());
    }
}

proof fn lemma_key_less_transitive(a: Seq<char>, b: Seq<char>, c: Seq<char>)
    requires
        key_less(a, b),
        key_less(b, c),
    ensures
        key_less(a, c),
    decreases a.len(),
{
    if a.len() > 0 && b.len() > 0 && c.len() > 0 && a[0] == b[0] && b[0] == c[0] {
        lemma_key_less_transitive(a.drop_first(), b.drop_first(), c.drop_first());
    }
}

/// In a well-formed object, keys increase strictly along the members.
proof fn lemma_members_sorted(members: Seq<(Seq<char>, JsonView)>, i: int, j: int)
    requires
        members_well_formed(members),
        0 <= i < j < members.len(),
    ensures
        key_less(members[i].0, members[j].0),
    decreases members.len(),
{
    if i > 0 {
        lemma_members_sorted(members.drop_first(), i - 1, j - 1);
    } else if j > 1 {
        lemma_members_sorted(members.drop_first(), 0, j - 1);
        lemma_key_less_transitive(members[0].0, members[1].0, members[j].0);
    }
}

/// A well-formed object holds each key once, and looking a key up finds the
/// member that holds it.
pub proof fn lemma_well_formed_object_keys(members: Seq<(Seq<char>, JsonView)>, i: int)
    requires
        members_well_formed(members),
        0 <= i < members.len(),
    ensures
        forall|j: int| 0 <= j < members.len() && j != i ==> members[j].0 != members[i].0,
        member_view(members, members[i].0) == Some(members[i].1),
{
    assert forall|j: int| 0 <= j < members.len() && j != i implies members[j].0 != members[i].0 by {
        if j < i {
            lemma_members_sorted(members, j, i);
        } else {
            lemma_members_sorted(members, i, j);
        }
        lemma_key_less_irreflexive(members[i].0);
    }
    lemma_member_view_at(members, members[i].0, i);
}

/// When `i` is the only position holding `key`, looking `key` up finds it.
proof fn lemma_member_view_at(members: Seq<(Seq<char>, JsonView)>, key: Seq<char>, i: int)
    requires
        0 <= i < members.len(),
        members[i].0 == key,
        forall|j: int| 0 <= j < members.len() && j != i ==> members[j].0 != key,
    ensures
        member_view(members, key) == Some(members[i].1),
    decreases members.len(),
{
    if i > 0 {
        assert forall|j: int| 0 <= j < members.len() - 1 && j != i - 1 implies members.drop_first()[j].0
            != key by {
            assert(members.drop_first()[j] == members[j + 1]);
        }
        lemma_member_view_at(members.drop_first(), key, i - 1);
    }
}

#[verifier::external_type_specification]
#[verifier::external_body]
pub struct ExJsonValue(Value);

/// What `serde_json::from_slice` makes of the bytes, read as a JSON value:
/// the value, or the message of the error that the parser reports.
pub uninterp spec fn json_parse(bytes: Seq<u8>) -> Result<JsonView, Seq<char>>;

/// Turns a value of the JSON parser into the library's `JsonValue`, one for
/// one: a number by its integer when it is one, else by its decimal text; an
/// object's members in the order of the parser's map.
#[verifier::external_body]
fn json_from_parser(value: Value) -> JsonValue {
    match value {
        Value::Null => JsonValue::Null,
        Value::Bool(b) => JsonValue::Bool(b),
        Value::Number(n) => match (n.as_u64(), n.as_i64()) {
            (Some(u), _) => JsonValue::Number(JsonNumber::PosInt(u)),
            (None, Some(i)) => JsonValue::Number(JsonNumber::NegInt(i)),
            (None, None) => JsonValue::Number(JsonNumber::Float(n.to_string())),
        },
        Value::String(s) => JsonValue::String(s),
        Value::Array(items) => JsonValue::Array(items.into_iter().map(json_from_parser).collect()),
        Value::Object(members) => JsonValue::Object(members.into_iter().map(|(k, v)| (k, json_from_parser(v))).collect()),
    }
}

/// Calls `serde_json::from_slice` into a `serde_json::Value`, and converts
/// the result (`json_from_parser`) or the error's message. Claimed: the
/// result is `json_parse` of the bytes, and a parsed value is well-formed
/// (without the `preserve_order` feature, which nothing here turns on, an
/// object is a `BTreeMap` from `String`, walked in increasing key order).
/// The JSON grammar and the parser's messages are left unsaid.
#[verifier::external_body]
pub fn parse_json(bytes: &[u8]) -> (res: Result<JsonValue, String>)
    ensures
        res is Ok == json_parse(bytes@) is Ok,
        res matches Ok(v) ==> json_parse(bytes@)->Ok_0 == json_view(v) && json_well_formed(json_view(v)),
        res matches Err(message) ==> json_parse(bytes@)->Err_0 == message@,
{
    match serde_json::from_slice::<Value>(bytes) {
        Ok(value) => Ok(json_from_parser(value)),
        Err(e) => Err(e.to_string()),
    }
}

/// `items_view` maps each value to its view.
pub proof fn lemma_items_view(items: Seq<JsonValue>)
    ensures
        items_view(items).len() == items.len(),
        forall|i: int| 0 <= i < items.len() ==> #[trigger] items_view(items)[i] == json_view(items[i]),
    decreases items.len(),
{
    if items.len() > 0 {
        lemma_items_view(items.drop_first());
        assert forall|i: int| 0 <= i < items.len() implies #[trigger] items_view(items)[i] == json_view(
            items[i],
        ) by {
            if i > 0 {
                assert(items.drop_first()[i - 1] == items[i]);
            }
        }
    }
}

/// `members_view` maps each member to its key's characters and its value's view.
pub proof fn lemma_members_view(members: Seq<(String, JsonValue)>)
    ensures
        members_view(members).len() == members.len(),
        forall|i: int|
            0 <= i < members.len() ==> #[trigger] members_view(members)[i] == (
                members[i].0@,
                json_view(members[i].1),
            ),
    decreases members.len(),
{
    if members.len() > 0 {
        lemma_members_view(members.drop_first());
        assert forall|i: int| 0 <= i < members.len() implies #[trigger] members_view(members)[i] == (
            members[i].0@,
            json_view(members[i].1),
        ) by {
            if i > 0 {
                assert(members.drop_first()[i - 1] == members[i]);
            }
        }
    }
}

fn number_equal(a: &JsonNumber, b: &JsonNumber) -> (res: bool)
    ensures
        res == (number_view(*a) == number_view(*b)),
{
    match (a, b) {
        (JsonNumber::PosInt(x), JsonNumber::PosInt(y)) => *x == *y,
        (JsonNumber::NegInt(x), JsonNumber::NegInt(y)) => *x == *y,
        (JsonNumber::Float(x), JsonNumber::Float(y)) => {
            let zero = "0.0".to_string();
            let negative_zero = "-0.0".to_string();
            proof {
                reveal_strlit("0.0");
                reveal_strlit("-0.0");
                assert("0.0"@ != "-0.0"@) by {
                    assert("0.0"@.len() != "-0.0"@.len());
                }
            }
            let x_zero = *x == zero || *x == negative_zero;
            let y_zero = *y == zero || *y == negative_zero;
            *x == *y || (x_zero && y_zero)
        },
        _ => false,
    }
}

/// Whether two JSON values are equal: same kind, same scalars, equal
/// elements in the same order, equal members in the same order.
pub fn json_equal(a: &JsonValue, b: &JsonValue) -> (res: bool)
    ensures
        res == (json_view(*a) == json_view(*b)),
    decreases *a,
{
    match (a, b) {
        (JsonValue::Null, JsonValue::Null) => true,
        (JsonValue::Bool(x), JsonValue::Bool(y)) => *x == *y,
        (JsonValue::Number(x), JsonValue::Number(y)) => number_equal(x, y),
        (JsonValue::String(x), JsonValue::String(y)) => *x == *y,
        (JsonValue::Array(x), JsonValue::Array(y)) => {
            proof {
                lemma_items_view(x@);
                lemma_items_view(y@);
            }
            if x.len() != y.len() {
                return false;
            }
            let mut i: usize = 0;
            while i < x.len()
                invariant
                    *a == JsonValue::Array(*x),
                    *b == JsonValue::Array(*y),
                    i <= x@.len(),
                    x@.len() == y@.len(),
                    items_view(x@).len() == x@.len(),
                    items_view(y@).len() == y@.len(),
                    forall|k: int| 0 <= k < x@.len() ==> #[trigger] items_view(x@)[k] == json_view(x@[k]),
                    forall|k: int| 0 <= k < y@.len() ==> #[trigger] items_view(y@)[k] == json_view(y@[k]),
                    forall|k: int| 0 <= k < i ==> json_view(x@[k]) == json_view(y@[k]),
                decreases x.len() - i,
            {
                proof {
                    assert(decreases_to!(*a => (*a)->Array_0));
                    assert(decreases_to!(*x => x@));
                    assert(decreases_to!(x@ => x@[i as int]));
                    assert(decreases_to!(*a => x@[i as int]));
                }
                if !json_equal(&x[i], &y[i]) {
                    proof {
                        assert(items_view(x@)[i as int] != items_view(y@)[i as int]);
                    }
                    return false;
                }
                i = i + 1;
            }
            proof {
                assert(items_view(x@) =~= items_view(y@));
            }
            true
        },
        (JsonValue::Object(x), JsonValue::Object(y)) => {
            proof {
                lemma_members_view(x@);
                lemma_members_view(y@);
            }
            if x.len() != y.len() {
                return false;
            }
            let mut i: usize = 0;
            while i < x.len()
                invariant
                    *a == JsonValue::Object(*x),
                    *b == JsonValue::Object(*y),
                    i <= x@.len(),
                    x@.len() == y@.len(),
                    members_view(x@).len() == x@.len(),
                    members_view(y@).len() == y@.len(),
                    forall|k: int|
                        0 <= k < x@.len() ==> #[trigger] members_view(x@)[k] == (
                            x@[k].0@,
                            json_view(x@[k].1),
                        ),
                    forall|k: int|
                        0 <= k < y@.len() ==> #[trigger] members_view(y@)[k] == (
                            y@[k].0@,
                            json_view(y@[k].1),
                        ),
                    forall|k: int|
                        0 <= k < i ==> x@[k].0@ == y@[k].0@ && json_view(x@[k].1) == json_view(
                            y@[k].1,
                        ),
                decreases x.len() - i,
            {
                if x[i].0 != y[i].0 {
                    proof {
                        assert(members_view(x@)[i as int] != members_view(y@)[i as int]);
                    }
                    return false;
                }
                proof {
                    assert(decreases_to!(*a => (*a)->Object_0));
                    assert(decreases_to!(*x => x@));
                    assert(decreases_to!(x@ => x@[i as int]));
                    assert(decreases_to!(x@[i as int] => x@[i as int].1));
                    assert(decreases_to!(*a => x@[i as int].1));
                }
                if !json_equal(&x[i].1, &y[i].1) {
                    proof {
                        assert(members_view(x@)[i as int] != members_view(y@)[i as int]);
                    }
                    return false;
                }
                i = i + 1;
            }
            proof {
                assert(members_view(x@) =~= members_view(y@));
            }
            true
        },
        _ => false,
    }
}


/// One step of a query path: a member of an object, or an element of an array.
#[derive(Clone, Debug)]
pub enum ValueIndex {
    Key(String),
    Number(u64),
}

/// The view of a step of a query path.
pub enum IndexView {
    Key(Seq<char>),
    Number(u64),
}

pub open spec fn index_view(index: ValueIndex) -> IndexView {
    match index {
        ValueIndex::Key(k) => IndexView::Key(k@),
        ValueIndex::Number(n) => IndexView::Number(n),
    }
}

/// The view of a query path.
pub open spec fn path_view(gets: Seq<ValueIndex>) -> Seq<IndexView> {
    gets.map_values(|g: ValueIndex| index_view(g))
}

/// The value of the first member of `members` named `key`.
pub open spec fn member_view(members: Seq<(Seq<char>, JsonView)>, key: Seq<char>) -> Option<JsonView>
    decreases members.len(),
{
    if members.len() == 0 {
        None
    } else if members[0].0 == key {
        Some(members[0].1)
    } else {
        member_view(members.drop_first(), key)
    }
}

/// The member `key` of an object; `None` for a missing key or a value that
/// is not an object.
pub open spec fn value_at_key(value: JsonView, key: Seq<char>) -> Option<JsonView> {
    match value {
        JsonView::Object(members) => member_view(members, key),
        _ => None,
    }
}

/// The element at `index` of an array; `None` past its end or for a value
/// that is not an array.
pub open spec fn value_at_index(value: JsonView, index: u64) -> Option<JsonView> {
    match value {
        JsonView::Array(items) => if (index as usize) < items.len() {
            Some(items[(index as usize) as int])
        } else {
            None
        },
        _ => None,
    }
}

/// The value that the path `gets` leads to from `value`, or the error of the
/// first step that leads nowhere.
pub open spec fn path_value(value: JsonView, gets: Seq<IndexView>) -> Result<JsonView, RuleError>
    decreases gets.len(),
{
    if gets.len() == 0 {
        Ok(value)
    } else {
        match gets[0] {
            IndexView::Key(key) => match value_at_key(value, key) {
                Some(next) => path_value(next, gets.drop_first()),
                None => Err(RuleError::InvalidKey),
            },
            IndexView::Number(index) => match value_at_index(value, index) {
                Some(next) => path_value(next, gets.drop_first()),
                None => Err(RuleError::InvalidIndex),
            },
        }
    }
}

/// One step of a path: an empty path stays at the value; a key leads to the
/// first member of an object with that key, and fails with `InvalidKey` on an
/// object without it and on anything but an object; an index leads to that
/// element of an array, and fails with `InvalidIndex` past the end and on
/// anything but an array.
pub proof fn lemma_path_steps(value: JsonView, key: Seq<char>, index: u64, i: int)
    ensures
        path_value(value, Seq::empty()) == Ok::<JsonView, RuleError>(value),
        value matches JsonView::Object(members) ==> (0 <= i < members.len() && members[i].0 == key && (forall|
            j: int,
        | 0 <= j < i ==> members[j].0 != key) ==> path_value(value, seq![IndexView::Key(key)]) == Ok::<
            JsonView,
            RuleError,
        >(members[i].1)),
        value matches JsonView::Object(members) ==> ((forall|j: int| 0 <= j < members.len() ==> members[j].0 != key)
            ==> path_value(value, seq![IndexView::Key(key)]) == Err::<JsonView, RuleError>(RuleError::InvalidKey)),
        !(value is Object) ==> path_value(value, seq![IndexView::Key(key)]) == Err::<JsonView, RuleError>(
            RuleError::InvalidKey,
        ),
        value matches JsonView::Array(items) ==> ((index as usize) < items.len() ==> path_value(
            value,
            seq![IndexView::Number(index)],
        ) == Ok::<JsonView, RuleError>(items[(index as usize) as int])),
        value matches JsonView::Array(items) ==> ((index as usize) >= items.len() ==> path_value(
            value,
            seq![IndexView::Number(index)],
        ) == Err::<JsonView, RuleError>(RuleError::InvalidIndex)),
        !(value is Array) ==> path_value(value, seq![IndexView::Number(index)]) == Err::<JsonView, RuleError>(
            RuleError::InvalidIndex,
        ),
{
    let k: Seq<IndexView> = seq![IndexView::Key(key)];
    let n: Seq<IndexView> = seq![IndexView::Number(index)];
    assert(k.drop_first() =~= Seq::<IndexView>::empty());
    assert(n.drop_first() =~= Seq::<IndexView>::empty());
    if let JsonView::Object(members) = value {
        if 0 <= i < members.len() && members[i].0 == key && (forall|j: int| 0 <= j < i ==> members[j].0 != key) {
            lemma_member_view_first(members, key, i);
            assert(path_value(members[i].1, k.drop_first()) == Ok::<JsonView, RuleError>(members[i].1));
        }
        if forall|j: int| 0 <= j < members.len() ==> members[j].0 != key {
            lemma_member_view_absent(members, key);
        }
    }
    if let JsonView::Array(items) = value {
        if (index as usize) < items.len() {
            let item = items[(index as usize) as int];
            assert(path_value(item, n.drop_first()) == Ok::<JsonView, RuleError>(item));
        }
    }
}

proof fn lemma_member_view_first(members: Seq<(Seq<char>, JsonView)>, key: Seq<char>, i: int)
    requires
        0 <= i < members.len(),
        members[i].0 == key,
        forall|j: int| 0 <= j < i ==> members[j].0 != key,
    ensures
        member_view(members, key) == Some(members[i].1),
    decreases i,
{
    if i > 0 {
        assert forall|j: int| 0 <= j < i - 1 implies members.drop_first()[j].0 != key by {
            assert(members.drop_first()[j] == members[j + 1]);
        }
        lemma_member_view_first(members.drop_first(), key, i - 1);
    }
}

proof fn lemma_member_view_absent(members: Seq<(Seq<char>, JsonView)>, key: Seq<char>)
    requires
        forall|j: int| 0 <= j < members.len() ==> members[j].0 != key,
    ensures
        member_view(members, key) is None,
    decreases members.len(),
{
    if members.len() > 0 {
        assert forall|j: int| 0 <= j < members.len() - 1 implies members.drop_first()[j].0 != key by {
            assert(members.drop_first()[j] == members[j + 1]);
        }
        lemma_member_view_absent(members.drop_first(), key);
    }
}

/// Following `first + rest` is following `first`, then `rest` from where it led.
pub proof fn lemma_path_concat(value: JsonView, first: Seq<IndexView>, rest: Seq<IndexView>)
    ensures
        path_value(value, first + rest) == match path_value(value, first) {
            Ok(found) => path_value(found, rest),
            Err(e) => Err(e),
        },
    decreases first.len(),
{
    if first.len() == 0 {
        assert(first + rest =~= rest);
    } else {
        assert((first + rest)[0] == first[0]);
        assert((first + rest).drop_first() =~= first.drop_first() + rest);
        match first[0] {
            IndexView::Key(key) => match value_at_key(value, key) {
                Some(next) => lemma_path_concat(next, first.drop_first(), rest),
                None => {},
            },
            IndexView::Number(index) => match value_at_index(value, index) {
                Some(next) => lemma_path_concat(next, first.drop_first(), rest),
                None => {},
            },
        }
    }
}

/// The member `key` of an object.
pub fn get_key<'a>(value: &'a JsonValue, key: &String) -> (res: Option<&'a JsonValue>)
    ensures
        res is Some == value_at_key(json_view(*value), key@) is Some,
        res matches Some(v) ==> value_at_key(json_view(*value), key@) == Some(json_view(*v)),
{
    match value {
        JsonValue::Object(members) => {
            proof {
                lemma_members_view(members@);
            }
            let ghost mv = members_view(members@);
            let mut i: usize = 0;
            proof {
                assert(mv.skip(0) =~= mv);
            }
            while i < members.len()
                invariant
                    *value == JsonValue::Object(*members),
                    mv == members_view(members@),
                    mv.len() == members@.len(),
                    forall|k: int| 0 <= k < members@.len() ==> #[trigger] mv[k] == (
                        members@[k].0@,
                        json_view(members@[k].1),
                    ),
                    i <= members@.len(),
                    member_view(mv, key@) == member_view(mv.skip(i as int), key@),
                decreases members.len() - i,
            {
                proof {
                    assert(mv.skip(i as int)[0] == mv[i as int]);
                    assert(mv.skip(i as int).drop_first() =~= mv.skip(i + 1));
                }
                if members[i].0 == *key {
                    return Some(&members[i].1);
                }
                i = i + 1;
            }
            None
        },
        _ => None,
    }
}

/// The element at `index` of an array.
pub fn get_index<'a>(value: &'a JsonValue, index: u64) -> (res: Option<&'a JsonValue>)
    ensures
        res is Some == value_at_index(json_view(*value), index) is Some,
        res matches Some(v) ==> value_at_index(json_view(*value), index) == Some(json_view(*v)),
{
    match value {
        JsonValue::Array(items) => {
            proof {
                lemma_items_view(items@);
            }
            let i = index as usize;
            if i < items.len() {
                Some(&items[i])
            } else {
                None
            }
        },
        _ => None,
    }
}

/// Follows the path `gets` from `value`, step by step.
pub fn resolve_path<'a>(value: &'a JsonValue, gets: &Vec<ValueIndex>) -> (res: Result<&'a JsonValue, RuleError>)
    ensures
        res is Ok == path_value(json_view(*value), path_view(gets@)) is Ok,
        res matches Ok(v) ==> path_value(json_view(*value), path_view(gets@)) == Ok::<JsonView, RuleError>(
            json_view(*v),
        ),
        res matches Err(e) ==> path_value(json_view(*value), path_view(gets@)) == Err::<JsonView, RuleError>(e),
{
    let ghost pv = path_view(gets@);
    let mut current_val: &JsonValue = value;
    let mut i: usize = 0;
    proof {
        assert(pv.skip(0) =~= pv);
    }
    while i < gets.len()
        invariant
            i <= gets@.len(),
            pv == path_view(gets@),
            pv.len() == gets@.len(),
            path_value(json_view(*value), pv) == path_value(json_view(*current_val), pv.skip(i as int)),
        decreases gets.len() - i,
    {
        proof {
            assert(pv.skip(i as int)[0] == index_view(gets@[i as int]));
            assert(pv.skip(i as int).drop_first() =~= pv.skip(i + 1));
        }
        match &gets[i] {
            ValueIndex::Key(s) => match get_key(current_val, s) {
                Some(next) => {
                    current_val = next;
                },
                None => {
                    return Err(RuleError::InvalidKey);
                },
            },
            ValueIndex::Number(n) => match get_index(current_val, *n) {
                Some(next) => {
                    current_val = next;
                },
                None => {
                    return Err(RuleError::InvalidIndex);
                },
            },
        }
        i = i + 1;
    }
    proof {
        assert(pv.skip(i as int).len() == 0);
    }
    Ok(current_val)
}

} // verus!
