//! The JSON documents that the operator answers with, and the one that it reads.

use vstd::prelude::*;

use crate::hexadecimal::digit;
use crate::text::{decimal, law_decimal_is_plain, law_value_of_decimal};

verus! {

/// What a machine handed over in one callback: the reason of the yield and its payload.
pub type Callback = (u16, Vec<u8>);

/// The value of a member of an object.
pub enum Field<'a> {
    /// A string.
    Text(&'a str),
    /// An array of the bytes as numbers.
    Bytes(&'a [u8]),
    /// An array of the reason and the array of the payload's bytes.
    Callback(&'a Callback),
    /// An array of callbacks.
    Callbacks(&'a Vec<Callback>),
}

/// A member of an object.
pub struct Member<'a> {
    pub key: &'a str,
    pub value: Field<'a>,
}

/// A callback with its payload as a plain sequence.
pub open spec fn callback_view(callback: Callback) -> (u16, Seq<u8>) {
    (callback.0, callback.1@)
}

/// Callbacks with their payloads as plain sequences.
pub open spec fn callbacks_view(list: Seq<Callback>) -> Seq<(u16, Seq<u8>)> {
    list.map_values(|callback: Callback| callback_view(callback))
}

/// How a character is written inside a JSON string.
pub open spec fn escaped(c: char) -> Seq<char> {
    if c == '"' || c == '\\' {
        seq!['\\', c]
    } else if c == '\u{8}' {
        seq!['\\', 'b']
    } else if c == '\t' {
        seq!['\\', 't']
    } else if c == '\n' {
        seq!['\\', 'n']
    } else if c == '\u{c}' {
        seq!['\\', 'f']
    } else if c == '\r' {
        seq!['\\', 'r']
    } else if ' ' > c {
        seq!['\\', 'u', '0', '0', digit(c as int / 16), digit(c as int % 16)]
    } else {
        seq![c]
    }
}

/// `text` as a JSON string.
pub open spec fn string_json(text: Seq<char>) -> Seq<char> {
    seq!['"'] + text.flat_map(|c: char| escaped(c)) + seq!['"']
}

/// The parts in order with a comma between each two.
pub open spec fn listed(parts: Seq<Seq<char>>) -> Seq<char>
    decreases parts.len(),
{
    if parts.len() == 0 {
        Seq::empty()
    } else if parts.len() == 1 {
        parts[0]
    } else {
        listed(parts.drop_last()).push(',') + parts.last()
    }
}

/// The parts as a JSON array.
pub open spec fn array_json(parts: Seq<Seq<char>>) -> Seq<char> {
    seq!['['] + listed(parts) + seq![']']
}

/// Bytes as a JSON array of numbers.
pub open spec fn bytes_json(bytes: Seq<u8>) -> Seq<char> {
    array_json(bytes.map_values(|byte: u8| decimal(byte as nat)))
}

/// A callback as a JSON array of its reason and its payload.
pub open spec fn callback_json(callback: (u16, Seq<u8>)) -> Seq<char> {
    array_json(seq![decimal(callback.0 as nat), bytes_json(callback.1)])
}

/// Callbacks as a JSON array.
pub open spec fn callbacks_json(list: Seq<(u16, Seq<u8>)>) -> Seq<char> {
    array_json(list.map_values(|callback: (u16, Seq<u8>)| callback_json(callback)))
}

/// The value of a member as JSON.
pub open spec fn field_json(field: Field) -> Seq<char> {
    match field {
        Field::Text(text) => string_json(text@),
        Field::Bytes(bytes) => bytes_json(bytes@),
        Field::Callback(callback) => callback_json(callback_view(*callback)),
        Field::Callbacks(list) => callbacks_json(callbacks_view(list@)),
    }
}

/// An object of members given as key and JSON value, in that order and without white space.
pub open spec fn object_json(members: Seq<(Seq<char>, Seq<char>)>) -> Seq<char> {
    seq!['{'] + listed(
        members.map_values(
            |member: (Seq<char>, Seq<char>)| string_json(member.0).push(':') + member.1,
        ),
    ) + seq!['}']
}

/// The members as key and JSON value.
pub open spec fn members_json(members: Seq<Member>) -> Seq<(Seq<char>, Seq<char>)> {
    members.map_values(|member: Member| (member.key@, field_json(member.value)))
}

/// Whether `left` comes before `right` where texts are ordered character by character.
pub open spec fn precedes(left: Seq<char>, right: Seq<char>) -> bool {
    exists|i: int|
        {
            &&& 0 <= i <= left.len()
            &&& i < right.len()
            &&& left.take(i) == #[trigger] right.take(i)
            &&& i == left.len() || left[i] < right[i]
        }
}

/// Whether every key comes before the keys of the members behind it.
pub open spec fn keys_ascend(members: Seq<Member>) -> bool {
    forall|i: int, j: int|
        0 <= i < j < members.len() ==> precedes(#[trigger] members[i].key@, #[trigger] members[j].key@)
}

/// The unsigned number under `key` in the JSON document `body`: the text of the error where
/// `body` is no JSON document, and no number where it is no object, lacks the key or has something
/// else there.
pub uninterp spec fn u64_member_of(body: Seq<u8>, key: Seq<char>) -> Result<Option<u64>, Seq<char>>;

/// Calls `serde_json::to_string` on a `serde_json::Value::Object` that holds the members, each
/// value converted by `serde_json::to_value`. The contract claims that the text is the compact
/// JSON of the object, the members in ascending order of their keys. That order is the order
/// given, since the keys ascend.
#[verifier::external_body]
pub(crate) fn object_text(members: &Vec<Member>) -> (text: String)
    requires
        keys_ascend(members@),
    ensures
        text@ == object_json(members_json(members@)),
{
    let mut object = serde_json::Map::new();
    for member in members {
        let value = match &member.value {
            Field::Text(text) => serde_json::to_value(text),
            Field::Bytes(bytes) => serde_json::to_value(bytes),
            Field::Callback(callback) => serde_json::to_value(callback),
            Field::Callbacks(list) => serde_json::to_value(list),
        };
        object.insert(member.key.to_string(), value.unwrap());
    }
    serde_json::to_string(&serde_json::Value::Object(object)).unwrap()
}

/// Calls `serde_json::from_slice` on `body` for a `serde_json::Value`, indexes it by `key` and
/// calls `serde_json::Value::as_u64`. The contract claims that the number, or the text of the
/// error, is a function of the two arguments alone, which [`u64_member_of`] names.
#[verifier::external_body]
pub(crate) fn u64_member(body: &[u8], key: &str) -> (result: Result<Option<u64>, String>)
    ensures
        (match result {
            Ok(number) => Ok(number),
            Err(message) => Err(message@),
        }) == u64_member_of(body@, key@),
{
    match serde_json::from_slice::<serde_json::Value>(body) {
        Ok(value) => Ok(value[key].as_u64()),
        Err(error) => Err(error.to_string()),
    }
}

spec fn escaped_all(text: Seq<char>) -> Seq<char> {
    text.flat_map(|c: char| escaped(c))
}

proof fn lemma_escaped_front(text: Seq<char>)
    requires
        text.len() > 0,
    ensures
        escaped_all(text) == escaped(text[0]) + escaped_all(text.drop_first()),
{
    let f = |c: char| escaped(c);
    assert(text.map_values(f).drop_first() =~= text.drop_first().map_values(f));
}

/// No two characters are written alike, whatever follows.
proof fn lemma_escaped_tells_apart(c: char, d: char, rest: Seq<char>, other: Seq<char>)
    requires
        escaped(c) + rest == escaped(d) + other,
    ensures
        c == d,
{
    let left = escaped(c) + rest;
    let right = escaped(d) + other;
    assert(left[0] == escaped(c)[0]);
    assert(right[0] == escaped(d)[0]);
    if escaped(c).len() > 1 && escaped(d).len() > 1 {
        assert(left[1] == escaped(c)[1]);
        assert(right[1] == escaped(d)[1]);
        if escaped(c).len() == 6 && escaped(d).len() == 6 {
            assert(left[4] == escaped(c)[4] && left[5] == escaped(c)[5]);
            assert(right[4] == escaped(d)[4] && right[5] == escaped(d)[5]);
        }
    }
}

proof fn lemma_escaped_all_tells_apart(left: Seq<char>, right: Seq<char>)
    requires
        escaped_all(left) == escaped_all(right),
    ensures
        left == right,
    decreases left.len(),
{
    if left.len() == 0 || right.len() == 0 {
        let f = |c: char| escaped(c);
        assert(Seq::<char>::empty().map_values(f) =~= Seq::empty());
        assert(escaped_all(Seq::empty()) =~= Seq::empty());
        if left.len() > 0 {
            lemma_escaped_front(left);
            assert(right =~= Seq::empty());
            assert(escaped_all(left).len() > 0);
        }
        if right.len() > 0 {
            lemma_escaped_front(right);
            assert(left =~= Seq::empty());
            assert(escaped_all(right).len() > 0);
        }
        assert(left =~= right);
    } else {
        lemma_escaped_front(left);
        lemma_escaped_front(right);
        let rest = escaped_all(left.drop_first());
        let other = escaped_all(right.drop_first());
        lemma_escaped_tells_apart(left[0], right[0], rest, other);
        let written = escaped(left[0]);
        assert((written + rest).skip(written.len() as int) =~= rest);
        assert((written + other).skip(written.len() as int) =~= other);
        lemma_escaped_all_tells_apart(left.drop_first(), right.drop_first());
        assert(left =~= seq![left[0]] + left.drop_first());
        assert(right =~= seq![right[0]] + right.drop_first());
    }
}

/// Different texts are different JSON strings.
pub proof fn law_strings_tell_apart(left: Seq<char>, right: Seq<char>)
    requires
        string_json(left) == string_json(right),
    ensures
        left == right,
{
    let inner = |text: Seq<char>| text.subrange(1, text.len() - 1);
    assert(inner(string_json(left)) =~= escaped_all(left));
    assert(inner(string_json(right)) =~= escaped_all(right));
    lemma_escaped_all_tells_apart(left, right);
}

/// A text without quotation marks, backslashes and control characters is a JSON string by being
/// put between quotation marks.
pub proof fn law_plain_text_is_quoted(text: Seq<char>)
    requires
        forall|i: int| 0 <= i < text.len() ==> #[trigger] text[i] >= ' ' && text[i] != '"'
            && text[i] != '\\',
    ensures
        string_json(text) == seq!['"'] + text + seq!['"'],
    decreases text.len(),
{
    let f = |c: char| escaped(c);
    if text.len() == 0 {
        assert(text.map_values(f) =~= Seq::empty());
        assert(escaped_all(text) =~= text);
    } else {
        let rest = text.drop_first();
        assert forall|i: int| 0 <= i < rest.len() implies #[trigger] rest[i] >= ' ' && rest[i]
            != '"' && rest[i] != '\\' by {
            assert(rest[i] == text[i + 1]);
        }
        law_plain_text_is_quoted(rest);
        lemma_escaped_front(text);
        assert(escaped_all(rest) =~= rest) by {
            let inner = |text: Seq<char>| text.subrange(1, text.len() - 1);
            assert(inner(string_json(rest)) =~= escaped_all(rest));
            assert(inner(seq!['"'] + rest + seq!['"']) =~= rest);
        }
        assert(escaped(text[0]) == seq![text[0]]);
        assert(escaped_all(text) =~= text);
    }
}

proof fn lemma_listed_push(parts: Seq<Seq<char>>, part: Seq<char>)
    ensures
        listed(parts.push(part)) == (if parts.len() == 0 {
            part
        } else {
            listed(parts).push(',') + part
        }),
{
    assert(parts.push(part).drop_last() =~= parts);
}

/// Bytes are listed in order as decimal numbers between brackets, with a comma between each two.
pub proof fn law_bytes_are_listed(bytes: Seq<u8>, byte: u8)
    ensures
        bytes_json(Seq::empty()) == seq!['[', ']'],
        bytes_json(seq![byte]) == seq!['['] + decimal(byte as nat) + seq![']'],
        bytes.len() > 0 ==> bytes_json(bytes.push(byte)) == bytes_json(bytes).drop_last().push(',')
            + decimal(byte as nat) + seq![']'],
{
    let f = |byte: u8| decimal(byte as nat);
    assert(Seq::<u8>::empty().map_values(f) =~= Seq::empty());
    assert(bytes_json(Seq::empty()) =~= seq!['[', ']']);
    assert(seq![byte].map_values(f) =~= seq![decimal(byte as nat)]);
    assert(bytes.push(byte).map_values(f) =~= bytes.map_values(f).push(decimal(byte as nat)));
    lemma_listed_push(bytes.map_values(f), decimal(byte as nat));
    if bytes.len() > 0 {
        assert(bytes_json(bytes).drop_last() =~= seq!['['] + listed(bytes.map_values(f)));
        assert(bytes_json(bytes.push(byte)) =~= bytes_json(bytes).drop_last().push(',') + decimal(
            byte as nat,
        ) + seq![']']);
    }
}

/// A callback is its reason and the list of its payload's bytes. Callbacks are listed in order
/// between brackets, with a comma between each two.
pub proof fn law_callbacks_are_listed(list: Seq<(u16, Seq<u8>)>, callback: (u16, Seq<u8>))
    ensures
        callback_json(callback) == seq!['['] + decimal(callback.0 as nat) + seq![','] + bytes_json(
            callback.1,
        ) + seq![']'],
        callbacks_json(Seq::empty()) == seq!['[', ']'],
        callbacks_json(seq![callback]) == seq!['['] + callback_json(callback) + seq![']'],
        list.len() > 0 ==> callbacks_json(list.push(callback)) == callbacks_json(
            list,
        ).drop_last().push(',') + callback_json(callback) + seq![']'],
{
    let f = |callback: (u16, Seq<u8>)| callback_json(callback);
    let parts = seq![decimal(callback.0 as nat), bytes_json(callback.1)];
    assert(parts.drop_last() =~= seq![decimal(callback.0 as nat)]);
    assert(listed(parts.drop_last()) == decimal(callback.0 as nat));
    assert(listed(parts) == decimal(callback.0 as nat).push(',') + bytes_json(callback.1));
    assert(callback_json(callback) =~= seq!['['] + decimal(callback.0 as nat) + seq![',']
        + bytes_json(callback.1) + seq![']']);
    assert(Seq::<(u16, Seq<u8>)>::empty().map_values(f) =~= Seq::empty());
    assert(callbacks_json(Seq::empty()) =~= seq!['[', ']']);
    assert(seq![callback].map_values(f) =~= seq![callback_json(callback)]);
    assert(list.push(callback).map_values(f) =~= list.map_values(f).push(callback_json(callback)));
    lemma_listed_push(list.map_values(f), callback_json(callback));
    if list.len() > 0 {
        assert(callbacks_json(list).drop_last() =~= seq!['['] + listed(list.map_values(f)));
        assert(callbacks_json(list.push(callback)) =~= callbacks_json(list).drop_last().push(',')
            + callback_json(callback) + seq![']']);
    }
}

/// Whether a text starts with what follows an element of a list.
spec fn stops(rest: Seq<char>) -> bool {
    rest.len() > 0 && (rest[0] == ',' || rest[0] == ']')
}

/// Whether no two values are written alike, whatever follows them in a list.
spec fn tells_apart<T>(f: spec_fn(T) -> Seq<char>) -> bool {
    &&& forall|x: T| (#[trigger] f(x)).len() > 0 && f(x)[0] != ']'
    &&& forall|x: T, y: T, r: Seq<char>, s: Seq<char>|
        stops(r) && stops(s) && #[trigger] (f(x) + r) == #[trigger] (f(y) + s) ==> x == y
}

/// The elements behind the first one, and then `end`.
spec fn tail_with(parts: Seq<Seq<char>>, end: Seq<char>) -> Seq<char>
    decreases parts.len(),
{
    if parts.len() == 0 {
        end
    } else {
        seq![','] + parts[0] + tail_with(parts.drop_first(), end)
    }
}

/// What follows the first element of a list.
spec fn tail(parts: Seq<Seq<char>>) -> Seq<char> {
    tail_with(parts, seq![']'])
}

proof fn lemma_tail_with_last(parts: Seq<Seq<char>>, end: Seq<char>)
    requires
        parts.len() > 0,
    ensures
        tail_with(parts, end) == tail_with(parts.drop_last(), seq![','] + parts.last() + end),
    decreases parts.len(),
{
    if parts.len() == 1 {
        assert(parts.drop_first() =~= Seq::empty());
        assert(parts.drop_last() =~= Seq::empty());
        assert(tail_with(parts.drop_first(), end) == end);
    } else {
        lemma_tail_with_last(parts.drop_first(), end);
        assert(parts.drop_first().drop_last() =~= parts.drop_last().drop_first());
    }
}

proof fn lemma_tail_with(parts: Seq<Seq<char>>, end: Seq<char>)
    requires
        parts.len() > 0,
    ensures
        listed(parts) + end == parts[0] + tail_with(parts.drop_first(), end),
    decreases parts.len(),
{
    if parts.len() > 1 {
        let more = seq![','] + parts.last() + end;
        lemma_tail_with(parts.drop_last(), more);
        assert(listed(parts) + end =~= listed(parts.drop_last()) + more);
        lemma_tail_with_last(parts.drop_first(), end);
        assert(parts.drop_first().drop_last() =~= parts.drop_last().drop_first());
    } else {
        assert(parts.drop_first() =~= Seq::empty());
    }
}

proof fn lemma_tail_stops(parts: Seq<Seq<char>>)
    ensures
        stops(tail(parts)),
{
}

proof fn lemma_tails_tell_apart<T>(
    f: spec_fn(T) -> Seq<char>,
    left: Seq<T>,
    right: Seq<T>,
    r: Seq<char>,
    s: Seq<char>,
)
    requires
        tells_apart(f),
        tail(left.map_values(f)) + r == tail(right.map_values(f)) + s,
    ensures
        left == right,
        r == s,
    decreases left.len(),
{
    let mine = tail(left.map_values(f)) + r;
    let theirs = tail(right.map_values(f)) + s;
    if left.len() == 0 || right.len() == 0 {
        assert(left.len() == 0 ==> mine[0] == ']');
        assert(right.len() == 0 ==> theirs[0] == ']');
        assert(left.len() > 0 ==> mine[0] == ',');
        assert(right.len() > 0 ==> theirs[0] == ',');
        assert(left =~= right);
        assert(mine.skip(1) =~= r);
        assert(theirs.skip(1) =~= s);
    } else {
        lemma_first_elements_tell_apart(f, left, right, r, s, seq![',']);
        assert(mine =~= seq![','] + f(left[0]) + tail(left.drop_first().map_values(f)) + r) by {
            assert(left.map_values(f).drop_first() =~= left.drop_first().map_values(f));
        }
        assert(theirs =~= seq![','] + f(right[0]) + tail(right.drop_first().map_values(f)) + s) by {
            assert(right.map_values(f).drop_first() =~= right.drop_first().map_values(f));
        }
        let front = seq![','] + f(left[0]);
        assert(mine.skip(front.len() as int) =~= tail(left.drop_first().map_values(f)) + r);
        assert(theirs.skip(front.len() as int) =~= tail(right.drop_first().map_values(f)) + s);
        lemma_tails_tell_apart(f, left.drop_first(), right.drop_first(), r, s);
        assert(left =~= seq![left[0]] + left.drop_first());
        assert(right =~= seq![right[0]] + right.drop_first());
    }
}

proof fn lemma_first_elements_tell_apart<T>(
    f: spec_fn(T) -> Seq<char>,
    left: Seq<T>,
    right: Seq<T>,
    r: Seq<char>,
    s: Seq<char>,
    mark: Seq<char>,
)
    requires
        tells_apart(f),
        left.len() > 0,
        right.len() > 0,
        mark + f(left[0]) + tail(left.map_values(f).drop_first()) + r == mark + f(right[0]) + tail(
            right.map_values(f).drop_first(),
        ) + s,
    ensures
        left[0] == right[0],
{
    let more = tail(left.map_values(f).drop_first()) + r;
    let other = tail(right.map_values(f).drop_first()) + s;
    lemma_tail_stops(left.map_values(f).drop_first());
    lemma_tail_stops(right.map_values(f).drop_first());
    let mine = mark + f(left[0]) + tail(left.map_values(f).drop_first()) + r;
    let theirs = mark + f(right[0]) + tail(right.map_values(f).drop_first()) + s;
    assert(mine.skip(mark.len() as int) =~= f(left[0]) + more);
    assert(theirs.skip(mark.len() as int) =~= f(right[0]) + other);
    assert(stops(more) && stops(other));
}

/// Lists of values that are told apart are themselves told apart, whatever follows.
proof fn lemma_arrays_tell_apart<T>(
    f: spec_fn(T) -> Seq<char>,
    left: Seq<T>,
    right: Seq<T>,
    r: Seq<char>,
    s: Seq<char>,
)
    requires
        tells_apart(f),
        array_json(left.map_values(f)) + r == array_json(right.map_values(f)) + s,
    ensures
        left == right,
        r == s,
{
    let mine = array_json(left.map_values(f)) + r;
    let theirs = array_json(right.map_values(f)) + s;
    if left.len() > 0 {
        lemma_tail_with(left.map_values(f), seq![']']);
        assert(left.map_values(f).drop_first() =~= left.drop_first().map_values(f));
        assert(mine =~= seq!['['] + (listed(left.map_values(f)) + seq![']']) + r);
        assert(mine =~= seq!['['] + f(left[0]) + tail(left.map_values(f).drop_first()) + r);
        assert(mine[1] == f(left[0])[0]);
    } else {
        assert(mine[1] == ']');
    }
    if right.len() > 0 {
        lemma_tail_with(right.map_values(f), seq![']']);
        assert(right.map_values(f).drop_first() =~= right.drop_first().map_values(f));
        assert(theirs =~= seq!['['] + (listed(right.map_values(f)) + seq![']']) + s);
        assert(theirs =~= seq!['['] + f(right[0]) + tail(right.map_values(f).drop_first()) + s);
        assert(theirs[1] == f(right[0])[0]);
    } else {
        assert(theirs[1] == ']');
    }
    if left.len() == 0 || right.len() == 0 {
        assert(left =~= right);
        assert(mine.skip(2) =~= r);
        assert(theirs.skip(2) =~= s);
    } else {
        lemma_first_elements_tell_apart(f, left, right, r, s, seq!['[']);
        let front = seq!['['] + f(left[0]);
        assert(mine.skip(front.len() as int) =~= tail(left.drop_first().map_values(f)) + r);
        assert(theirs.skip(front.len() as int) =~= tail(right.drop_first().map_values(f)) + s);
        lemma_tails_tell_apart(f, left.drop_first(), right.drop_first(), r, s);
        assert(left =~= seq![left[0]] + left.drop_first());
        assert(right =~= seq![right[0]] + right.drop_first());
    }
}

/// Numbers are told apart, whatever follows that is no digit.
proof fn lemma_decimals_tell_apart(left: nat, right: nat, r: Seq<char>, s: Seq<char>)
    requires
        r.len() > 0 && !('0' <= r[0] <= '9'),
        s.len() > 0 && !('0' <= s[0] <= '9'),
        decimal(left) + r == decimal(right) + s,
    ensures
        left == right,
        r == s,
{
    law_decimal_is_plain(left);
    law_decimal_is_plain(right);
    let mine = decimal(left) + r;
    let theirs = decimal(right) + s;
    if decimal(left).len() < decimal(right).len() {
        assert(mine[decimal(left).len() as int] == r[0]);
        assert(theirs[decimal(left).len() as int] == decimal(right)[decimal(left).len() as int]);
    }
    if decimal(right).len() < decimal(left).len() {
        assert(theirs[decimal(right).len() as int] == s[0]);
        assert(mine[decimal(right).len() as int] == decimal(left)[decimal(right).len() as int]);
    }
    let count = decimal(left).len() as int;
    assert(mine.take(count) =~= decimal(left));
    assert(theirs.take(count) =~= decimal(right));
    assert(mine.skip(count) =~= r);
    assert(theirs.skip(count) =~= s);
    law_value_of_decimal(left);
    law_value_of_decimal(right);
}

/// Bytes can be read back from their list, whatever follows it.
pub proof fn law_bytes_tell_apart(left: Seq<u8>, right: Seq<u8>, r: Seq<char>, s: Seq<char>)
    requires
        bytes_json(left) + r == bytes_json(right) + s,
    ensures
        left == right,
        r == s,
{
    let f = |byte: u8| decimal(byte as nat);
    assert forall|x: u8| (#[trigger] f(x)).len() > 0 && f(x)[0] != ']' by {
        law_decimal_is_plain(x as nat);
    }
    assert forall|x: u8, y: u8, p: Seq<char>, q: Seq<char>|
        stops(p) && stops(q) && #[trigger] (f(x) + p) == #[trigger] (f(y) + q) implies x == y by {
        lemma_decimals_tell_apart(x as nat, y as nat, p, q);
    }
    lemma_arrays_tell_apart(f, left, right, r, s);
}

/// A callback can be read back from how it is written, whatever follows it.
pub proof fn law_callback_tells_apart(
    left: (u16, Seq<u8>),
    right: (u16, Seq<u8>),
    r: Seq<char>,
    s: Seq<char>,
)
    requires
        callback_json(left) + r == callback_json(right) + s,
    ensures
        left == right,
        r == s,
{
    law_callbacks_are_listed(Seq::empty(), left);
    law_callbacks_are_listed(Seq::empty(), right);
    let mine = callback_json(left) + r;
    let theirs = callback_json(right) + s;
    let more = seq![','] + bytes_json(left.1) + seq![']'] + r;
    let other = seq![','] + bytes_json(right.1) + seq![']'] + s;
    assert(mine.skip(1) =~= decimal(left.0 as nat) + more);
    assert(theirs.skip(1) =~= decimal(right.0 as nat) + other);
    lemma_decimals_tell_apart(left.0 as nat, right.0 as nat, more, other);
    assert(more.skip(1) =~= bytes_json(left.1) + (seq![']'] + r));
    assert(other.skip(1) =~= bytes_json(right.1) + (seq![']'] + s));
    law_bytes_tell_apart(left.1, right.1, seq![']'] + r, seq![']'] + s);
    assert((seq![']'] + r).skip(1) =~= r);
    assert((seq![']'] + s).skip(1) =~= s);
}

/// Callbacks can be read back from their list, whatever follows it.
pub proof fn law_callbacks_tell_apart(
    left: Seq<(u16, Seq<u8>)>,
    right: Seq<(u16, Seq<u8>)>,
    r: Seq<char>,
    s: Seq<char>,
)
    requires
        callbacks_json(left) + r == callbacks_json(right) + s,
    ensures
        left == right,
        r == s,
{
    let f = |callback: (u16, Seq<u8>)| callback_json(callback);
    assert forall|x: (u16, Seq<u8>)| (#[trigger] f(x)).len() > 0 && f(x)[0] != ']' by {
        law_callbacks_are_listed(Seq::empty(), x);
    }
    assert forall|x: (u16, Seq<u8>), y: (u16, Seq<u8>), p: Seq<char>, q: Seq<char>|
        stops(p) && stops(q) && #[trigger] (f(x) + p) == #[trigger] (f(y) + q) implies x == y by {
        law_callback_tells_apart(x, y, p, q);
    }
    lemma_arrays_tell_apart(f, left, right, r, s);
}

/// The views of callbacks keep the number of callbacks, their order, their reasons and every byte
/// of their payloads.
pub proof fn law_callback_views_are_whole(list: Seq<Callback>)
    ensures
        callbacks_view(list).len() == list.len(),
        forall|i: int|
            0 <= i < list.len() ==> (#[trigger] callbacks_view(list)[i]).0 == list[i].0
                && callbacks_view(list)[i].1 == list[i].1@,
{
}

proof fn lemma_escaped_joins(front: Seq<char>, back: Seq<char>)
    ensures
        escaped_all(front + back) == escaped_all(front) + escaped_all(back),
    decreases front.len(),
{
    let f = |c: char| escaped(c);
    if front.len() == 0 {
        assert(front.map_values(f) =~= Seq::empty());
        assert(front + back =~= back);
        assert(escaped_all(front) =~= Seq::empty());
        assert(escaped_all(front + back) =~= escaped_all(front) + escaped_all(back));
    } else {
        lemma_escaped_front(front);
        lemma_escaped_front(front + back);
        assert((front + back).drop_first() =~= front.drop_first() + back);
        lemma_escaped_joins(front.drop_first(), back);
        assert(escaped_all(front + back) =~= escaped_all(front) + escaped_all(back));
    }
}

/// A JSON string is written character by character, in order.
pub proof fn law_strings_join(front: Seq<char>, back: Seq<char>)
    ensures
        string_json(front + back) == string_json(front).drop_last() + string_json(
            back,
        ).drop_first(),
{
    lemma_escaped_joins(front, back);
    assert(string_json(front + back) =~= string_json(front).drop_last() + string_json(
        back,
    ).drop_first());
}

} // verus!
