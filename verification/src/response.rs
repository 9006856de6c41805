//! What the operator answers.

use vstd::prelude::*;

use crate::json::{
    law_plain_text_is_quoted, law_strings_tell_apart, members_json, object_json, object_text,
    string_json, Field, Member,
};

verus! {

/// The status of an answer that serves the request.
pub const OK: u16 = 200;

/// The status of an answer to a request that cannot be served as it is written.
pub const BAD_REQUEST: u16 = 400;

/// The status of an answer to a request that failed while it was served.
pub const INTERNAL_SERVER_ERROR: u16 = 500;

/// An answer: its status and the text of its body.
#[derive(Debug)]
pub struct Response {
    pub status: u16,
    pub body: String,
}

/// The object whose one member is the text `value` under `key`.
pub open spec fn text_object(key: Seq<char>, value: Seq<char>) -> Seq<char> {
    object_json(seq![(key, string_json(value))])
}

/// The body that reports an error.
pub open spec fn error_body(message: Seq<char>) -> Seq<char> {
    text_object("error"@, message)
}

/// The body that reports the state of a snapshot.
pub open spec fn state_body(state: Seq<char>) -> Seq<char> {
    text_object("state"@, state)
}

impl Response {
    /// Whether the answer has this status and reports this error.
    pub open spec fn is_error(self, status: u16, message: Seq<char>) -> bool {
        self.status == status && self.body@ == error_body(message)
    }

    /// Whether the answer is served and reports this state.
    pub open spec fn is_state(self, state: Seq<char>) -> bool {
        self.status == OK && self.body@ == state_body(state)
    }
}

fn text_object_text(key: &str, value: &str) -> (text: String)
    ensures
        text@ == text_object(key@, value@),
{
    let mut members: Vec<Member> = Vec::new();
    members.push(Member { key, value: Field::Text(value) });
    proof {
        assert(members_json(members@) =~= seq![(key@, string_json(value@))]);
    }
    object_text(&members)
}

/// The answer that reports an error.
pub fn error_response(status: u16, message: &str) -> (response: Response)
    ensures
        response.is_error(status, message@),
{
    Response { status, body: text_object_text("error", message) }
}

/// The answer that reports the state of a snapshot.
pub fn state_response(state: &str) -> (response: Response)
    ensures
        response.is_state(state@),
{
    Response { status: OK, body: text_object_text("state", state) }
}

/// The answer to a health check.
pub fn health_response() -> (response: Response)
    ensures
        response.status == OK,
        response.body@ == "{\"healthy\": \"true\"}"@,
{
    Response { status: OK, body: "{\"healthy\": \"true\"}".to_owned() }
}

/// The answer to a request that the operator does not know.
pub fn unknown_request_response() -> (response: Response)
    ensures
        response.is_error(BAD_REQUEST, "unknown request"@),
{
    error_response(BAD_REQUEST, "unknown request")
}

proof fn lemma_text_object(key: Seq<char>, value: Seq<char>)
    ensures
        text_object(key, value) == seq!['{'] + string_json(key).push(':') + string_json(value)
            + seq!['}'],
{
    let f = |member: (Seq<char>, Seq<char>)| string_json(member.0).push(':') + member.1;
    let members = seq![(key, string_json(value))];
    assert(members.map_values(f) =~= seq![f(members[0])]);
    assert(text_object(key, value) =~= seq!['{'] + string_json(key).push(':') + string_json(value)
        + seq!['}']);
}

/// Objects of one text under the same key are the same only where the texts are.
pub proof fn law_bodies_tell_apart(key: Seq<char>, left: Seq<char>, right: Seq<char>)
    requires
        text_object(key, left) == text_object(key, right),
    ensures
        left == right,
{
    let front = seq!['{'] + string_json(key).push(':');
    lemma_text_object(key, left);
    lemma_text_object(key, right);
    let inner = |text: Seq<char>| text.subrange(front.len() as int, text.len() - 1);
    assert(inner(text_object(key, left)) =~= string_json(left));
    assert(inner(text_object(key, right)) =~= string_json(right));
    law_strings_tell_apart(left, right);
}

/// A body that reports an error is an object whose one member, `error`, is the message as a JSON
/// string, and one that reports a state is an object whose one member is `state`.
pub proof fn law_what_bodies_say(words: Seq<char>)
    ensures
        error_body(words) == "{\"error\":"@ + string_json(words) + "}"@,
        state_body(words) == "{\"state\":"@ + string_json(words) + "}"@,
{
    reveal_strlit("error");
    reveal_strlit("state");
    reveal_strlit("{\"error\":");
    reveal_strlit("{\"state\":");
    reveal_strlit("}");
    lemma_text_object("error"@, words);
    lemma_text_object("state"@, words);
    law_plain_text_is_quoted("error"@);
    law_plain_text_is_quoted("state"@);
    assert(error_body(words) =~= "{\"error\":"@ + string_json(words) + "}"@);
    assert(state_body(words) =~= "{\"state\":"@ + string_json(words) + "}"@);
}

/// An answer reports an error exactly where it has the status and the body of that error, and a
/// state exactly where it has the status of success and the body of that state.
pub proof fn law_what_answers_say(response: Response, status: u16, words: Seq<char>)
    ensures
        response.is_error(status, words) <==> response.status == status && response.body@
            == "{\"error\":"@ + string_json(words) + "}"@,
        response.is_state(words) <==> response.status == 200 && response.body@ == "{\"state\":"@
            + string_json(words) + "}"@,
{
    law_what_bodies_say(words);
}

/// A report of an error gives its message in full: where it holds nothing that JSON escapes, it
/// stands in the body as it is.
pub proof fn law_plain_messages_stand_as_they_are(words: Seq<char>)
    requires
        forall|i: int| 0 <= i < words.len() ==> #[trigger] words[i] >= ' ' && words[i] != '"'
            && words[i] != '\\',
    ensures
        error_body(words) == "{\"error\":\""@ + words + "\"}"@,
        state_body(words) == "{\"state\":\""@ + words + "\"}"@,
{
    reveal_strlit("error");
    reveal_strlit("state");
    reveal_strlit("{\"error\":\"");
    reveal_strlit("{\"state\":\"");
    reveal_strlit("\"}");
    lemma_text_object("error"@, words);
    lemma_text_object("state"@, words);
    law_plain_text_is_quoted("error"@);
    law_plain_text_is_quoted("state"@);
    law_plain_text_is_quoted(words);
    assert(error_body(words) =~= "{\"error\":\""@ + words + "\"}"@);
    assert(state_body(words) =~= "{\"state\":\""@ + words + "\"}"@);
}

} // verus!
