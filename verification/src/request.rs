//! Which request was made, and whether it is written as it must be.

use vstd::prelude::*;

use crate::hexadecimal::{
    decode, decoded, digit_value, encoded, law_decode_ignores_case, law_decode_of_encode,
    law_encode_of_decode, law_what_stands_for_bytes, lower, lower_case,
};
use crate::response::{error_response, Response, BAD_REQUEST};
use crate::text::{
    decimal, law_segments_of_path, law_value_of_decimal, parse_u64, path_of, same_text, segments,
    segments_of, unsigned_value,
};

verus! {

/// The hash of a machine as a regular expression.
pub const HASH_PATTERN: &'static str = "^[a-f0-9]{64}$";

/// The number of bytes of a ruleset's address.
pub const RULESET_LENGTH: usize = 20;

/// Whether `text` is the hash of a machine: 64 lower-case hexadecimal digits and nothing else.
pub open spec fn is_machine_hash(text: Seq<char>) -> bool {
    text.len() == 64 && forall|i: int|
        0 <= i < text.len() ==> 'a' <= #[trigger] text[i] <= 'f' || '0' <= text[i] <= '9'
}

/// The text of a header value: none where a byte is neither a tab nor visible ASCII.
pub open spec fn header_text(value: Seq<u8>) -> Option<Seq<char>> {
    if forall|i: int| 0 <= i < value.len() ==> 32 <= #[trigger] value[i] < 127 || value[i] == 9 {
        Some(value.map_values(|byte: u8| byte as char))
    } else {
        None
    }
}

/// Calls `regex::Regex::new` on `pattern` and `regex::Regex::is_match` on `text`. The contract
/// claims that the one pattern admitted is valid and matches exactly the hashes of machines: its
/// anchors stand for the start and the end of the whole text.
#[verifier::external_body]
fn is_match(pattern: &str, text: &str) -> (matched: bool)
    requires
        pattern@ == HASH_PATTERN@,
    ensures
        matched == is_machine_hash(text@),
{
    regex::Regex::new(pattern).unwrap().is_match(text)
}

/// Calls `hyper::header::HeaderValue::to_str` on the header value made of `value`. The contract
/// claims that there is a text exactly where every byte is a tab or visible ASCII, and that it
/// holds those bytes as characters.
#[verifier::external_body]
fn header_to_str(value: &[u8]) -> (text: Option<String>)
    ensures
        (match text {
            Some(text) => Some(text@),
            None => None,
        }) == header_text(value@),
{
    let value = hyper::header::HeaderValue::from_bytes(value).ok()?;
    value.to_str().ok().map(String::from)
}

/// Whether `hash` is the hash of a machine; otherwise the answer that says so in the given words.
pub fn check_hash_format(hash: &str, error_message: &str) -> (result: Result<(), Response>)
    ensures
        result is Ok <==> is_machine_hash(hash@),
        result matches Err(response) ==> response.is_error(BAD_REQUEST, error_message@),
{
    if !is_match(HASH_PATTERN, hash) {
        return Err(error_response(BAD_REQUEST, error_message));
    }
    Ok(())
}

/// The bytes of a header value that may be absent.
pub open spec fn header_bytes(header: Option<&[u8]>) -> Option<Seq<u8>> {
    match header {
        Some(value) => Some(value@),
        None => None,
    }
}

/// The ruleset that the header `X-Ruleset` names, or what is wrong with the header. A value that
/// is no text counts as an empty one.
pub open spec fn ruleset_of(header: Option<Seq<u8>>) -> Result<Seq<u8>, Seq<char>> {
    match header {
        None => Err("X-Ruleset header is required when signing is requested"@),
        Some(value) => {
            let text = match header_text(value) {
                Some(text) => text,
                None => Seq::empty(),
            };
            match decoded(text) {
                None => Err("Invalid X-Ruleset header: must be valid hex"@),
                Some(bytes) => if bytes.len() == RULESET_LENGTH {
                    Ok(bytes)
                } else {
                    Err("Invalid X-Ruleset header: must decode to 20 bytes"@)
                },
            }
        },
    }
}

/// The ruleset that a signed run is bound to, from the header that names it.
pub fn signing(ruleset_header: Option<&[u8]>) -> (result: Result<Vec<u8>, Response>)
    ensures
        match result {
            Ok(bytes) => ruleset_of(header_bytes(ruleset_header)) == Ok::<Seq<u8>, Seq<char>>(
                bytes@,
            ),
            Err(response) => ruleset_of(header_bytes(ruleset_header)) is Err && response.is_error(
                BAD_REQUEST,
                ruleset_of(header_bytes(ruleset_header))->Err_0,
            ),
        },
{
    let ruleset_hex: String = match ruleset_header {
        Some(value) => match header_to_str(value) {
            Some(text) => text,
            None => String::new(),
        },
        None => {
            return Err(
                error_response(
                    BAD_REQUEST,
                    "X-Ruleset header is required when signing is requested",
                ),
            );
        },
    };
    let ruleset: Vec<u8> = match decode(ruleset_hex.as_str()) {
        Ok(bytes) => bytes,
        Err(_) => {
            return Err(
                error_response(BAD_REQUEST, "Invalid X-Ruleset header: must be valid hex"),
            );
        },
    };
    if ruleset.len() != RULESET_LENGTH {
        return Err(
            error_response(BAD_REQUEST, "Invalid X-Ruleset header: must decode to 20 bytes"),
        );
    }
    Ok(ruleset)
}

/// What a request asks for.
pub enum Route {
    /// Run the machine of this hash on the body.
    Classic { machine_hash: String },
    /// Make sure that the machine of this hash is here, from the directory of this CID.
    Ensure { cid: String, machine_hash: String, size: String },
    /// Say whether the operator is well.
    Health,
    /// Something that the operator does not know.
    Unknown,
}

/// What a request asks for, with its texts as plain sequences.
pub ghost enum RouteView {
    Classic { machine_hash: Seq<char> },
    Ensure { cid: Seq<char>, machine_hash: Seq<char>, size: Seq<char> },
    Health,
    Unknown,
}

impl View for Route {
    type V = RouteView;

    open spec fn view(&self) -> RouteView {
        match self {
            Route::Classic { machine_hash } => RouteView::Classic { machine_hash: machine_hash@ },
            Route::Ensure { cid, machine_hash, size } => RouteView::Ensure {
                cid: cid@,
                machine_hash: machine_hash@,
                size: size@,
            },
            Route::Health => RouteView::Health,
            Route::Unknown => RouteView::Unknown,
        }
    }
}

/// What a request of this method for a path of these segments asks for.
pub open spec fn route_of(method: Seq<char>, parts: Seq<Seq<char>>) -> RouteView {
    if method == "POST"@ && parts.len() == 2 && parts[0] == "classic"@ {
        RouteView::Classic { machine_hash: parts[1] }
    } else if method == "POST"@ && parts.len() == 4 && parts[0] == "ensure"@ {
        RouteView::Ensure { cid: parts[1], machine_hash: parts[2], size: parts[3] }
    } else if method == "GET"@ && parts.len() == 1 && parts[0] == "health"@ {
        RouteView::Health
    } else {
        RouteView::Unknown
    }
}

/// Finds out what a request asks for. Empty segments of the path do not count.
pub fn route(method: &str, path: &str) -> (route: Route)
    ensures
        route@ == route_of(method@, segments_of(path@)),
{
    let parts: Vec<String> = segments(path);
    if same_text(method, "POST") && parts.len() == 2 && same_text(parts[0].as_str(), "classic") {
        Route::Classic { machine_hash: parts[1].clone() }
    } else if same_text(method, "POST") && parts.len() == 4 && same_text(
        parts[0].as_str(),
        "ensure",
    ) {
        Route::Ensure {
            cid: parts[1].clone(),
            machine_hash: parts[2].clone(),
            size: parts[3].clone(),
        }
    } else if same_text(method, "GET") && parts.len() == 1 && same_text(
        parts[0].as_str(),
        "health",
    ) {
        Route::Health
    } else {
        Route::Unknown
    }
}

/// What is answered to a hash that is not the hash of a machine.
pub open spec fn hash_message() -> Seq<char> {
    "machine_hash should contain only symbols a-f 0-9 and have length 64"@
}

/// Whether a run may start, and the ruleset that it is bound to. Without signing that is empty.
/// Otherwise what is wrong with the request.
pub open spec fn classic_admission(
    machine_hash: Seq<char>,
    signing_requested: bool,
    ruleset_header: Option<Seq<u8>>,
) -> Result<Seq<u8>, Seq<char>> {
    if !is_machine_hash(machine_hash) {
        Err(hash_message())
    } else if signing_requested {
        ruleset_of(ruleset_header)
    } else {
        Ok(Seq::empty())
    }
}

/// Admits a run of a machine, with the ruleset that it is bound to, or answers why not.
pub fn admit_classic(
    machine_hash: &str,
    signing_requested: bool,
    ruleset_header: Option<&[u8]>,
) -> (result: Result<Vec<u8>, Response>)
    ensures
        ({
            let admission = classic_admission(
                machine_hash@,
                signing_requested,
                header_bytes(ruleset_header),
            );
            match result {
                Ok(ruleset) => admission == Ok::<Seq<u8>, Seq<char>>(ruleset@),
                Err(response) => admission is Err && response.is_error(
                    BAD_REQUEST,
                    admission->Err_0,
                ),
            }
        }),
{
    match check_hash_format(
        machine_hash,
        "machine_hash should contain only symbols a-f 0-9 and have length 64",
    ) {
        Ok(()) => {},
        Err(response) => {
            return Err(response);
        },
    }
    if signing_requested {
        signing(ruleset_header)
    } else {
        Ok(Vec::new())
    }
}

/// The size that a snapshot is expected to have, or what is wrong with the request.
pub open spec fn ensure_admission(machine_hash: Seq<char>, size: Seq<char>) -> Result<
    u64,
    Seq<char>,
> {
    if !is_machine_hash(machine_hash) {
        Err(hash_message())
    } else {
        match unsigned_value(size) {
            Some(value) if value <= u64::MAX => Ok(value as u64),
            _ => Err("Invalid size: must be a positive integer"@),
        }
    }
}

/// Admits a request for a snapshot, with the size that it is expected to have, or answers why not.
pub fn admit_ensure(machine_hash: &str, size: &str) -> (result: Result<u64, Response>)
    ensures
        match result {
            Ok(expected_size) => ensure_admission(machine_hash@, size@) == Ok::<u64, Seq<char>>(
                expected_size,
            ),
            Err(response) => ensure_admission(machine_hash@, size@) is Err && response.is_error(
                BAD_REQUEST,
                ensure_admission(machine_hash@, size@)->Err_0,
            ),
        },
{
    match check_hash_format(
        machine_hash,
        "machine_hash should contain only symbols a-f 0-9 and have length 64",
    ) {
        Ok(()) => {},
        Err(response) => {
            return Err(response);
        },
    }
    match parse_u64(size) {
        Some(expected_size) => Ok(expected_size),
        None => Err(error_response(BAD_REQUEST, "Invalid size: must be a positive integer")),
    }
}

/// The hash of a machine stands for 32 bytes, and those bytes stand for no other hash.
pub proof fn law_machine_hash_is_32_bytes(hash: Seq<char>)
    requires
        is_machine_hash(hash),
    ensures
        decoded(hash) is Some,
        decoded(hash)->0.len() == 32,
        encoded(decoded(hash)->0) == hash,
{
    assert forall|i: int| 0 <= i < hash.len() implies digit_value(#[trigger] hash[i]) is Some by {}
    law_encode_of_decode(hash);
    assert(lower_case(hash) =~= hash);
}

/// Two headers that each name a ruleset name the same one exactly where their texts differ in case
/// alone.
pub proof fn law_rulesets_ignore_case(left: Seq<u8>, right: Seq<u8>)
    requires
        ruleset_of(Some(left)) is Ok,
        ruleset_of(Some(right)) is Ok,
    ensures
        header_text(left) is Some,
        header_text(right) is Some,
        ruleset_of(Some(left)) == ruleset_of(Some(right)) <==> lower_case(header_text(left)->0)
            == lower_case(header_text(right)->0),
{
    if header_text(left) is Some && header_text(right) is Some {
        law_decode_ignores_case(header_text(left)->0, header_text(right)->0);
    }
}

/// A path that names an endpoint is routed to it: the segments reach the request as they were
/// written.
pub proof fn law_endpoint_paths(cid: Seq<char>, machine_hash: Seq<char>, size: Seq<char>)
    requires
        cid.len() > 0 && !cid.contains('/'),
        machine_hash.len() > 0 && !machine_hash.contains('/'),
        size.len() > 0 && !size.contains('/'),
    ensures
        route_of("POST"@, segments_of(path_of(seq!["classic"@, machine_hash])))
            == (RouteView::Classic { machine_hash }),
        route_of("POST"@, segments_of(path_of(seq!["ensure"@, cid, machine_hash, size]))) == (
        RouteView::Ensure { cid, machine_hash, size }),
        route_of("GET"@, segments_of(path_of(seq!["health"@]))) == RouteView::Health,
{
    reveal_strlit("POST");
    reveal_strlit("GET");
    reveal_strlit("classic");
    reveal_strlit("ensure");
    reveal_strlit("health");
    law_segments_of_path(seq!["classic"@, machine_hash]);
    law_segments_of_path(seq!["ensure"@, cid, machine_hash, size]);
    law_segments_of_path(seq!["health"@]);
}

/// A text is the hash of a machine exactly where it has 64 characters, stands for bytes and is
/// written in lower case.
pub proof fn law_what_is_a_machine_hash(text: Seq<char>)
    ensures
        is_machine_hash(text) <==> text.len() == 64 && decoded(text) is Some && lower_case(text)
            == text,
{
    if is_machine_hash(text) {
        law_machine_hash_is_32_bytes(text);
        assert(lower_case(text) =~= text);
    }
    if text.len() == 64 && decoded(text) is Some && lower_case(text) == text {
        law_what_stands_for_bytes(text);
        assert forall|i: int| 0 <= i < text.len() implies 'a' <= #[trigger] text[i] <= 'f' || '0'
            <= text[i] <= '9' by {
            assert(lower_case(text)[i] == lower(text[i]));
        }
    }
}

/// No run is admitted for what is not the hash of a machine, whether or not signing is requested
/// and whatever the header: the answer is always that the hash is wrong.
pub proof fn law_runs_need_a_machine_hash(
    machine_hash: Seq<char>,
    signing_requested: bool,
    ruleset_header: Option<Seq<u8>>,
)
    ensures
        classic_admission(machine_hash, signing_requested, ruleset_header) is Ok
            ==> is_machine_hash(machine_hash),
        !is_machine_hash(machine_hash) ==> classic_admission(
            machine_hash,
            signing_requested,
            ruleset_header,
        ) == Err::<Seq<u8>, Seq<char>>(
            "machine_hash should contain only symbols a-f 0-9 and have length 64"@,
        ),
{
}

/// The header counts exactly where signing is requested: then a machine's run is bound to the
/// ruleset that the header names, and refused where it names none. Without signing every machine's
/// run is admitted with an empty ruleset, whatever the header.
pub proof fn law_rulesets_are_for_signing(
    machine_hash: Seq<char>,
    header: Option<Seq<u8>>,
    other: Option<Seq<u8>>,
)
    requires
        is_machine_hash(machine_hash),
    ensures
        classic_admission(machine_hash, true, header) == ruleset_of(header),
        classic_admission(machine_hash, false, header) matches Ok(ruleset) && ruleset.len() == 0,
        classic_admission(machine_hash, false, header) == classic_admission(
            machine_hash,
            false,
            other,
        ),
{
}

/// Whether every byte of a header value is a hexadecimal digit in either case and their number is
/// even.
pub open spec fn is_hexadecimal(value: Seq<u8>) -> bool {
    value.len() % 2 == 0 && forall|i: int|
        0 <= i < value.len() ==> 48 <= #[trigger] value[i] <= 57 || 97 <= value[i] <= 102 || 65
            <= value[i] <= 70
}

proof fn lemma_hexadecimal_header(value: Seq<u8>)
    ensures
        is_hexadecimal(value) <==> header_text(value) is Some && decoded(header_text(value)->0)
            is Some,
        header_text(value) matches Some(text) ==> text.len() == value.len() && forall|i: int|
            0 <= i < text.len() ==> #[trigger] text[i] == value[i] as char,
{
    if header_text(value) is Some {
        let text = header_text(value)->0;
        law_what_stands_for_bytes(text);
        if is_hexadecimal(value) {
            assert forall|i: int| 0 <= i < text.len() implies '0' <= #[trigger] text[i] <= '9' || 'a'
                <= text[i] <= 'f' || 'A' <= text[i] <= 'F' by {
                assert(48 <= value[i] <= 57 || 97 <= value[i] <= 102 || 65 <= value[i] <= 70);
            }
        }
        if decoded(text) is Some {
            assert forall|i: int| 0 <= i < value.len() implies 48 <= #[trigger] value[i] <= 57 || 97
                <= value[i] <= 102 || 65 <= value[i] <= 70 by {
                assert(text[i] == value[i] as char);
            }
        }
    }
}

/// Which header names a ruleset: 40 hexadecimal digits do and nothing else does. What is wrong with
/// another one is told apart: that there is none, that it is no hexadecimal text, or that it has
/// another length. A value that is no text counts as an empty one.
pub proof fn law_which_headers_name_a_ruleset(value: Seq<u8>)
    ensures
        ruleset_of(None) == Err::<Seq<u8>, Seq<char>>(
            "X-Ruleset header is required when signing is requested"@,
        ),
        ruleset_of(Some(value)) is Ok <==> value.len() == 40 && is_hexadecimal(value),
        is_hexadecimal(value) && value.len() != 40 ==> ruleset_of(Some(value)) == Err::<
            Seq<u8>,
            Seq<char>,
        >("Invalid X-Ruleset header: must decode to 20 bytes"@),
        (exists|i: int|
            0 <= i < value.len() && !(32 <= #[trigger] value[i] < 127 || value[i] == 9))
            ==> ruleset_of(Some(value)) == Err::<Seq<u8>, Seq<char>>(
            "Invalid X-Ruleset header: must decode to 20 bytes"@,
        ),
        !is_hexadecimal(value) && (forall|i: int|
            0 <= i < value.len() ==> 32 <= #[trigger] value[i] < 127 || value[i] == 9)
            ==> ruleset_of(Some(value)) == Err::<Seq<u8>, Seq<char>>(
            "Invalid X-Ruleset header: must be valid hex"@,
        ),
{
    lemma_hexadecimal_header(value);
    law_what_stands_for_bytes(Seq::empty());
    if header_text(value) is Some {
        law_what_stands_for_bytes(header_text(value)->0);
    }
}

/// A header names the ruleset whose hexadecimal text it is, in either case: every ruleset of 20
/// bytes is named by its text, and the ruleset that a header names has that header's text.
pub proof fn law_headers_name_rulesets(ruleset: Seq<u8>, value: Seq<u8>)
    requires
        ruleset.len() == 20,
    ensures
        ruleset_of(Some(value)) == Ok::<Seq<u8>, Seq<char>>(ruleset) <==> {
            &&& value.len() == 40
            &&& forall|i: int|
                0 <= i < value.len() ==> lower(#[trigger] value[i] as char) == encoded(ruleset)[i]
        },
{
    lemma_hexadecimal_header(value);
    law_decode_of_encode(ruleset);
    if ruleset_of(Some(value)) == Ok::<Seq<u8>, Seq<char>>(ruleset) {
        law_which_headers_name_a_ruleset(value);
        let text = header_text(value)->0;
        law_encode_of_decode(text);
        assert forall|i: int| 0 <= i < value.len() implies lower(#[trigger] value[i] as char)
            == encoded(ruleset)[i] by {
            assert(lower_case(text)[i] == lower(text[i]));
        }
    }
    if value.len() == 40 && (forall|i: int|
        0 <= i < value.len() ==> lower(#[trigger] value[i] as char) == encoded(ruleset)[i]) {
        law_what_stands_for_bytes(encoded(ruleset));
        assert forall|i: int| 0 <= i < value.len() implies 48 <= #[trigger] value[i] <= 57 || 97
            <= value[i] <= 102 || 65 <= value[i] <= 70 by {
            assert(lower(value[i] as char) == encoded(ruleset)[i]);
            assert('0' <= encoded(ruleset)[i] <= '9' || 'a' <= encoded(ruleset)[i] <= 'f' || 'A'
                <= encoded(ruleset)[i] <= 'F');
        }
        assert(is_hexadecimal(value));
        let text = header_text(value)->0;
        law_encode_of_decode(text);
        assert(lower_case(text) =~= encoded(ruleset));
        law_decode_of_encode(decoded(text)->0);
        law_which_headers_name_a_ruleset(value);
    }
}

/// A header is taken as its bytes, and an absent one is told from an empty one.
pub proof fn law_headers_are_taken_whole(value: &[u8])
    ensures
        header_bytes(Some(value)) == Some(value@),
        header_bytes(None) is None,
{
}

/// A request is for a run exactly where it is a `POST` to `classic` and one segment more, for a
/// snapshot exactly where it is a `POST` to `ensure` and three more, and for the health exactly
/// where it is a `GET` of `health` alone. The segments reach the request in the order of the path.
pub proof fn law_what_requests_ask_for(
    method: Seq<char>,
    parts: Seq<Seq<char>>,
    cid: Seq<char>,
    machine_hash: Seq<char>,
    size: Seq<char>,
)
    ensures
        route_of(method, parts) == (RouteView::Classic { machine_hash }) <==> method == "POST"@
            && parts == seq!["classic"@, machine_hash],
        route_of(method, parts) == (RouteView::Ensure { cid, machine_hash, size }) <==> method
            == "POST"@ && parts == seq!["ensure"@, cid, machine_hash, size],
        route_of(method, parts) is Health <==> method == "GET"@ && parts == seq!["health"@],
        route_of(method, parts) is Unknown <==> !(method == "POST"@ && parts.len() == 2 && parts[0]
            == "classic"@) && !(method == "POST"@ && parts.len() == 4 && parts[0] == "ensure"@)
            && !(method == "GET"@ && parts == seq!["health"@]),
{
    reveal_strlit("POST");
    reveal_strlit("GET");
    if route_of(method, parts) == (RouteView::Classic { machine_hash }) {
        assert(parts =~= seq!["classic"@, machine_hash]);
    }
    if route_of(method, parts) == (RouteView::Ensure { cid, machine_hash, size }) {
        assert(parts =~= seq!["ensure"@, cid, machine_hash, size]);
    }
    if parts.len() == 1 && parts[0] == "health"@ {
        assert(parts =~= seq!["health"@]);
    }
}

/// A request for a snapshot is admitted exactly where it names the hash of a machine and writes a
/// size that fits in 64 bits, and that size is the expected one. Otherwise a wrong hash is reported
/// first, then a wrong size.
pub proof fn law_which_snapshot_requests_are_admitted(
    machine_hash: Seq<char>,
    size: Seq<char>,
    number: nat,
)
    ensures
        ensure_admission(machine_hash, size) is Ok <==> {
            &&& is_machine_hash(machine_hash)
            &&& unsigned_value(size) is Some
            &&& unsigned_value(size)->0 < 0x1_0000_0000_0000_0000
        },
        ensure_admission(machine_hash, size) matches Ok(expected) ==> unsigned_value(size) == Some(
            expected as nat,
        ),
        is_machine_hash(machine_hash) && number <= u64::MAX ==> ensure_admission(
            machine_hash,
            decimal(number),
        ) == Ok::<u64, Seq<char>>(number as u64),
        !is_machine_hash(machine_hash) ==> ensure_admission(machine_hash, size) == Err::<
            u64,
            Seq<char>,
        >("machine_hash should contain only symbols a-f 0-9 and have length 64"@),
        is_machine_hash(machine_hash) && ensure_admission(machine_hash, size) is Err
            ==> ensure_admission(machine_hash, size) == Err::<u64, Seq<char>>(
            "Invalid size: must be a positive integer"@,
        ),
{
    law_value_of_decimal(number);
}

/// The view of a route keeps what is asked for and every text of it.
pub proof fn law_route_view_is_whole(route: Route)
    ensures
        match route {
            Route::Classic { machine_hash } => route@ == (RouteView::Classic {
                machine_hash: machine_hash@,
            }),
            Route::Ensure { cid, machine_hash, size } => route@ == (RouteView::Ensure {
                cid: cid@,
                machine_hash: machine_hash@,
                size: size@,
            }),
            Route::Health => route@ is Health,
            Route::Unknown => route@ is Unknown,
        },
{
}

} // verus!
