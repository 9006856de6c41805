//! A run of a machine: what it hands over, whether its outputs are proven, and the answer.

use vstd::arithmetic::power2::pow2;
use vstd::prelude::*;
use vstd::slice::slice_to_vec;

use crate::digest::{keccak256, keccak256_of, sha256, sha256_of};
use crate::hexadecimal::{
    decode, decoded, digit, encode, encoded, law_decode_of_encode, law_encode_of_decode, lower_case,
};
use crate::json::{
    bytes_json, callback_json, callback_view, callbacks_json, callbacks_view, law_bytes_tell_apart,
    law_callback_tells_apart, law_callbacks_tell_apart, law_plain_text_is_quoted, listed,
    members_json, object_json, object_text, precedes, string_json, Callback, Field, Member,
};
use crate::outputs_merkle::{create_proofs, digests, law_root_of_halves, merkle_root};
use crate::response::{
    error_body, error_response, law_plain_messages_stand_as_they_are, Response,
    INTERNAL_SERVER_ERROR, OK,
};
use crate::text::same_bytes;

verus! {

/// The height of the tree over the outputs of a run.
pub const HEIGHT: usize = 63;

/// What a machine handed over during a run.
pub struct AdvanceLog {
    /// The outputs, in the order in which they came.
    pub outputs: Vec<Callback>,
    /// The reports, in the order in which they came.
    pub reports: Vec<Callback>,
    /// The last finish; before the first one, reason zero with one zero byte.
    pub finish: Callback,
}

/// What a machine handed over, with the payloads as plain sequences.
pub ghost struct AdvanceLogView {
    pub outputs: Seq<(u16, Seq<u8>)>,
    pub reports: Seq<(u16, Seq<u8>)>,
    pub finish: (u16, Seq<u8>),
}

impl View for AdvanceLog {
    type V = AdvanceLogView;

    open spec fn view(&self) -> AdvanceLogView {
        AdvanceLogView {
            outputs: callbacks_view(self.outputs@),
            reports: callbacks_view(self.reports@),
            finish: callback_view(self.finish),
        }
    }
}

/// Something that a machine hands over.
pub ghost enum Handover {
    Output(u16, Seq<u8>),
    Report(u16, Seq<u8>),
    Finish(u16, Seq<u8>),
}

impl AdvanceLogView {
    /// The log before anything was handed over.
    pub open spec fn start() -> AdvanceLogView {
        AdvanceLogView {
            outputs: Seq::empty(),
            reports: Seq::empty(),
            finish: (0, seq![0u8]),
        }
    }

    /// The log with one more thing handed over.
    pub open spec fn with(self, item: Handover) -> AdvanceLogView {
        match item {
            Handover::Output(reason, payload) => AdvanceLogView {
                outputs: self.outputs.push((reason, payload)),
                ..self
            },
            Handover::Report(reason, payload) => AdvanceLogView {
                reports: self.reports.push((reason, payload)),
                ..self
            },
            Handover::Finish(reason, payload) => AdvanceLogView {
                finish: (reason, payload),
                ..self
            },
        }
    }

    /// The log of a whole run.
    pub open spec fn of(items: Seq<Handover>) -> AdvanceLogView
        decreases items.len(),
    {
        if items.len() == 0 {
            AdvanceLogView::start()
        } else {
            AdvanceLogView::of(items.drop_last()).with(items.last())
        }
    }
}

impl AdvanceLog {
    /// The log before anything was handed over.
    pub fn new() -> (log: AdvanceLog)
        ensures
            log@ == AdvanceLogView::start(),
    {
        let mut blank: Vec<u8> = Vec::new();
        blank.push(0u8);
        let log = AdvanceLog { outputs: Vec::new(), reports: Vec::new(), finish: (0, blank) };
        proof {
            assert(log@.outputs =~= Seq::empty());
            assert(log@.reports =~= Seq::empty());
            assert(log@.finish.1 =~= seq![0u8]);
        }
        log
    }

    /// Takes an output.
    pub fn on_output(&mut self, reason: u16, payload: &[u8])
        ensures
            final(self)@ == old(self)@.with(Handover::Output(reason, payload@)),
    {
        self.outputs.push((reason, slice_to_vec(payload)));
        proof {
            assert(self@.outputs =~= old(self)@.outputs.push((reason, payload@)));
        }
    }

    /// Takes a report.
    pub fn on_report(&mut self, reason: u16, payload: &[u8])
        ensures
            final(self)@ == old(self)@.with(Handover::Report(reason, payload@)),
    {
        self.reports.push((reason, slice_to_vec(payload)));
        proof {
            assert(self@.reports =~= old(self)@.reports.push((reason, payload@)));
        }
    }

    /// Takes a finish, in place of an earlier one.
    pub fn on_finish(&mut self, reason: u16, payload: &[u8])
        ensures
            final(self)@ == old(self)@.with(Handover::Finish(reason, payload@)),
    {
        self.finish = (reason, slice_to_vec(payload));
    }
}

/// The digests of the outputs, in order.
pub open spec fn leaves_of(outputs: Seq<(u16, Seq<u8>)>) -> Seq<Seq<u8>> {
    outputs.map_values(|output: (u16, Seq<u8>)| keccak256_of(output.1))
}

/// The root of the tree over the outputs.
pub open spec fn outputs_root_of(outputs: Seq<(u16, Seq<u8>)>) -> Seq<u8> {
    merkle_root(leaves_of(outputs), HEIGHT as nat)
}

/// The digests of the payloads of the outputs, in order.
pub fn output_leaves(outputs: &Vec<Callback>) -> (leaves: Vec<[u8; 32]>)
    ensures
        digests(leaves@) == leaves_of(callbacks_view(outputs@)),
        leaves@.len() == outputs@.len(),
        forall|i: int|
            0 <= i < leaves@.len() ==> (#[trigger] leaves@[i])@ == keccak256_of(outputs@[i].1@),
{
    let mut leaves: Vec<[u8; 32]> = Vec::new();
    let mut i: usize = 0;
    while i < outputs.len()
        invariant
            i <= outputs@.len(),
            leaves@.len() == i,
            forall|k: int|
                0 <= k < i ==> (#[trigger] leaves@[k])@ == keccak256_of(outputs@[k].1@),
        decreases outputs@.len() - i,
    {
        leaves.push(keccak256(&outputs[i].1));
        i = i + 1;
    }
    proof {
        assert(digests(leaves@) =~= leaves_of(callbacks_view(outputs@)));
    }
    leaves
}

/// The root of the tree over the outputs.
pub fn outputs_root(outputs: &Vec<Callback>) -> (root: [u8; 32])
    requires
        outputs@.len() <= pow2(HEIGHT as nat),
    ensures
        root@ == outputs_root_of(callbacks_view(outputs@)),
{
    let leaves: Vec<[u8; 32]> = output_leaves(outputs);
    proof {
        assert(digests(leaves@).len() == outputs@.len());
    }
    match create_proofs(leaves, HEIGHT) {
        Ok((root, _)) => root,
        Err(_) => vstd::pervasive::unreached(),
    }
}

/// Whether the machine finished with `root`, the root over its outputs; otherwise the answer that
/// they are not proven.
pub fn check_outputs(root: &[u8], finish_payload: &[u8]) -> (result: Result<(), Response>)
    ensures
        result is Ok <==> root@ == finish_payload@,
        result matches Err(response) ==> response.is_error(
            INTERNAL_SERVER_ERROR,
            "outputs weren't proven successfully"@,
        ),
{
    if !same_bytes(root, finish_payload) {
        return Err(error_response(INTERNAL_SERVER_ERROR, "outputs weren't proven successfully"));
    }
    Ok(())
}

/// What a signature is bound to besides the outputs.
pub struct SigningRequest {
    pub ruleset: Vec<u8>,
    pub machine_hash: String,
    pub payload: Vec<u8>,
}

/// The bytes that are signed: the ruleset behind twelve zero bytes, the hash of the machine, the
/// digest of the payload it ran on and the root over the outputs.
pub open spec fn message_of(
    ruleset: Seq<u8>,
    machine_hash: Seq<u8>,
    payload_digest: Seq<u8>,
    outputs_root: Seq<u8>,
) -> Seq<u8> {
    Seq::new(12, |i: int| 0u8) + ruleset + machine_hash + payload_digest + outputs_root
}

/// Puts together the bytes that are signed.
pub fn assemble_message(
    ruleset: &[u8],
    machine_hash: &[u8],
    payload_digest: &[u8],
    outputs_root: &[u8],
) -> (message: Vec<u8>)
    ensures
        message@ == message_of(ruleset@, machine_hash@, payload_digest@, outputs_root@),
        message@ == Seq::new(12, |i: int| 0u8) + ruleset@ + machine_hash@ + payload_digest@
            + outputs_root@,
{
    let mut message: Vec<u8> = vec![0u8; 12];
    message.extend_from_slice(ruleset);
    message.extend_from_slice(machine_hash);
    message.extend_from_slice(payload_digest);
    message.extend_from_slice(outputs_root);
    proof {
        assert(message@ =~= message_of(ruleset@, machine_hash@, payload_digest@, outputs_root@));
    }
    message
}

/// The bytes that are signed for a run.
pub fn signed_message(request: &SigningRequest, outputs_root: &[u8]) -> (message: Vec<u8>)
    requires
        decoded(request.machine_hash@) is Some,
    ensures
        message@ == message_of(
            request.ruleset@,
            decoded(request.machine_hash@)->0,
            keccak256_of(request.payload@),
            outputs_root@,
        ),
{
    let machine_hash: Vec<u8> = match decode(request.machine_hash.as_str()) {
        Ok(bytes) => bytes,
        Err(_) => vstd::pervasive::unreached(),
    };
    let payload_digest: [u8; 32] = keccak256(&request.payload);
    assemble_message(&request.ruleset, &machine_hash, &payload_digest, outputs_root)
}

/// The members that every answer to a proven run has.
pub open spec fn callback_members(log: AdvanceLogView) -> Seq<(Seq<char>, Seq<char>)> {
    seq![
        ("outputs_callback_vector"@, callbacks_json(log.outputs)),
        ("reports_callback_vector"@, callbacks_json(log.reports)),
    ]
}

/// The body that answers a proven run without a signature.
pub open spec fn unsigned_body(log: AdvanceLogView) -> Seq<char> {
    object_json(callback_members(log))
}

/// The finish as a signed answer gives it: in full where the machine accepted the payload, its
/// payload alone where it did not.
pub open spec fn finish_json(finish: (u16, Seq<u8>), accepted: bool) -> Seq<char> {
    if accepted {
        callback_json(finish)
    } else {
        bytes_json(finish.1)
    }
}

/// The body that answers a proven run with a signature.
pub open spec fn signed_body(log: AdvanceLogView, accepted: bool, signature: Seq<u8>) -> Seq<char> {
    object_json(
        seq![("finish_callback"@, finish_json(log.finish, accepted))] + callback_members(log)
            + seq![("signature"@, string_json(encoded(signature)))],
    )
}

/// What to do when a run is over.
pub enum Conclusion {
    /// Answer this.
    Reply(Response),
    /// Sign this digest and answer with [`signed_response`].
    Sign([u8; 32]),
}

/// What to do when a run is over, with the body and the digest as plain sequences.
pub ghost enum ConclusionView {
    Reply { status: u16, body: Seq<char> },
    Sign(Seq<u8>),
}

impl View for Conclusion {
    type V = ConclusionView;

    open spec fn view(&self) -> ConclusionView {
        match self {
            Conclusion::Reply(response) => ConclusionView::Reply {
                status: response.status,
                body: response.body@,
            },
            Conclusion::Sign(digest) => ConclusionView::Sign(digest@),
        }
    }
}

/// What a signature is bound to besides the outputs, with texts and bytes as plain sequences.
pub ghost struct SigningView {
    pub ruleset: Seq<u8>,
    pub machine_hash: Seq<char>,
    pub payload: Seq<u8>,
}

impl View for SigningRequest {
    type V = SigningView;

    open spec fn view(&self) -> SigningView {
        SigningView {
            ruleset: self.ruleset@,
            machine_hash: self.machine_hash@,
            payload: self.payload@,
        }
    }
}

/// What a signature is bound to, where one is asked for.
pub open spec fn signing_view(signing: Option<&SigningRequest>) -> Option<SigningView> {
    match signing {
        Some(request) => Some(request@),
        None => None,
    }
}

/// How a run is concluded.
pub open spec fn conclusion_of(log: AdvanceLogView, signing: Option<SigningView>) -> ConclusionView {
    if outputs_root_of(log.outputs) != log.finish.1 {
        ConclusionView::Reply {
            status: INTERNAL_SERVER_ERROR,
            body: error_body("outputs weren't proven successfully"@),
        }
    } else {
        match signing {
            None => ConclusionView::Reply { status: OK, body: unsigned_body(log) },
            Some(request) => ConclusionView::Sign(
                sha256_of(
                    message_of(
                        request.ruleset,
                        decoded(request.machine_hash)->0,
                        keccak256_of(request.payload),
                        log.finish.1,
                    ),
                ),
            ),
        }
    }
}

fn unsigned_response(log: &AdvanceLog) -> (response: Response)
    ensures
        response.status == OK,
        response.body@ == unsigned_body(log@),
{
    let mut members: Vec<Member> = Vec::new();
    members.push(
        Member { key: "outputs_callback_vector", value: Field::Callbacks(&log.outputs) },
    );
    members.push(
        Member { key: "reports_callback_vector", value: Field::Callbacks(&log.reports) },
    );
    proof {
        lemma_member_order();
        assert(members_json(members@) =~= callback_members(log@));
    }
    Response { status: OK, body: object_text(&members) }
}

proof fn lemma_first_letter_precedes(left: Seq<char>, right: Seq<char>)
    requires
        left.len() > 0,
        right.len() > 0,
        left[0] < right[0],
    ensures
        precedes(left, right),
{
    assert(left.take(0) =~= right.take(0));
}

proof fn lemma_member_order()
    ensures
        precedes("finish_callback"@, "outputs_callback_vector"@),
        precedes("finish_callback"@, "reports_callback_vector"@),
        precedes("finish_callback"@, "signature"@),
        precedes("outputs_callback_vector"@, "reports_callback_vector"@),
        precedes("outputs_callback_vector"@, "signature"@),
        precedes("reports_callback_vector"@, "signature"@),
{
    reveal_strlit("finish_callback");
    reveal_strlit("outputs_callback_vector");
    reveal_strlit("reports_callback_vector");
    reveal_strlit("signature");
    lemma_first_letter_precedes("finish_callback"@, "outputs_callback_vector"@);
    lemma_first_letter_precedes("finish_callback"@, "reports_callback_vector"@);
    lemma_first_letter_precedes("finish_callback"@, "signature"@);
    lemma_first_letter_precedes("outputs_callback_vector"@, "reports_callback_vector"@);
    lemma_first_letter_precedes("outputs_callback_vector"@, "signature"@);
    lemma_first_letter_precedes("reports_callback_vector"@, "signature"@);
}

/// Concludes a run. Outputs that the finish does not prove are answered as an error. Proven ones
/// are answered at once, or after a signature where one is asked for.
pub fn conclude(log: &AdvanceLog, signing: Option<&SigningRequest>) -> (conclusion: Conclusion)
    requires
        log.outputs@.len() <= pow2(HEIGHT as nat),
        signing matches Some(request) ==> decoded(request.machine_hash@) is Some,
    ensures
        conclusion@ == conclusion_of(log@, signing_view(signing)),
        outputs_root_of(log@.outputs) != log@.finish.1 ==> (conclusion matches Conclusion::Reply(
            response,
        ) && response.is_error(INTERNAL_SERVER_ERROR, "outputs weren't proven successfully"@)),
        outputs_root_of(log@.outputs) == log@.finish.1 ==> match signing {
            None => conclusion matches Conclusion::Reply(response) && response.status == OK
                && response.body@ == unsigned_body(log@),
            Some(request) => conclusion matches Conclusion::Sign(digest) && digest@ == sha256_of(
                message_of(
                    request.ruleset@,
                    decoded(request.machine_hash@)->0,
                    keccak256_of(request.payload@),
                    log@.finish.1,
                ),
            ),
        },
{
    let root: [u8; 32] = outputs_root(&log.outputs);
    match check_outputs(&root, &log.finish.1) {
        Ok(()) => {},
        Err(response) => {
            return Conclusion::Reply(response);
        },
    }
    match signing {
        None => Conclusion::Reply(unsigned_response(log)),
        Some(request) => {
            let message: Vec<u8> = signed_message(request, &log.finish.1);
            Conclusion::Sign(sha256(&message))
        },
    }
}

/// The answer to a proven run, with the signature of the digest that [`conclude`] gave.
pub fn signed_response(log: &AdvanceLog, accepted: bool, signature: &[u8]) -> (response: Response)
    ensures
        response.status == OK,
        response.body@ == signed_body(log@, accepted, signature@),
{
    let signature_hex: String = encode(signature);
    let mut members: Vec<Member> = Vec::new();
    if accepted {
        members.push(Member { key: "finish_callback", value: Field::Callback(&log.finish) });
    } else {
        members.push(Member { key: "finish_callback", value: Field::Bytes(&log.finish.1) });
    }
    members.push(
        Member { key: "outputs_callback_vector", value: Field::Callbacks(&log.outputs) },
    );
    members.push(
        Member { key: "reports_callback_vector", value: Field::Callbacks(&log.reports) },
    );
    members.push(Member { key: "signature", value: Field::Text(signature_hex.as_str()) });
    proof {
        lemma_member_order();
        assert(members_json(members@) =~= seq![
            ("finish_callback"@, finish_json(log@.finish, accepted)),
        ] + callback_members(log@) + seq![("signature"@, string_json(encoded(signature@)))]);
    }
    Response { status: OK, body: object_text(&members) }
}

/// A log holds exactly the outputs and exactly the reports that were handed over, each in order.
pub proof fn law_log_keeps_order(items: Seq<Handover>)
    ensures
        AdvanceLogView::of(items).outputs == items.filter_map(
            |item: Handover|
                match item {
                    Handover::Output(reason, payload) => Some((reason, payload)),
                    _ => None,
                },
        ),
        AdvanceLogView::of(items).reports == items.filter_map(
            |item: Handover|
                match item {
                    Handover::Report(reason, payload) => Some((reason, payload)),
                    _ => None,
                },
        ),
    decreases items.len(),
{
    reveal(Seq::filter_map);
    if items.len() > 0 {
        law_log_keeps_order(items.drop_last());
    }
}

/// A log keeps the last finish: nothing but another finish replaces it.
pub proof fn law_log_keeps_last_finish(before: Seq<Handover>, finish: Handover, after: Seq<Handover>)
    requires
        finish is Finish,
        forall|i: int| 0 <= i < after.len() ==> !((#[trigger] after[i]) is Finish),
    ensures
        AdvanceLogView::of(before.push(finish) + after).finish == (finish->Finish_0, finish->Finish_1),
    decreases after.len(),
{
    let all = before.push(finish) + after;
    if after.len() == 0 {
        assert(all =~= before.push(finish));
        assert(all.drop_last() =~= before);
    } else {
        let rest = after.drop_last();
        assert forall|i: int| 0 <= i < rest.len() implies !((#[trigger] rest[i]) is Finish) by {
            assert(rest[i] == after[i]);
        }
        law_log_keeps_last_finish(before, finish, rest);
        assert(all.drop_last() =~= before.push(finish) + rest);
        assert(!(after[after.len() - 1] is Finish));
    }
}

/// The signed bytes of a ruleset, the hash of a machine and two digests are 128 bytes, and they
/// determine all four parts.
pub proof fn law_message_determines_parts(
    ruleset: Seq<u8>,
    machine_hash: Seq<u8>,
    payload_digest: Seq<u8>,
    outputs_root: Seq<u8>,
    other: (Seq<u8>, Seq<u8>, Seq<u8>, Seq<u8>),
)
    requires
        ruleset.len() == 20 && other.0.len() == 20,
        machine_hash.len() == 32 && other.1.len() == 32,
        payload_digest.len() == 32 && other.2.len() == 32,
        outputs_root.len() == 32 && other.3.len() == 32,
    ensures
        message_of(ruleset, machine_hash, payload_digest, outputs_root).len() == 128,
        message_of(ruleset, machine_hash, payload_digest, outputs_root) == message_of(
            other.0,
            other.1,
            other.2,
            other.3,
        ) ==> (ruleset, machine_hash, payload_digest, outputs_root) == other,
{
    let mine = message_of(ruleset, machine_hash, payload_digest, outputs_root);
    let theirs = message_of(other.0, other.1, other.2, other.3);
    if mine == theirs {
        assert(mine.subrange(12, 32) =~= ruleset);
        assert(theirs.subrange(12, 32) =~= other.0);
        assert(mine.subrange(32, 64) =~= machine_hash);
        assert(theirs.subrange(32, 64) =~= other.1);
        assert(mine.subrange(64, 96) =~= payload_digest);
        assert(theirs.subrange(64, 96) =~= other.2);
        assert(mine.subrange(96, 128) =~= outputs_root);
        assert(theirs.subrange(96, 128) =~= other.3);
    }
}

/// Every output has one leaf, in the order in which the outputs came, and the leaf is the digest of
/// the payload: another output adds another leaf at the end, and nothing else changes.
pub proof fn law_leaves_follow_outputs(outputs: Seq<(u16, Seq<u8>)>, more: (u16, Seq<u8>))
    ensures
        leaves_of(outputs).len() == outputs.len(),
        forall|i: int|
            0 <= i < outputs.len() ==> #[trigger] leaves_of(outputs)[i] == keccak256_of(
                outputs[i].1,
            ),
        leaves_of(outputs.push(more)) == leaves_of(outputs).push(keccak256_of(more.1)),
{
    assert(leaves_of(outputs.push(more)) =~= leaves_of(outputs).push(keccak256_of(more.1)));
}

/// The root over the outputs is that of the tree of height 63 whose first leaves are the digests of
/// the payloads, in order. It does not depend on the reasons.
pub proof fn law_outputs_root_is_over_all_leaves(
    outputs: Seq<(u16, Seq<u8>)>,
    leaves: Seq<Seq<u8>>,
)
    requires
        leaves.len() == outputs.len(),
        forall|i: int|
            0 <= i < leaves.len() ==> #[trigger] leaves[i] == keccak256_of(outputs[i].1),
    ensures
        outputs_root_of(outputs) == merkle_root(leaves, 63),
        leaves.len() <= pow2(62) ==> outputs_root_of(outputs) == keccak256_of(
            merkle_root(leaves, 62) + merkle_root(Seq::empty(), 62),
        ),
{
    assert(leaves_of(outputs) =~= leaves);
    if leaves.len() <= pow2(62) {
        law_root_of_halves(leaves, Seq::empty(), 62);
        assert(leaves + Seq::empty() =~= leaves);
    }
}

/// Where every part has its length, each stands whole at its place in the signed bytes: twelve zero
/// bytes, the ruleset, the hash of the machine, the digest of the payload and the root.
pub proof fn law_message_holds_parts_in_place(
    ruleset: Seq<u8>,
    machine_hash: Seq<u8>,
    payload_digest: Seq<u8>,
    outputs_root: Seq<u8>,
)
    requires
        ruleset.len() == 20,
        machine_hash.len() == 32,
        payload_digest.len() == 32,
        outputs_root.len() == 32,
    ensures
        ({
            let message = message_of(ruleset, machine_hash, payload_digest, outputs_root);
            &&& message.len() == 128
            &&& forall|i: int| 0 <= i < 12 ==> #[trigger] message[i] == 0
            &&& message.subrange(12, 32) == ruleset
            &&& message.subrange(32, 64) == machine_hash
            &&& message.subrange(64, 96) == payload_digest
            &&& message.subrange(96, 128) == outputs_root
        }),
{
    let message = message_of(ruleset, machine_hash, payload_digest, outputs_root);
    assert(message.subrange(12, 32) =~= ruleset);
    assert(message.subrange(32, 64) =~= machine_hash);
    assert(message.subrange(64, 96) =~= payload_digest);
    assert(message.subrange(96, 128) =~= outputs_root);
}

/// Whatever the lengths of the parts, the signed bytes are as many as the parts have and twelve
/// more. The parts stand in them one behind the other, none cut and none turned.
pub proof fn law_message_holds_parts_in_order(
    ruleset: Seq<u8>,
    machine_hash: Seq<u8>,
    payload_digest: Seq<u8>,
    outputs_root: Seq<u8>,
)
    ensures
        ({
            let message = message_of(ruleset, machine_hash, payload_digest, outputs_root);
            let a = 12 + ruleset.len() as int;
            let b = a + machine_hash.len();
            let c = b + payload_digest.len();
            let d = c + outputs_root.len();
            &&& message.len() == d
            &&& forall|i: int| 0 <= i < 12 ==> #[trigger] message[i] == 0
            &&& message.subrange(12, a) == ruleset
            &&& message.subrange(a, b) == machine_hash
            &&& message.subrange(b, c) == payload_digest
            &&& message.subrange(c, d) == outputs_root
        }),
{
    let message = message_of(ruleset, machine_hash, payload_digest, outputs_root);
    let a = 12 + ruleset.len() as int;
    let b = a + machine_hash.len();
    let c = b + payload_digest.len();
    let d = c + outputs_root.len();
    assert(message.subrange(12, a) =~= ruleset);
    assert(message.subrange(a, b) =~= machine_hash);
    assert(message.subrange(b, c) =~= payload_digest);
    assert(message.subrange(c, d) =~= outputs_root);
}

/// The signed bytes name the machine as its hash is written: encoding them gives back the hash.
pub proof fn law_message_names_machine(
    ruleset: Seq<u8>,
    machine_hash: Seq<char>,
    payload_digest: Seq<u8>,
    outputs_root: Seq<u8>,
)
    requires
        decoded(machine_hash) is Some,
    ensures
        ({
            let bytes = decoded(machine_hash)->0;
            let message = message_of(ruleset, bytes, payload_digest, outputs_root);
            let start = 12 + ruleset.len() as int;
            encoded(message.subrange(start, start + bytes.len())) == lower_case(machine_hash)
        }),
{
    law_message_holds_parts_in_order(
        ruleset,
        decoded(machine_hash)->0,
        payload_digest,
        outputs_root,
    );
    law_encode_of_decode(machine_hash);
}

proof fn lemma_members_are_quoted()
    ensures
        string_json("finish_callback"@).push(':') == "\"finish_callback\":"@,
        string_json("outputs_callback_vector"@).push(':') == "\"outputs_callback_vector\":"@,
        string_json("reports_callback_vector"@).push(':') == "\"reports_callback_vector\":"@,
        string_json("signature"@).push(':') == "\"signature\":"@,
{
    reveal_strlit("finish_callback");
    reveal_strlit("outputs_callback_vector");
    reveal_strlit("reports_callback_vector");
    reveal_strlit("signature");
    reveal_strlit("\"finish_callback\":");
    reveal_strlit("\"outputs_callback_vector\":");
    reveal_strlit("\"reports_callback_vector\":");
    reveal_strlit("\"signature\":");
    law_plain_text_is_quoted("finish_callback"@);
    law_plain_text_is_quoted("outputs_callback_vector"@);
    law_plain_text_is_quoted("reports_callback_vector"@);
    law_plain_text_is_quoted("signature"@);
    assert(string_json("finish_callback"@).push(':') =~= "\"finish_callback\":"@);
    assert(string_json("outputs_callback_vector"@).push(':') =~= "\"outputs_callback_vector\":"@);
    assert(string_json("reports_callback_vector"@).push(':') =~= "\"reports_callback_vector\":"@);
    assert(string_json("signature"@).push(':') =~= "\"signature\":"@);
}

proof fn lemma_signature_is_quoted(signature: Seq<u8>)
    ensures
        string_json(encoded(signature)) == "\""@ + encoded(signature) + "\""@,
{
    reveal_strlit("\"");
    let text = encoded(signature);
    assert forall|i: int| 0 <= i < text.len() implies #[trigger] text[i] >= ' ' && text[i] != '"'
        && text[i] != '\\' by {
        let byte = signature[i / 2] as int;
        assert(text[i] == digit(byte / 16) || text[i] == digit(byte % 16));
    }
    law_plain_text_is_quoted(text);
    assert(string_json(text) =~= "\""@ + text + "\""@);
}

proof fn lemma_regroup(a: Seq<char>, b: Seq<char>, c: Seq<char>)
    ensures
        a + b + c == a + (b + c),
{
    assert(a + b + c =~= a + (b + c));
}

proof fn lemma_listed_two(a: Seq<char>, b: Seq<char>)
    ensures
        listed(seq![a, b]) == a + ","@ + b,
{
    reveal_strlit(",");
    assert(seq![a, b].drop_last() =~= seq![a]);
    assert(listed(seq![a]) == a);
    assert(a.push(',') =~= a + ","@);
}

proof fn lemma_listed_four(a: Seq<char>, b: Seq<char>, c: Seq<char>, d: Seq<char>)
    ensures
        listed(seq![a, b, c, d]) == a + ","@ + b + ","@ + c + ","@ + d,
{
    reveal_strlit(",");
    lemma_listed_two(a, b);
    let two = a + ","@ + b;
    let three = two + ","@ + c;
    assert(seq![a, b, c].drop_last() =~= seq![a, b]);
    assert(two.push(',') =~= two + ","@);
    assert(listed(seq![a, b, c]) == three);
    assert(seq![a, b, c, d].drop_last() =~= seq![a, b, c]);
    assert(three.push(',') =~= three + ","@);
}

/// The members of an unsigned answer, in the order in which they are written.
proof fn lemma_unsigned_body(log: AdvanceLogView)
    ensures
        unsigned_body(log) == "{"@ + ("\"outputs_callback_vector\":"@ + callbacks_json(log.outputs)
            + ","@ + ("\"reports_callback_vector\":"@ + callbacks_json(log.reports))) + "}"@,
{
    lemma_members_are_quoted();
    let f = |member: (Seq<char>, Seq<char>)| string_json(member.0).push(':') + member.1;
    let outputs = "\"outputs_callback_vector\":"@ + callbacks_json(log.outputs);
    let reports = "\"reports_callback_vector\":"@ + callbacks_json(log.reports);
    assert(callback_members(log).map_values(f) =~= seq![outputs, reports]);
    lemma_listed_two(outputs, reports);
    lemma_braces();
}

proof fn lemma_braces()
    ensures
        "{"@ == seq!['{'],
        "}"@ == seq!['}'],
{
    reveal_strlit("{");
    reveal_strlit("}");
    assert("{"@ =~= seq!['{']);
    assert("}"@ =~= seq!['}']);
}

/// The members of a signed answer, in the order in which they are written.
proof fn lemma_signed_body(log: AdvanceLogView, accepted: bool, signature: Seq<u8>)
    ensures
        signed_body(log, accepted, signature) == "{"@ + (("\"finish_callback\":"@ + finish_json(
            log.finish,
            accepted,
        )) + ","@ + ("\"outputs_callback_vector\":"@ + callbacks_json(log.outputs)) + ","@ + (
        "\"reports_callback_vector\":"@ + callbacks_json(log.reports)) + ","@ + (
        "\"signature\":"@ + ("\""@ + encoded(signature) + "\""@))) + "}"@,
{
    lemma_members_are_quoted();
    lemma_signature_is_quoted(signature);
    let f = |member: (Seq<char>, Seq<char>)| string_json(member.0).push(':') + member.1;
    let finish = "\"finish_callback\":"@ + finish_json(log.finish, accepted);
    let outputs = "\"outputs_callback_vector\":"@ + callbacks_json(log.outputs);
    let reports = "\"reports_callback_vector\":"@ + callbacks_json(log.reports);
    let signed = "\"signature\":"@ + ("\""@ + encoded(signature) + "\""@);
    let members = seq![("finish_callback"@, finish_json(log.finish, accepted))] + callback_members(
        log,
    ) + seq![("signature"@, string_json(encoded(signature)))];
    assert(members.map_values(f) =~= seq![finish, outputs, reports, signed]);
    lemma_listed_four(finish, outputs, reports, signed);
    lemma_braces();
}

proof fn lemma_joined_literals()
    ensures
        "{"@ + "\"outputs_callback_vector\":"@ == "{\"outputs_callback_vector\":"@,
        ","@ + "\"reports_callback_vector\":"@ == ",\"reports_callback_vector\":"@,
        "{"@ + "\"finish_callback\":"@ == "{\"finish_callback\":"@,
        ","@ + "\"outputs_callback_vector\":"@ == ",\"outputs_callback_vector\":"@,
        ","@ + "\"signature\":"@ + "\""@ == ",\"signature\":\""@,
        "\""@ + "}"@ == "\"}"@,
{
    reveal_strlit("{");
    reveal_strlit("}");
    reveal_strlit(",");
    reveal_strlit("\"");
    reveal_strlit("\"}");
    reveal_strlit("\"finish_callback\":");
    reveal_strlit("\"outputs_callback_vector\":");
    reveal_strlit("\"reports_callback_vector\":");
    reveal_strlit("\"signature\":");
    reveal_strlit("{\"finish_callback\":");
    reveal_strlit("{\"outputs_callback_vector\":");
    reveal_strlit(",\"outputs_callback_vector\":");
    reveal_strlit(",\"reports_callback_vector\":");
    reveal_strlit(",\"signature\":\"");
    assert("{"@ + "\"outputs_callback_vector\":"@ =~= "{\"outputs_callback_vector\":"@);
    assert(","@ + "\"reports_callback_vector\":"@ =~= ",\"reports_callback_vector\":"@);
    assert("{"@ + "\"finish_callback\":"@ =~= "{\"finish_callback\":"@);
    assert(","@ + "\"outputs_callback_vector\":"@ =~= ",\"outputs_callback_vector\":"@);
    assert(","@ + "\"signature\":"@ + "\""@ =~= ",\"signature\":\""@);
    assert("\""@ + "}"@ =~= "\"}"@);
}

proof fn lemma_regroup_members(
    open: Seq<char>,
    first_key: Seq<char>,
    first: Seq<char>,
    comma: Seq<char>,
    second_key: Seq<char>,
    second: Seq<char>,
)
    ensures
        open + (first_key + first + comma + (second_key + second)) == (open + first_key) + first + (
        comma + second_key) + second,
{
    lemma_regroup(open, first_key + first + comma, second_key + second);
    lemma_regroup(open, first_key + first, comma);
    lemma_regroup(open, first_key, first);
    let front = open + first_key + first;
    lemma_regroup(front + comma, second_key, second);
    lemma_regroup(front, comma, second_key);
}

/// An unsigned answer is an object of two members, the outputs and the reports of the run, each
/// list in full and in order.
pub proof fn law_unsigned_answer_gives_callbacks(log: AdvanceLogView)
    ensures
        unsigned_body(log) == "{\"outputs_callback_vector\":"@ + callbacks_json(log.outputs)
            + ",\"reports_callback_vector\":"@ + callbacks_json(log.reports) + "}"@,
{
    lemma_unsigned_body(log);
    lemma_joined_literals();
    lemma_regroup_members(
        "{"@,
        "\"outputs_callback_vector\":"@,
        callbacks_json(log.outputs),
        ","@,
        "\"reports_callback_vector\":"@,
        callbacks_json(log.reports),
    );
}

/// A signed answer keeps what the unsigned one says: the finish is put in front of its members and
/// the signature, in lower-case hexadecimal, behind them. The finish is given in full where the
/// machine accepted the payload, and by its payload alone where it did not.
pub proof fn law_signed_answer_extends_unsigned(
    log: AdvanceLogView,
    accepted: bool,
    signature: Seq<u8>,
)
    ensures
        ({
            let unsigned = unsigned_body(log);
            let finish = if accepted {
                callback_json(log.finish)
            } else {
                bytes_json(log.finish.1)
            };
            signed_body(log, accepted, signature) == "{\"finish_callback\":"@ + finish + ","@
                + unsigned.subrange(1, unsigned.len() - 1) + ",\"signature\":\""@ + encoded(
                signature,
            ) + "\"}"@
        }),
        signed_body(log, accepted, signature) == "{\"finish_callback\":"@ + (if accepted {
            callback_json(log.finish)
        } else {
            bytes_json(log.finish.1)
        }) + ",\"outputs_callback_vector\":"@ + callbacks_json(log.outputs)
            + ",\"reports_callback_vector\":"@ + callbacks_json(log.reports) + ",\"signature\":\""@
            + encoded(signature) + "\"}"@,
{
    lemma_signed_body(log, accepted, signature);
    lemma_unsigned_body(log);
    lemma_joined_literals();
    let finish = finish_json(log.finish, accepted);
    let outputs = callbacks_json(log.outputs);
    let reports = callbacks_json(log.reports);
    let text = encoded(signature);
    let finish_key = "\"finish_callback\":"@;
    let outputs_key = "\"outputs_callback_vector\":"@;
    let reports_key = "\"reports_callback_vector\":"@;
    let signature_key = "\"signature\":"@;
    let quote = "\""@;
    let comma = ","@;
    let both = outputs_key + outputs + comma + (reports_key + reports);
    let unsigned = unsigned_body(log);
    assert(unsigned.subrange(1, unsigned.len() - 1) == both) by {
        lemma_braces();
        assert(("{"@ + both + "}"@).subrange(1, (both.len() + 1) as int) =~= both);
    }

    // The finish with the brace before it, and the two lists behind it.
    let front = "{"@ + finish_key + finish;
    let head = finish_key + finish + comma;
    lemma_regroup(head, outputs_key + outputs, comma);
    lemma_regroup(head, outputs_key + outputs + comma, reports_key + reports);
    let tail = signature_key + (quote + text + quote);
    lemma_regroup("{"@, head + both + comma, tail);
    lemma_regroup("{"@, head + both, comma);
    lemma_regroup("{"@, head, both);
    lemma_regroup("{"@, finish_key + finish, comma);
    lemma_regroup("{"@, finish_key, finish);
    lemma_regroup(head + (outputs_key + outputs), comma, reports_key + reports);

    // The signature with the comma and the quotation mark before it, and the end behind it.
    let middle = front + comma + both;
    lemma_regroup(quote, text, quote);
    lemma_regroup(middle + comma, signature_key, quote + text + quote);
    lemma_regroup(middle + comma + signature_key, quote, text + quote);
    lemma_regroup(middle, comma, signature_key);
    lemma_regroup(middle, comma + signature_key, quote);
    let marked = middle + (comma + signature_key + quote);
    lemma_regroup(marked, text, quote);
    lemma_regroup(marked + text, quote, "}"@);

    // The two lists, each with the comma before its key.
    lemma_regroup(front, comma, both);
    lemma_regroup(front + comma, outputs_key + outputs + comma, reports_key + reports);
    lemma_regroup_members(front + comma, outputs_key, outputs, comma, reports_key, reports);
    lemma_regroup(front, comma, outputs_key);
}

proof fn lemma_equal_behind(front: Seq<char>, left: Seq<char>, right: Seq<char>)
    requires
        front + left == front + right,
    ensures
        left == right,
{
    assert((front + left).skip(front.len() as int) =~= left);
    assert((front + right).skip(front.len() as int) =~= right);
}

proof fn lemma_regroup_five(a: Seq<char>, b: Seq<char>, c: Seq<char>, d: Seq<char>, e: Seq<char>)
    ensures
        a + b + c + d + e == a + (b + (c + (d + e))),
{
    assert(a + b + c + d + e =~= a + (b + (c + (d + e))));
}

/// An unsigned answer can be read back: runs that differ in an output or in a report are answered
/// differently.
pub proof fn law_unsigned_answers_tell_apart(left: AdvanceLogView, right: AdvanceLogView)
    requires
        unsigned_body(left) == unsigned_body(right),
    ensures
        left.outputs == right.outputs,
        left.reports == right.reports,
{
    law_unsigned_answer_gives_callbacks(left);
    law_unsigned_answer_gives_callbacks(right);
    let front = "{\"outputs_callback_vector\":"@;
    let middle = ",\"reports_callback_vector\":"@;
    let left_end = callbacks_json(left.reports) + "}"@;
    let right_end = callbacks_json(right.reports) + "}"@;
    let left_rest = middle + left_end;
    let right_rest = middle + right_end;
    lemma_regroup_five(
        front,
        callbacks_json(left.outputs),
        middle,
        callbacks_json(left.reports),
        "}"@,
    );
    lemma_regroup_five(
        front,
        callbacks_json(right.outputs),
        middle,
        callbacks_json(right.reports),
        "}"@,
    );
    lemma_equal_behind(
        front,
        callbacks_json(left.outputs) + left_rest,
        callbacks_json(right.outputs) + right_rest,
    );
    law_callbacks_tell_apart(left.outputs, right.outputs, left_rest, right_rest);
    lemma_equal_behind(middle, left_end, right_end);
    law_callbacks_tell_apart(left.reports, right.reports, "}"@, "}"@);
}

/// A signed answer can be read back: runs that differ in an output, in a report, in their
/// signatures or in the payload of their finish are answered differently. So are accepted runs
/// that differ in the reason of their finish.
pub proof fn law_signed_answers_tell_apart(
    left: AdvanceLogView,
    right: AdvanceLogView,
    accepted: bool,
    left_signature: Seq<u8>,
    right_signature: Seq<u8>,
)
    requires
        signed_body(left, accepted, left_signature) == signed_body(
            right,
            accepted,
            right_signature,
        ),
    ensures
        left.outputs == right.outputs,
        left.reports == right.reports,
        left.finish.1 == right.finish.1,
        accepted ==> left.finish.0 == right.finish.0,
        left_signature == right_signature,
{
    law_signed_answer_extends_unsigned(left, accepted, left_signature);
    law_signed_answer_extends_unsigned(right, accepted, right_signature);
    let one = "{\"finish_callback\":"@;
    let two = ",\"outputs_callback_vector\":"@;
    let three = ",\"reports_callback_vector\":"@;
    let four = ",\"signature\":\""@;
    let end = "\"}"@;
    let left_four = four + (encoded(left_signature) + end);
    let right_four = four + (encoded(right_signature) + end);
    let left_three = three + (callbacks_json(left.reports) + left_four);
    let right_three = three + (callbacks_json(right.reports) + right_four);
    let left_two = two + (callbacks_json(left.outputs) + left_three);
    let right_two = two + (callbacks_json(right.outputs) + right_three);
    let left_finish = finish_json(left.finish, accepted);
    let right_finish = finish_json(right.finish, accepted);
    lemma_regroup_five(
        one + left_finish + two + callbacks_json(left.outputs),
        three,
        callbacks_json(left.reports),
        four,
        encoded(left_signature) + end,
    );
    lemma_regroup_five(one, left_finish, two, callbacks_json(left.outputs), left_three);
    lemma_regroup_five(
        one + right_finish + two + callbacks_json(right.outputs),
        three,
        callbacks_json(right.reports),
        four,
        encoded(right_signature) + end,
    );
    lemma_regroup_five(one, right_finish, two, callbacks_json(right.outputs), right_three);
    lemma_regroup(
        one + left_finish + two + callbacks_json(left.outputs) + three + callbacks_json(
            left.reports,
        ) + four,
        encoded(left_signature),
        end,
    );
    lemma_regroup(
        one + right_finish + two + callbacks_json(right.outputs) + three + callbacks_json(
            right.reports,
        ) + four,
        encoded(right_signature),
        end,
    );
    lemma_equal_behind(one, left_finish + left_two, right_finish + right_two);
    if accepted {
        law_callback_tells_apart(left.finish, right.finish, left_two, right_two);
    } else {
        law_bytes_tell_apart(left.finish.1, right.finish.1, left_two, right_two);
    }
    lemma_equal_behind(
        two,
        callbacks_json(left.outputs) + left_three,
        callbacks_json(right.outputs) + right_three,
    );
    law_callbacks_tell_apart(left.outputs, right.outputs, left_three, right_three);
    lemma_equal_behind(
        three,
        callbacks_json(left.reports) + left_four,
        callbacks_json(right.reports) + right_four,
    );
    law_callbacks_tell_apart(left.reports, right.reports, left_four, right_four);
    lemma_equal_behind(four, encoded(left_signature) + end, encoded(right_signature) + end);
    let count = encoded(left_signature).len() as int;
    assert((encoded(left_signature) + end).take(count) =~= encoded(left_signature));
    assert((encoded(right_signature) + end).take(count) =~= encoded(right_signature));
    law_decode_of_encode(left_signature);
    law_decode_of_encode(right_signature);
}

/// A run that never finishes counts as finished with reason zero and one zero byte, whatever else
/// it hands over.
pub proof fn law_log_without_finish(items: Seq<Handover>)
    requires
        forall|i: int| 0 <= i < items.len() ==> !((#[trigger] items[i]) is Finish),
    ensures
        AdvanceLogView::of(items).finish == (0u16, seq![0u8]),
    decreases items.len(),
{
    if items.len() > 0 {
        let front = items.drop_last();
        assert forall|i: int| 0 <= i < front.len() implies !((#[trigger] front[i]) is Finish) by {
            assert(front[i] == items[i]);
        }
        law_log_without_finish(front);
        assert(!(items[items.len() - 1] is Finish));
    }
}

/// The view of a log keeps every callback in its list and at its place, with its reason and every
/// byte of its payload.
pub proof fn law_log_view_is_whole(log: AdvanceLog)
    ensures
        log@.outputs.len() == log.outputs@.len(),
        log@.reports.len() == log.reports@.len(),
        forall|i: int|
            0 <= i < log.outputs@.len() ==> #[trigger] log@.outputs[i] == (
                log.outputs@[i].0,
                log.outputs@[i].1@,
            ),
        forall|i: int|
            0 <= i < log.reports@.len() ==> #[trigger] log@.reports[i] == (
                log.reports@[i].0,
                log.reports@[i].1@,
            ),
        log@.finish == (log.finish.0, log.finish.1@),
{
}

/// A run is proven exactly where it finishes with the root of the tree of height 63 over the
/// digests of its outputs, in the order in which they came. A run that is not proven is answered
/// as an error, whether or not a signature is asked for. A proven one is answered at once with its
/// outputs and reports. Where a signature is asked for, what is signed is the digest of the
/// ruleset behind twelve zero bytes, the hash of the machine, the digest of the payload and the
/// root.
pub proof fn law_how_runs_are_concluded(
    log: AdvanceLogView,
    leaves: Seq<Seq<u8>>,
    request: SigningView,
    machine: Seq<u8>,
    message: Seq<u8>,
)
    requires
        leaves.len() == log.outputs.len(),
        forall|i: int|
            0 <= i < leaves.len() ==> #[trigger] leaves[i] == keccak256_of(log.outputs[i].1),
        decoded(request.machine_hash) == Some(machine),
        forall|i: int| 0 <= i < 12 ==> #[trigger] message[i] == 0,
        ({
            let digest = keccak256_of(request.payload);
            let a = 12 + request.ruleset.len() as int;
            let b = a + machine.len();
            let c = b + digest.len();
            &&& message.len() == c + log.finish.1.len()
            &&& message.subrange(12, a) == request.ruleset
            &&& message.subrange(a, b) == machine
            &&& message.subrange(b, c) == digest
            &&& message.skip(c) == log.finish.1
        }),
    ensures
        log.finish.1 != merkle_root(leaves, 63) ==> {
            &&& conclusion_of(log, None) == (ConclusionView::Reply {
                status: 500,
                body: "{\"error\":\"outputs weren't proven successfully\"}"@,
            })
            &&& conclusion_of(log, Some(request)) == conclusion_of(log, None)
        },
        log.finish.1 == merkle_root(leaves, 63) ==> {
            &&& conclusion_of(log, None) == (ConclusionView::Reply {
                status: 200,
                body: "{\"outputs_callback_vector\":"@ + callbacks_json(log.outputs)
                    + ",\"reports_callback_vector\":"@ + callbacks_json(log.reports) + "}"@,
            })
            &&& conclusion_of(log, Some(request)) == ConclusionView::Sign(sha256_of(message))
        },
{
    law_outputs_root_is_over_all_leaves(log.outputs, leaves);
    law_unsigned_answer_gives_callbacks(log);
    let words = "outputs weren't proven successfully"@;
    let body = "{\"error\":\"outputs weren't proven successfully\"}"@;
    assert(error_body(words) == body) by {
        reveal_strlit("outputs weren't proven successfully");
        reveal_strlit("{\"error\":\"outputs weren't proven successfully\"}");
        reveal_strlit("{\"error\":\"");
        reveal_strlit("\"}");
        law_plain_messages_stand_as_they_are(words);
        assert(error_body(words) =~= body);
    }
    let digest = keccak256_of(request.payload);
    let whole = message_of(request.ruleset, machine, digest, log.finish.1);
    law_message_holds_parts_in_order(request.ruleset, machine, digest, log.finish.1);
    let a = 12 + request.ruleset.len() as int;
    let b = a + machine.len();
    let c = b + digest.len();
    assert forall|i: int| 0 <= i < message.len() implies #[trigger] message[i] == whole[i] by {
        if 12 <= i < a {
            assert(message.subrange(12, a)[i - 12] == whole.subrange(12, a)[i - 12]);
        } else if a <= i < b {
            assert(message.subrange(a, b)[i - a] == whole.subrange(a, b)[i - a]);
        } else if b <= i < c {
            assert(message.subrange(b, c)[i - b] == whole.subrange(b, c)[i - b]);
        } else if c <= i {
            assert(message.skip(c)[i - c] == whole.subrange(c, whole.len() as int)[i - c]);
        }
    }
    assert(message =~= whole);
}

/// The views of a conclusion and of what a signature is bound to keep every byte and every text.
pub proof fn law_conclusion_views_are_whole(conclusion: Conclusion, request: &SigningRequest)
    ensures
        match conclusion {
            Conclusion::Reply(response) => conclusion@ == (ConclusionView::Reply {
                status: response.status,
                body: response.body@,
            }),
            Conclusion::Sign(digest) => conclusion@ == ConclusionView::Sign(digest@),
        },
        request@.ruleset == request.ruleset@,
        request@.machine_hash == request.machine_hash@,
        request@.payload == request.payload@,
        signing_view(Some(request)) == Some(request@),
        signing_view(None) is None,
{
}

} // verus!
