use machine_operator::classic::{
    assemble_message, check_outputs, conclude, output_leaves, outputs_root, signed_message, signed_response,
    AdvanceLog, Conclusion, SigningRequest,
};

const HELLO: &str = "1c8aff950685c2ed4bc3174f3472287b56d9517b9c948127319a09a7a36deac8";
const NO_OUTPUTS_ROOT: &str = "0a162946e56158bac0673e6dd3bdfdc1e4a0e7744a120fdb640050c8d7abe1c6";
const HELLO_ROOT: &str = "670c5332b66dc0d192188efa99826ce9dc7b1b1dc7628e8d080ea1a34a13fcb8";
const NOT_PROVEN: &str = "{\"error\":\"outputs weren't proven successfully\"}";

fn bytes(text: &str) -> Vec<u8> {
    hex::decode(text).unwrap()
}

fn hello_log() -> AdvanceLog {
    let mut log = AdvanceLog::new();
    log.on_output(2, b"hello");
    log.on_finish(1, &bytes(HELLO_ROOT));
    log
}

fn request() -> SigningRequest {
    SigningRequest {
        ruleset: (0..20).collect(),
        machine_hash: "ab".repeat(32),
        payload: b"payload".to_vec(),
    }
}

fn reply(conclusion: Conclusion) -> (u16, String) {
    match conclusion {
        Conclusion::Reply(response) => (response.status, response.body),
        Conclusion::Sign(_) => panic!("a signature is asked for"),
    }
}

#[test]
fn a_log_starts_without_a_finish() {
    let log = AdvanceLog::new();
    assert!(log.outputs.is_empty());
    assert!(log.reports.is_empty());
    assert_eq!(log.finish, (0, vec![0]));
}

#[test]
fn a_log_keeps_order_and_the_last_finish() {
    let mut log = AdvanceLog::new();
    log.on_output(2, b"a");
    log.on_report(4, b"r");
    log.on_finish(1, b"first");
    log.on_output(2, b"b");
    log.on_finish(3, b"last");
    log.on_report(4, b"s");
    assert_eq!(log.outputs, vec![(2, b"a".to_vec()), (2, b"b".to_vec())]);
    assert_eq!(log.reports, vec![(4, b"r".to_vec()), (4, b"s".to_vec())]);
    assert_eq!(log.finish, (3, b"last".to_vec()));
}

#[test]
fn leaves_are_digests_of_payloads() {
    let leaves = output_leaves(&vec![(7, b"hello".to_vec()), (9, b"hello".to_vec())]);
    assert_eq!(leaves.len(), 2);
    assert_eq!(hex::encode(leaves[0]), HELLO);
    assert_eq!(leaves[0], leaves[1]);
}

#[test]
fn roots_of_outputs() {
    assert_eq!(hex::encode(outputs_root(&vec![])), NO_OUTPUTS_ROOT);
    assert_eq!(hex::encode(outputs_root(&vec![(2, b"hello".to_vec())])), HELLO_ROOT);
}

#[test]
fn outputs_are_proven_by_their_root_alone() {
    assert!(check_outputs(&[1, 2], &[1, 2]).is_ok());
    let response = check_outputs(&[1, 2], &[1, 2, 0]).unwrap_err();
    assert_eq!(response.status, 500);
    assert_eq!(response.body, NOT_PROVEN);
}

#[test]
fn a_run_without_a_finish_is_not_proven() {
    assert_eq!(reply(conclude(&AdvanceLog::new(), None)), (500, NOT_PROVEN.to_string()));
}

#[test]
fn a_finish_for_other_outputs_proves_nothing() {
    let mut log = hello_log();
    log.on_output(2, b"more");
    assert_eq!(reply(conclude(&log, None)), (500, NOT_PROVEN.to_string()));
    assert_eq!(reply(conclude(&log, Some(&request()))), (500, NOT_PROVEN.to_string()));
}

#[test]
fn a_proven_run_without_outputs() {
    let mut log = AdvanceLog::new();
    log.on_finish(1, &bytes(NO_OUTPUTS_ROOT));
    let body = "{\"outputs_callback_vector\":[],\"reports_callback_vector\":[]}";
    assert_eq!(reply(conclude(&log, None)), (200, body.to_string()));
}

#[test]
fn a_proven_run_with_callbacks() {
    let mut log = hello_log();
    log.on_report(65535, &[]);
    log.on_report(4, &[0, 10, 255]);
    let body = "{\"outputs_callback_vector\":[[2,[104,101,108,108,111]]],\
                \"reports_callback_vector\":[[65535,[]],[4,[0,10,255]]]}";
    assert_eq!(reply(conclude(&log, None)), (200, body.to_string()));
}

#[test]
fn the_message_that_is_signed() {
    let message = signed_message(&request(), &bytes(HELLO_ROOT));
    let mut expected = vec![0u8; 12];
    expected.extend(0..20u8);
    expected.extend(vec![0xab; 32]);
    let mut hasher = alloy_primitives::utils::Keccak256::new();
    hasher.update(b"payload");
    expected.extend(hasher.finalize().0);
    expected.extend(bytes(HELLO_ROOT));
    assert_eq!(message.len(), 128);
    assert_eq!(message, expected);
}

#[test]
fn the_parts_of_a_message() {
    let message = assemble_message(&[1; 20], &[2; 32], &[3; 32], &[4; 32]);
    assert_eq!(message.len(), 128);
    assert_eq!(message[..12], [0; 12]);
    assert_eq!(message[12..32], [1; 20]);
    assert_eq!(message[32..64], [2; 32]);
    assert_eq!(message[64..96], [3; 32]);
    assert_eq!(message[96..], [4; 32]);
}

#[test]
fn the_digest_that_is_signed() {
    match conclude(&hello_log(), Some(&request())) {
        Conclusion::Sign(digest) => assert_eq!(
            hex::encode(digest),
            "a1807d0cacc08b03f66430e7818ee63449015e5b20e243d6954b40b63a8460c9"
        ),
        Conclusion::Reply(_) => panic!("answered without a signature"),
    }
}

#[test]
fn a_signed_answer_to_an_accepted_payload() {
    let mut log = AdvanceLog::new();
    log.on_output(2, &[1]);
    log.on_finish(1, &[7, 8]);
    let response = signed_response(&log, true, &[0x0a, 0xff]);
    assert_eq!(response.status, 200);
    assert_eq!(
        response.body,
        "{\"finish_callback\":[1,[7,8]],\"outputs_callback_vector\":[[2,[1]]],\
         \"reports_callback_vector\":[],\"signature\":\"0aff\"}"
    );
}

#[test]
fn a_signed_answer_to_a_refused_payload() {
    let mut log = AdvanceLog::new();
    log.on_finish(2, &[7, 8]);
    let response = signed_response(&log, false, &[]);
    assert_eq!(
        response.body,
        "{\"finish_callback\":[7,8],\"outputs_callback_vector\":[],\
         \"reports_callback_vector\":[],\"signature\":\"\"}"
    );
}
