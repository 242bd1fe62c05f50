use fos_microkernel::mailbox::{
    send_outcome, MailboxError, MailboxMessage, SendAction, SendMachine, SendPhase, Tag,
    MBOX_RESPONSE_SUCCESS,
};
use fos_microkernel::negotiate::{build_display_request, DisplayProfile, PixelOrder};

fn test_profile() -> DisplayProfile {
    DisplayProfile {
        width: 800,
        height: 600,
        depth: 32,
        alignment: 16,
        order: PixelOrder::Rgba,
        fallback_address: 0x4000_0000,
        fallback_pitch: 3200,
        fallback_bytes_per_pixel: 4,
    }
}

#[test]
fn total_size_is_exact_serialized_length() {
    let msg = build_display_request(&test_profile());
    let words = msg.to_words();
    assert_eq!(msg.buffer_size as usize, 4 * words.len());
    // Header (2 words) + five tags (5 + 5 + 4 + 5 + 4 words) + end tag.
    assert_eq!(words.len(), 26);
    assert_eq!(msg.buffer_size, 104);
    assert_eq!(words[0], 104);
    assert_eq!(words[1], 0);
    assert_eq!(words[25], 0);
}

#[test]
fn total_size_is_exact_for_other_tag_runs() {
    let tags = vec![
        Tag { id: 7, value_buffer_size: 4, request_response_code: 0, payload: vec![1] },
        Tag { id: 9, value_buffer_size: 12, request_response_code: 0, payload: vec![2, 3, 4] },
    ];
    let msg = MailboxMessage::new(tags).unwrap();
    let words = msg.to_words();
    // 2 header words, 3 + 1 and 3 + 3 tag words, 1 end tag.
    assert_eq!(words.len(), 2 + 4 + 6 + 1);
    assert_eq!(msg.buffer_size as usize, 4 * words.len());
}

#[test]
fn empty_tag_run_serializes_to_header_and_end_tag() {
    let msg = MailboxMessage::new(Vec::new()).unwrap();
    let words = msg.to_words();
    assert_eq!(words.len(), 3);
    assert_eq!(msg.buffer_size, 12);
}

#[test]
fn misaligned_send_fails_before_any_hardware_action() {
    let m = SendMachine::start(0x2000_0008);
    assert_eq!(m.outcome(), Some(Err(MailboxError::AlignmentError)));
    assert!(matches!(m.next_action(), SendAction::Finish(Err(MailboxError::AlignmentError))));

    // The replay consumes no hardware response at all.
    let replies = vec![0xAAAA_AAA8u32];
    let r = send_outcome(0x2000_0008, &replies, MBOX_RESPONSE_SUCCESS);
    assert_eq!(r, Some((Err(MailboxError::AlignmentError), 0)));
}

#[test]
fn aligned_send_submits_address_with_channel_bits() {
    let mut m = SendMachine::start(0x2000_0010);
    assert!(matches!(m.next_action(), SendAction::PollStatus));
    m.on_status(true);
    assert!(matches!(m.next_action(), SendAction::PollStatus));
    m.on_status(false);
    match m.next_action() {
        SendAction::WriteRequest(w) => assert_eq!(w, 0x2000_0010 | 8),
        _ => panic!("expected a write of the request word"),
    }
}

#[test]
fn mismatched_channel_reply_is_discarded_not_an_error() {
    let mut m = SendMachine::start(0x2000_0020);
    m.on_status(false);
    m.on_submitted();
    // A word for channel 3 keeps the machine polling.
    m.on_reply(0xDEAD_BEE3);
    assert!(matches!(m.phase, SendPhase::AwaitReply));
    assert_eq!(m.outcome(), None);
    // The word for channel 8 moves on to the code check.
    m.on_reply(0xDEAD_BEE8);
    assert!(matches!(m.phase, SendPhase::CheckCode));
    m.on_code(MBOX_RESPONSE_SUCCESS);
    assert_eq!(m.outcome(), Some(Ok(())));
}

#[test]
fn replay_waits_through_foreign_channel_words() {
    let replies = vec![0x0000_0003u32, 0x0000_0001, 0x1234_5678];
    let r = send_outcome(0x2000_0030, &replies, MBOX_RESPONSE_SUCCESS);
    assert_eq!(r, Some((Ok(()), 3)));
}

#[test]
fn replay_without_matching_reply_never_returns() {
    let replies = vec![0x0000_0003u32, 0x0000_0001, 0x0000_000F];
    let r = send_outcome(0x2000_0040, &replies, MBOX_RESPONSE_SUCCESS);
    assert_eq!(r, None);
}

#[test]
fn firmware_failure_code_reports_firmware_error() {
    let replies = vec![0x0000_0008u32];
    let r = send_outcome(0x2000_0050, &replies, 0x8000_0001);
    assert_eq!(r, Some((Err(MailboxError::FirmwareError), 1)));
    let r2 = send_outcome(0x2000_0050, &replies, 0);
    assert_eq!(r2, Some((Err(MailboxError::FirmwareError), 1)));
}
