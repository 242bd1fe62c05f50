use fos_microkernel::mailbox::{MailboxError, MBOX_TAG_ALLOCATE_BUFFER, MBOX_TAG_GET_PITCH};
use fos_microkernel::negotiate::{
    build_display_request, fallback_config, find_tag_payload, interpret_response, negotiate_config,
    parse_negotiated, DisplayProfile, PixelOrder,
};

fn test_profile() -> DisplayProfile {
    DisplayProfile {
        width: 800,
        height: 600,
        depth: 32,
        alignment: 16,
        order: PixelOrder::Rgba,
        fallback_address: 0x4000_0000,
        fallback_pitch: 3200,
        fallback_bytes_per_pixel: 4,
    }
}

/// The request buffer as the firmware would hand it back: the address
/// written into the allocate tag's first value word, the pitch into
/// the pitch tag's value word.
fn answered_request(raw_address: u32, pitch: u32) -> Vec<u32> {
    let mut words = build_display_request(&test_profile()).to_words();
    // Tag layout: header 0..2, sizes 5+5+4+5+4 words, end tag last.
    assert_eq!(words[16], MBOX_TAG_ALLOCATE_BUFFER);
    words[19] = raw_address;
    assert_eq!(words[21], MBOX_TAG_GET_PITCH);
    words[24] = pitch;
    words
}

#[test]
fn gpu_bus_alias_bits_are_masked_off() {
    let words = answered_request(0xC012_3450, 3200);
    let config = negotiate_config(&test_profile(), Ok(()), &words);
    assert_eq!(config.address, 0x0012_3450);
    assert_eq!(config.pitch, 3200);
    assert_eq!(config.width, 800);
    assert_eq!(config.height, 600);
}

#[test]
fn zero_address_yields_the_fallback_triple() {
    let profile = test_profile();
    let words = answered_request(0x0000_0000, 9999);
    let config = negotiate_config(&profile, Ok(()), &words);
    assert_eq!(config.address, 0x4000_0000);
    assert_eq!(config.pitch, 3200);
    assert_eq!(config.bytes_per_pixel, 4);
}

#[test]
fn masked_zero_address_also_falls_back() {
    // Only alias bits set: the CPU-physical address is zero.
    let profile = test_profile();
    let words = answered_request(0xC000_0000, 9999);
    let config = negotiate_config(&profile, Ok(()), &words);
    assert_eq!(config, fallback_config(&profile));
}

#[test]
fn failed_send_yields_the_fallback_triple() {
    let profile = test_profile();
    let config = negotiate_config(&profile, Err(MailboxError::FirmwareError), &Vec::new());
    assert_eq!(config, fallback_config(&profile));
    let config2 = negotiate_config(&profile, Err(MailboxError::AlignmentError), &Vec::new());
    assert_eq!(config2, fallback_config(&profile));
}

#[test]
fn unparseable_response_yields_the_fallback_triple() {
    let profile = test_profile();
    let config = negotiate_config(&profile, Ok(()), &vec![104, 0x8000_0000, 0]);
    assert_eq!(config, fallback_config(&profile));
}

#[test]
fn bytes_per_pixel_derives_from_the_pitch() {
    let profile = test_profile();
    let packed = interpret_response(&profile, 0x100000, 1600);
    assert_eq!(packed.bytes_per_pixel, 2);
    let wide = interpret_response(&profile, 0x100000, 3200);
    assert_eq!(wide.bytes_per_pixel, 4);
    let padded = interpret_response(&profile, 0x100000, 3264);
    assert_eq!(padded.bytes_per_pixel, 4);
}

#[test]
fn tag_walk_finds_each_value_word() {
    let words = answered_request(0xC012_3450, 1600);
    assert_eq!(find_tag_payload(&words, MBOX_TAG_ALLOCATE_BUFFER), Some(19));
    assert_eq!(find_tag_payload(&words, MBOX_TAG_GET_PITCH), Some(24));
    assert_eq!(find_tag_payload(&words, 0x1234_5678), None);
    assert_eq!(parse_negotiated(&words), Some((0xC012_3450, 1600)));
}

#[test]
fn truncated_response_parses_to_nothing() {
    let mut words = answered_request(0xC012_3450, 1600);
    words.truncate(18);
    assert_eq!(parse_negotiated(&words), None);
}

#[test]
fn request_carries_the_profile_parameters() {
    let profile = test_profile();
    let words = build_display_request(&profile).to_words();
    // Physical size tag.
    assert_eq!(words[2], 0x0004_8003);
    assert_eq!(words[5], 800);
    assert_eq!(words[6], 600);
    // Virtual size tag.
    assert_eq!(words[7], 0x0004_8004);
    // Depth tag.
    assert_eq!(words[12], 0x0004_8005);
    assert_eq!(words[15], 32);
    // Allocate tag with its alignment and reserved response words.
    assert_eq!(words[16], 0x0004_0001);
    assert_eq!(words[19], 16);
    assert_eq!(words[20], 0);
    // Pitch query.
    assert_eq!(words[21], 0x0004_0008);
    assert_eq!(words[24], 0);
}
