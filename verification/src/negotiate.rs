//! Display negotiation over the mailbox property channel.
//!
//! The negotiator builds one request carrying the five display tags,
//! has it sent over the mailbox, and turns the outcome into a
//! `DisplayConfig`.  GPU-returned addresses carry bus-alias bits in the
//! top of the word, which are masked off before the address is used;
//! a failed exchange, a malformed response, or a zero address falls
//! back to the profile's known-good triple instead of panicking.

use vstd::prelude::*;
use crate::mailbox::{
    MailboxError, MailboxMessage, Tag, words_for_bytes, tags_words, lemma_tags_words_push,
    MBOX_TAG_SET_PHYSICAL_DISPLAY_SIZE, MBOX_TAG_SET_VIRTUAL_DISPLAY_SIZE, MBOX_TAG_SET_DEPTH,
    MBOX_TAG_ALLOCATE_BUFFER, MBOX_TAG_GET_PITCH, MBOX_REQUEST,
};

verus! {

/// Bits of a GPU-returned framebuffer address that survive masking:
/// the top two bits only signal a cache-aliased bus view.
pub const ADDRESS_MASK: u32 = 0x3FFF_FFFF;

/// Component order of the 4-byte pixel format.
///
/// Which order the hardware expects is a property of the target,
/// carried in the profile, not a universal constant.
#[derive(Clone, Copy, PartialEq, Eq, Structural, Debug)]
pub enum PixelOrder {
    /// Blue, green, red, alpha at consecutive byte offsets.
    Bgra,
    /// Red, green, blue, alpha at consecutive byte offsets.
    Rgba,
}

/// Target-specific constants that parameterize one negotiation.
#[derive(Clone, Copy, PartialEq, Eq, Structural, Debug)]
pub struct DisplayProfile {
    /// Requested display width in pixels.
    pub width: u32,
    /// Requested display height in pixels.
    pub height: u32,
    /// Requested depth in bits per pixel: 16 or 32.
    pub depth: u32,
    /// Required alignment of the allocated framebuffer.
    pub alignment: u32,
    /// Component order of the 4-byte format on this target.
    pub order: PixelOrder,
    /// Framebuffer address used when negotiation fails.
    pub fallback_address: u32,
    /// Row pitch used when negotiation fails.
    pub fallback_pitch: u32,
    /// Bytes per pixel used when negotiation fails.
    pub fallback_bytes_per_pixel: u32,
}

/// The negotiated result: everything the framebuffer needs to address
/// its memory.  Computed once; immutable afterwards.
#[derive(Clone, Copy, PartialEq, Eq, Structural, Debug)]
pub struct DisplayConfig {
    /// CPU-physical base address of the pixel memory.
    pub address: usize,
    /// Byte stride between consecutive rows; may exceed
    /// `width * bytes_per_pixel` through alignment padding.
    pub pitch: u32,
    /// Width in pixels.
    pub width: u32,
    /// Height in pixels.
    pub height: u32,
    /// 2 for the packed 16-bit format, 4 for the 32-bit format.
    pub bytes_per_pixel: u32,
    /// Component order of the 4-byte format.
    pub order: PixelOrder,
}

impl DisplayConfig {
    /// Whether a surface of this shape can be addressed safely: a known
    /// pixel size, rows wide enough for every pixel, a byte count that
    /// fits the address space, and dimensions within the signed
    /// coordinate range of the drawing interface.
    pub open spec fn renderable(self) -> bool {
        &&& (self.bytes_per_pixel == 2 || self.bytes_per_pixel == 4)
        &&& self.width * self.bytes_per_pixel <= self.pitch
        &&& self.height * self.pitch <= usize::MAX
        &&& self.width <= i32::MAX
        &&& self.height <= i32::MAX
    }

    /// Checks `renderable` on a concrete configuration.
    pub fn is_renderable(&self) -> (r: bool)
        ensures
            r == self.renderable(),
    {
        let w = self.width as u64;
        let b = self.bytes_per_pixel as u64;
        let h = self.height as u64;
        let p = self.pitch as u64;
        proof {
            assert(w * b < 0x1_0000_0000_0000_0000 && h * p < 0x1_0000_0000_0000_0000)
                by (nonlinear_arith)
                requires
                    w < 0x1_0000_0000,
                    b < 0x1_0000_0000,
                    h < 0x1_0000_0000,
                    p < 0x1_0000_0000,
            ;
        }
        (self.bytes_per_pixel == 2 || self.bytes_per_pixel == 4) && w * b <= p && h * p
            <= usize::MAX as u64 && self.width <= i32::MAX as u32 && self.height <= i32::MAX as u32
    }
}

/// The configuration a failed or degenerate negotiation falls back to.
pub open spec fn spec_fallback_config(p: DisplayProfile) -> DisplayConfig {
    DisplayConfig {
        address: p.fallback_address as usize,
        pitch: p.fallback_pitch,
        width: p.width,
        height: p.height,
        bytes_per_pixel: p.fallback_bytes_per_pixel,
        order: p.order,
    }
}

/// Bytes per pixel derived from the effective pitch.
///
/// The mailbox protocol does not echo the negotiated depth back in a
/// reusable form, so the format is inferred: a pitch of exactly two
/// bytes per pixel means the packed 16-bit format, anything else is
/// taken as the 32-bit format.  This is a heuristic, not firmware
/// ground truth.
pub open spec fn spec_derive_bytes_per_pixel(width: u32, pitch: u32) -> u32 {
    if pitch == 2 * width {
        2
    } else {
        4
    }
}

/// What the negotiator concludes from a finished exchange: the raw
/// address is masked to its CPU-physical form, and a masked address of
/// zero — an observed allocation-failure mode — falls back to the
/// profile triple rather than trusting the zero.
pub open spec fn spec_interpret(p: DisplayProfile, raw_address: u32, pitch: u32) -> DisplayConfig {
    if raw_address & ADDRESS_MASK == 0 {
        spec_fallback_config(p)
    } else {
        DisplayConfig {
            address: (raw_address & ADDRESS_MASK) as usize,
            pitch,
            width: p.width,
            height: p.height,
            bytes_per_pixel: spec_derive_bytes_per_pixel(p.width, pitch),
            order: p.order,
        }
    }
}

/// The whole negotiation outcome: a failed send, and a response the
/// address and pitch cannot be read from, both fall back; otherwise
/// the exchange is interpreted as `spec_interpret`.
pub open spec fn spec_negotiate(
    p: DisplayProfile,
    send_result: Result<(), MailboxError>,
    response_words: Seq<u32>,
) -> DisplayConfig {
    match send_result {
        Err(_) => spec_fallback_config(p),
        Ok(_) => match spec_parse_negotiated(response_words) {
            None => spec_fallback_config(p),
            Some(pair) => spec_interpret(p, pair.0, pair.1),
        },
    }
}

/// Walks the tag run of a response buffer from word `p`, looking for
/// `id`; yields the index of that tag's first value word.  The walk
/// ends at the zero end tag or at a truncated buffer.
pub open spec fn spec_find_payload(words: Seq<u32>, p: int, id: u32) -> Option<int>
    decreases words.len() - p,
{
    if p < 0 || p + 3 > words.len() {
        None
    } else if words[p] == 0 {
        None
    } else if words[p] == id {
        Some(p + 3)
    } else if p + 3 + words_for_bytes(words[p + 1]) > words.len() {
        None
    } else {
        spec_find_payload(words, p + 3 + words_for_bytes(words[p + 1]), id)
    }
}

/// The address and pitch read back from a response buffer: the first
/// value word of the allocate-buffer tag and of the get-pitch tag.
pub open spec fn spec_parse_negotiated(words: Seq<u32>) -> Option<(u32, u32)> {
    match (
        spec_find_payload(words, 2, MBOX_TAG_ALLOCATE_BUFFER),
        spec_find_payload(words, 2, MBOX_TAG_GET_PITCH),
    ) {
        (Some(a), Some(g)) => {
            if a < words.len() && g < words.len() {
                Some((words[a], words[g]))
            } else {
                None
            }
        },
        _ => None,
    }
}

/// Finds the first value word of the tag `tag_id` in a response buffer.
pub fn find_tag_payload(words: &Vec<u32>, tag_id: u32) -> (r: Option<usize>)
    ensures
        match r {
            Some(i) => spec_find_payload(words@, 2, tag_id) == Some(i as int),
            None => spec_find_payload(words@, 2, tag_id) is None,
        },
{
    let n = words.len();
    let mut p: usize = 2;
    loop
        invariant
            2 <= p,
            n == words@.len(),
            spec_find_payload(words@, 2, tag_id) == spec_find_payload(words@, p as int, tag_id),
        decreases words@.len() - p,
    {
        if p > n || n - p < 3 {
            return None;
        }
        let id = words[p];
        if id == 0 {
            return None;
        }
        if id == tag_id {
            return Some(p + 3);
        }
        let size = words[p + 1];
        let step: u64 = 3 + ((size as u64 + 3) / 4);
        if step > (n - p) as u64 {
            return None;
        }
        p = p + step as usize;
    }
}

/// Reads the negotiated raw address and pitch out of a response buffer,
/// or nothing when either tag is missing or its value word truncated.
pub fn parse_negotiated(words: &Vec<u32>) -> (r: Option<(u32, u32)>)
    ensures
        r == spec_parse_negotiated(words@),
{
    let alloc = find_tag_payload(words, MBOX_TAG_ALLOCATE_BUFFER);
    let pitch = find_tag_payload(words, MBOX_TAG_GET_PITCH);
    match (alloc, pitch) {
        (Some(a), Some(g)) => {
            if a < words.len() && g < words.len() {
                Some((words[a], words[g]))
            } else {
                None
            }
        },
        _ => None,
    }
}

/// Builds the one request message of a display negotiation: physical
/// size, virtual size, depth, allocate (with two value words reserved
/// for the returned address and size), and pitch query, in that order.
pub fn build_display_request(profile: &DisplayProfile) -> (m: MailboxMessage)
    ensures
        m.size_exact(),
        m.request_response_code == MBOX_REQUEST,
        m.tags@.len() == 5,
        m.tags@[0].id == MBOX_TAG_SET_PHYSICAL_DISPLAY_SIZE,
        m.tags@[0].payload@ == seq![profile.width, profile.height],
        m.tags@[1].id == MBOX_TAG_SET_VIRTUAL_DISPLAY_SIZE,
        m.tags@[1].payload@ == seq![profile.width, profile.height],
        m.tags@[2].id == MBOX_TAG_SET_DEPTH,
        m.tags@[2].payload@ == seq![profile.depth],
        m.tags@[3].id == MBOX_TAG_ALLOCATE_BUFFER,
        m.tags@[3].payload@ == seq![profile.alignment, 0u32],
        m.tags@[4].id == MBOX_TAG_GET_PITCH,
        m.tags@[4].payload@ == seq![0u32],
        forall|i: int| 0 <= i < 5 ==> (#[trigger] m.tags@[i]).wf(),
        forall|i: int| 0 <= i < 5 ==> (#[trigger] m.tags@[i]).request_response_code == 0,
{
    let mut tags: Vec<Tag> = Vec::new();

    let mut physical: Vec<u32> = Vec::new();
    physical.push(profile.width);
    physical.push(profile.height);
    tags.push(Tag {
        id: MBOX_TAG_SET_PHYSICAL_DISPLAY_SIZE,
        value_buffer_size: 8,
        request_response_code: 0,
        payload: physical,
    });

    let mut virtual_size: Vec<u32> = Vec::new();
    virtual_size.push(profile.width);
    virtual_size.push(profile.height);
    tags.push(Tag {
        id: MBOX_TAG_SET_VIRTUAL_DISPLAY_SIZE,
        value_buffer_size: 8,
        request_response_code: 0,
        payload: virtual_size,
    });

    let mut depth: Vec<u32> = Vec::new();
    depth.push(profile.depth);
    tags.push(Tag {
        id: MBOX_TAG_SET_DEPTH,
        value_buffer_size: 4,
        request_response_code: 0,
        payload: depth,
    });

    let mut allocate: Vec<u32> = Vec::new();
    allocate.push(profile.alignment);
    allocate.push(0);
    tags.push(Tag {
        id: MBOX_TAG_ALLOCATE_BUFFER,
        value_buffer_size: 8,
        request_response_code: 0,
        payload: allocate,
    });

    let mut pitch: Vec<u32> = Vec::new();
    pitch.push(0);
    tags.push(Tag {
        id: MBOX_TAG_GET_PITCH,
        value_buffer_size: 4,
        request_response_code: 0,
        payload: pitch,
    });

    proof {
        let ts = tags@;
        assert(ts[0].payload@ =~= seq![profile.width, profile.height]);
        assert(ts[1].payload@ =~= seq![profile.width, profile.height]);
        assert(ts[2].payload@ =~= seq![profile.depth]);
        assert(ts[3].payload@ =~= seq![profile.alignment, 0u32]);
        assert(ts[4].payload@ =~= seq![0u32]);
        lemma_tags_words_push(ts.subrange(0, 0), ts[0]);
        lemma_tags_words_push(ts.subrange(0, 1), ts[1]);
        lemma_tags_words_push(ts.subrange(0, 2), ts[2]);
        lemma_tags_words_push(ts.subrange(0, 3), ts[3]);
        lemma_tags_words_push(ts.subrange(0, 4), ts[4]);
        assert(ts.subrange(0, 0).push(ts[0]) =~= ts.subrange(0, 1));
        assert(ts.subrange(0, 1).push(ts[1]) =~= ts.subrange(0, 2));
        assert(ts.subrange(0, 2).push(ts[2]) =~= ts.subrange(0, 3));
        assert(ts.subrange(0, 3).push(ts[3]) =~= ts.subrange(0, 4));
        assert(ts.subrange(0, 4).push(ts[4]) =~= ts);
        assert(tags_words(ts.subrange(0, 0)).len() == 0);
        assert(tags_words(ts).len() == 23);
    }
    let m = MailboxMessage::new(tags);
    match m {
        Some(msg) => msg,
        None => {
            // Five tags of at most two value words each cannot overrun
            // the u32 size field.
            proof {
                assert(false);
            }
            MailboxMessage {
                buffer_size: 0,
                request_response_code: MBOX_REQUEST,
                tags: Vec::new(),
            }
        },
    }
}

/// Turns a finished exchange into the effective configuration.
pub fn interpret_response(profile: &DisplayProfile, raw_address: u32, pitch: u32) -> (c:
    DisplayConfig)
    ensures
        c == spec_interpret(*profile, raw_address, pitch),
{
    let masked = raw_address & ADDRESS_MASK;
    if masked == 0 {
        fallback_config(profile)
    } else {
        DisplayConfig {
            address: masked as usize,
            pitch,
            width: profile.width,
            height: profile.height,
            bytes_per_pixel: if pitch as u64 == 2 * (profile.width as u64) {
                2
            } else {
                4
            },
            order: profile.order,
        }
    }
}

/// The profile's fallback triple as a configuration.
pub fn fallback_config(profile: &DisplayProfile) -> (c: DisplayConfig)
    ensures
        c == spec_fallback_config(*profile),
{
    DisplayConfig {
        address: profile.fallback_address as usize,
        pitch: profile.fallback_pitch,
        width: profile.width,
        height: profile.height,
        bytes_per_pixel: profile.fallback_bytes_per_pixel,
        order: profile.order,
    }
}

/// The negotiator's conclusion from a send outcome and the response
/// buffer: fall back on any failure, otherwise mask and check the
/// returned address and derive the pixel format from the pitch.
pub fn negotiate_config(
    profile: &DisplayProfile,
    send_result: Result<(), MailboxError>,
    response_words: &Vec<u32>,
) -> (c: DisplayConfig)
    ensures
        c == spec_negotiate(*profile, send_result, response_words@),
{
    match send_result {
        Err(_) => fallback_config(profile),
        Ok(_) => match parse_negotiated(response_words) {
            None => fallback_config(profile),
            Some((raw_address, pitch)) => interpret_response(profile, raw_address, pitch),
        },
    }
}

} // verus!
