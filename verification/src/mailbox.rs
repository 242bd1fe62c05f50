//! Mailbox command channel to the GPU firmware.
//!
//! A request is a 16-byte-aligned buffer of `u32` words: a header
//! (total byte size and a request/response code), an ordered run of
//! property tags, and a zero end tag.  Submitting it means writing the
//! buffer address, with the channel number in the low four bits, to the
//! write register, then reading response words until one for our channel
//! arrives; words for other channels are discarded, never an error.
//!
//! The polling loop itself needs the memory-mapped registers, so the
//! protocol is split: this module holds the decisions as an explicit
//! state machine with one step per hardware observation, and an outer
//! driver performs the register reads and writes that each step asks for.

use vstd::prelude::*;

verus! {

/// The property-tags channel from the ARM core to the video core.
pub const MAILBOX_CHANNEL_PROPERTY_TAGS_ARM_TO_VC: u32 = 8;

/// Property tag: set the physical display size.
pub const MBOX_TAG_SET_PHYSICAL_DISPLAY_SIZE: u32 = 0x0004_8003;
/// Property tag: set the virtual display size.
pub const MBOX_TAG_SET_VIRTUAL_DISPLAY_SIZE: u32 = 0x0004_8004;
/// Property tag: set the colour depth in bits per pixel.
pub const MBOX_TAG_SET_DEPTH: u32 = 0x0004_8005;
/// Property tag: allocate the framebuffer.
pub const MBOX_TAG_ALLOCATE_BUFFER: u32 = 0x0004_0001;
/// Property tag: query the row pitch in bytes.
pub const MBOX_TAG_GET_PITCH: u32 = 0x0004_0008;

/// Code of a buffer that has not been processed yet.
pub const MBOX_REQUEST: u32 = 0;
/// Code the firmware writes into the buffer when it processed the request.
pub const MBOX_RESPONSE_SUCCESS: u32 = 0x8000_0000;

/// How a mailbox transaction can fail.
///
/// An unaligned buffer is fatal to the attempt before any register is
/// touched; a firmware failure code arrives after a complete exchange.
#[derive(Clone, Copy, PartialEq, Eq, Structural, Debug)]
pub enum MailboxError {
    AlignmentError,
    FirmwareError,
}

/// One property tag: identifier, value buffer size in bytes, the
/// request/response code, and the value buffer itself in words.
#[derive(Debug)]
pub struct Tag {
    pub id: u32,
    pub value_buffer_size: u32,
    pub request_response_code: u32,
    pub payload: Vec<u32>,
}

/// Number of words that hold `bytes` bytes: the size rounded up to 4.
pub open spec fn words_for_bytes(bytes: u32) -> int {
    (bytes + 3) / 4
}

impl Tag {
    /// The payload carries exactly the declared value buffer, rounded up
    /// to whole words.
    pub open spec fn wf(self) -> bool {
        self.payload@.len() == words_for_bytes(self.value_buffer_size)
    }

    /// Wire form of one tag: three header words, then the value buffer.
    pub open spec fn words(self) -> Seq<u32> {
        seq![self.id, self.value_buffer_size, self.request_response_code] + self.payload@
    }
}

/// Wire form of a run of tags, in order.
pub open spec fn tags_words(tags: Seq<Tag>) -> Seq<u32>
    decreases tags.len(),
{
    if tags.len() == 0 {
        Seq::empty()
    } else {
        tags[0].words() + tags_words(tags.drop_first())
    }
}

/// Serializing one more tag appends exactly that tag's words.
pub proof fn lemma_tags_words_push(tags: Seq<Tag>, t: Tag)
    ensures
        tags_words(tags.push(t)) == tags_words(tags) + t.words(),
    decreases tags.len(),
{
    if tags.len() == 0 {
        assert(tags.push(t).drop_first() =~= Seq::<Tag>::empty());
        assert(tags.push(t)[0] == t);
        assert(tags_words(Seq::<Tag>::empty()) == Seq::<u32>::empty());
        assert(tags_words(tags.push(t)) == t.words() + Seq::<u32>::empty());
        assert(tags_words(tags.push(t)) =~= tags_words(tags) + t.words());
    } else {
        assert(tags.push(t).drop_first() =~= tags.drop_first().push(t));
        lemma_tags_words_push(tags.drop_first(), t);
        assert(tags_words(tags.push(t)) =~= tags_words(tags) + t.words());
    }
}

/// A mailbox message: the header words, the tags, and the zero end tag.
///
/// `buffer_size` is the byte length of the whole serialized buffer,
/// including itself; building a message computes it exactly.
#[derive(Debug)]
pub struct MailboxMessage {
    pub buffer_size: u32,
    pub request_response_code: u32,
    pub tags: Vec<Tag>,
}

impl MailboxMessage {
    /// Wire form: `buffer_size`, the code, every tag, then the end tag.
    pub open spec fn words(self) -> Seq<u32> {
        seq![self.buffer_size, self.request_response_code] + tags_words(self.tags@) + seq![0u32]
    }

    /// The recorded total size equals the exact serialized byte length.
    pub open spec fn size_exact(self) -> bool {
        self.buffer_size == 4 * self.words().len()
    }

    /// Builds a request message around `tags`, computing the total byte
    /// size of header, tags and end tag.  Returns `None` exactly when
    /// that size would not fit in the `u32` size field.
    pub fn new(tags: Vec<Tag>) -> (r: Option<MailboxMessage>)
        ensures
            match r {
                Some(m) => {
                    &&& m.tags == tags
                    &&& m.request_response_code == MBOX_REQUEST
                    &&& m.size_exact()
                    &&& 4 * m.words().len() <= u32::MAX
                },
                None => 4 * (3 + tags_words(tags@).len()) > u32::MAX,
            },
    {
        let mut words: u64 = 3;
        let ghost gtags = tags@;
        let mut i: usize = 0;
        while i < tags.len()
            invariant
                0 <= i <= tags@.len(),
                tags@ == gtags,
                words == 3 + tags_words(tags@.subrange(0, i as int)).len(),
                words <= 3 + 2 * (u32::MAX as u64),
            decreases tags@.len() - i,
        {
            proof {
                assert(tags@.subrange(0, i + 1) =~= tags@.subrange(0, i as int).push(tags@[i as int]));
                lemma_tags_words_push(tags@.subrange(0, i as int), tags@[i as int]);
            }
            let t_len = tags[i].payload.len();
            if t_len as u64 > u32::MAX as u64 || words > u32::MAX as u64 {
                // The running size already exceeds what the size field
                // can record; finishing the scan cannot shrink it.
                proof {
                    lemma_tags_words_prefix_len(tags@, i + 1);
                }
                return None;
            }
            words = words + 3 + t_len as u64;
            i = i + 1;
        }
        proof {
            assert(tags@.subrange(0, tags@.len() as int) =~= tags@);
        }
        if words > (u32::MAX / 4) as u64 {
            return None;
        }
        let m = MailboxMessage {
            buffer_size: (words as u32) * 4,
            request_response_code: MBOX_REQUEST,
            tags,
        };
        proof {
            assert(m.words().len() == 3 + tags_words(m.tags@).len());
        }
        Some(m)
    }

    /// Serializes the message to its wire words.
    pub fn to_words(&self) -> (r: Vec<u32>)
        ensures
            r@ == self.words(),
    {
        let mut out: Vec<u32> = Vec::new();
        out.push(self.buffer_size);
        out.push(self.request_response_code);
        let mut i: usize = 0;
        while i < self.tags.len()
            invariant
                0 <= i <= self.tags@.len(),
                out@ == seq![self.buffer_size, self.request_response_code] + tags_words(
                    self.tags@.subrange(0, i as int),
                ),
            decreases self.tags@.len() - i,
        {
            proof {
                assert(self.tags@.subrange(0, i + 1) =~= self.tags@.subrange(0, i as int).push(
                    self.tags@[i as int],
                ));
                lemma_tags_words_push(self.tags@.subrange(0, i as int), self.tags@[i as int]);
            }
            out.push(self.tags[i].id);
            out.push(self.tags[i].value_buffer_size);
            out.push(self.tags[i].request_response_code);
            let mut j: usize = 0;
            while j < self.tags[i].payload.len()
                invariant
                    0 <= i < self.tags@.len(),
                    0 <= j <= self.tags@[i as int].payload@.len(),
                    out@ == seq![self.buffer_size, self.request_response_code] + tags_words(
                        self.tags@.subrange(0, i as int),
                    ) + seq![
                        self.tags@[i as int].id,
                        self.tags@[i as int].value_buffer_size,
                        self.tags@[i as int].request_response_code,
                    ] + self.tags@[i as int].payload@.subrange(0, j as int),
                decreases self.tags@[i as int].payload@.len() - j,
            {
                out.push(self.tags[i].payload[j]);
                proof {
                    assert(self.tags@[i as int].payload@.subrange(0, j + 1)
                        =~= self.tags@[i as int].payload@.subrange(0, j as int).push(
                        self.tags@[i as int].payload@[j as int],
                    ));
                }
                j = j + 1;
            }
            proof {
                assert(self.tags@[i as int].payload@.subrange(
                    0,
                    self.tags@[i as int].payload@.len() as int,
                ) =~= self.tags@[i as int].payload@);
                assert(out@ =~= seq![self.buffer_size, self.request_response_code] + tags_words(
                    self.tags@.subrange(0, i + 1),
                ));
            }
            i = i + 1;
        }
        proof {
            assert(self.tags@.subrange(0, self.tags@.len() as int) =~= self.tags@);
        }
        out.push(0);
        proof {
            assert(out@ =~= self.words());
        }
        out
    }
}

/// A prefix of the tag run serializes to no more words than the whole.
proof fn lemma_tags_words_prefix_len(tags: Seq<Tag>, i: int)
    requires
        0 <= i <= tags.len(),
    ensures
        tags_words(tags.subrange(0, i)).len() <= tags_words(tags).len(),
    decreases tags.len() - i,
{
    if i < tags.len() {
        assert(tags.subrange(0, i + 1) =~= tags.subrange(0, i).push(tags[i]));
        lemma_tags_words_push(tags.subrange(0, i), tags[i]);
        lemma_tags_words_prefix_len(tags, i + 1);
    } else {
        assert(tags.subrange(0, i) =~= tags);
    }
}

/// Where the transmission stands.
pub enum SendPhase {
    /// Polling the status register until the outgoing queue has space.
    AwaitSpace,
    /// Space was seen; the request word must now be written.
    Submit,
    /// Request written; polling for response words.
    AwaitReply,
    /// A word for our channel arrived; the buffer's code field decides.
    CheckCode,
    /// The transaction is over with this outcome.
    Done(Result<(), MailboxError>),
}

/// The hardware step the driver must perform next.
pub enum SendAction {
    /// Read the status register and report whether the queue is full.
    PollStatus,
    /// Write this word to the write register.
    WriteRequest(u32),
    /// Wait until the incoming queue is not empty, then read one word.
    ReadReply,
    /// Read the request buffer's code field in place.
    InspectCode,
    /// Nothing more: the transaction ended with this outcome.
    Finish(Result<(), MailboxError>),
}

/// The send protocol for one request buffer, one observation at a time.
///
/// The driver alternates `next_action` with the step that reports what
/// the hardware showed; every decision the protocol makes is in the
/// step functions here.
pub struct SendMachine {
    pub addr: u32,
    pub phase: SendPhase,
}

/// The machine a fresh send starts in: waiting for queue space, unless
/// the buffer address is not 16-byte aligned, which ends the attempt at
/// once with `AlignmentError`.
pub open spec fn spec_start(addr: u32) -> SendMachine {
    SendMachine {
        addr,
        phase: if addr % 16 == 0 {
            SendPhase::AwaitSpace
        } else {
            SendPhase::Done(Err(MailboxError::AlignmentError))
        },
    }
}

/// The hardware action each phase calls for.
pub open spec fn spec_next_action(m: SendMachine) -> SendAction {
    match m.phase {
        SendPhase::AwaitSpace => SendAction::PollStatus,
        SendPhase::Submit => SendAction::WriteRequest(m.addr | MAILBOX_CHANNEL_PROPERTY_TAGS_ARM_TO_VC),
        SendPhase::AwaitReply => SendAction::ReadReply,
        SendPhase::CheckCode => SendAction::InspectCode,
        SendPhase::Done(r) => SendAction::Finish(r),
    }
}

/// Whether a response word belongs to our channel: its low four bits.
pub open spec fn spec_reply_is_ours(word: u32) -> bool {
    word & 0xF == MAILBOX_CHANNEL_PROPERTY_TAGS_ARM_TO_VC
}

/// A full queue keeps the machine polling; free space moves it on.
pub open spec fn spec_on_status(m: SendMachine, full: bool) -> SendMachine {
    SendMachine { addr: m.addr, phase: if full { SendPhase::AwaitSpace } else { SendPhase::Submit } }
}

/// A word for another channel is discarded and polling goes on; a word
/// for ours moves on to inspecting the buffer's code field.
pub open spec fn spec_on_reply(m: SendMachine, word: u32) -> SendMachine {
    SendMachine {
        addr: m.addr,
        phase: if spec_reply_is_ours(word) {
            SendPhase::CheckCode
        } else {
            SendPhase::AwaitReply
        },
    }
}

/// What the firmware's code field decides: the success sentinel means
/// the request went through; anything else is a firmware failure.
pub open spec fn spec_code_outcome(code: u32) -> Result<(), MailboxError> {
    if code == MBOX_RESPONSE_SUCCESS {
        Ok(())
    } else {
        Err(MailboxError::FirmwareError)
    }
}

impl SendMachine {
    /// Begins a send of the buffer at `addr`.
    pub fn start(addr: u32) -> (m: SendMachine)
        ensures
            m == spec_start(addr),
    {
        if addr % 16 == 0 {
            SendMachine { addr, phase: SendPhase::AwaitSpace }
        } else {
            SendMachine { addr, phase: SendPhase::Done(Err(MailboxError::AlignmentError)) }
        }
    }

    /// What the driver must do next.
    pub fn next_action(&self) -> (a: SendAction)
        ensures
            a == spec_next_action(*self),
    {
        match self.phase {
            SendPhase::AwaitSpace => SendAction::PollStatus,
            SendPhase::Submit => SendAction::WriteRequest(
                self.addr | MAILBOX_CHANNEL_PROPERTY_TAGS_ARM_TO_VC,
            ),
            SendPhase::AwaitReply => SendAction::ReadReply,
            SendPhase::CheckCode => SendAction::InspectCode,
            SendPhase::Done(r) => SendAction::Finish(r),
        }
    }

    /// Reports what the status register showed while waiting for space.
    pub fn on_status(&mut self, full: bool)
        requires
            old(self).phase == SendPhase::AwaitSpace,
        ensures
            *final(self) == spec_on_status(*old(self), full),
    {
        if !full {
            self.phase = SendPhase::Submit;
        }
    }

    /// Confirms that the request word was written to the write register.
    pub fn on_submitted(&mut self)
        requires
            old(self).phase == SendPhase::Submit,
        ensures
            *final(self) == (SendMachine { addr: old(self).addr, phase: SendPhase::AwaitReply }),
    {
        self.phase = SendPhase::AwaitReply;
    }

    /// Reports one word read from the read register.
    pub fn on_reply(&mut self, word: u32)
        requires
            old(self).phase == SendPhase::AwaitReply,
        ensures
            *final(self) == spec_on_reply(*old(self), word),
    {
        if word & 0xF == MAILBOX_CHANNEL_PROPERTY_TAGS_ARM_TO_VC {
            self.phase = SendPhase::CheckCode;
        }
    }

    /// Reports the code field the firmware left in the request buffer.
    pub fn on_code(&mut self, code: u32)
        requires
            old(self).phase == SendPhase::CheckCode,
        ensures
            *final(self) == (SendMachine {
                addr: old(self).addr,
                phase: SendPhase::Done(spec_code_outcome(code)),
            }),
    {
        if code == MBOX_RESPONSE_SUCCESS {
            self.phase = SendPhase::Done(Ok(()));
        } else {
            self.phase = SendPhase::Done(Err(MailboxError::FirmwareError));
        }
    }

    /// The outcome, once the machine is done.
    pub fn outcome(&self) -> (r: Option<Result<(), MailboxError>>)
        ensures
            r == match self.phase {
                SendPhase::Done(res) => Some(res),
                _ => None::<Result<(), MailboxError>>,
            },
    {
        match self.phase {
            SendPhase::Done(res) => Some(res),
            _ => None,
        }
    }
}

/// A misaligned buffer address ends the send before it begins: the
/// machine starts already finished with `AlignmentError`, and the only
/// action it ever directs is `Finish` — no register is read or written.
pub proof fn lemma_misaligned_send_touches_no_hardware(addr: u32)
    requires
        addr % 16 != 0,
    ensures
        spec_start(addr).phase == SendPhase::Done(Err(MailboxError::AlignmentError)),
        spec_next_action(spec_start(addr)) == SendAction::Finish(
            Err::<(), MailboxError>(MailboxError::AlignmentError),
        ),
{
}

/// A response word for a different channel is discarded: the machine
/// keeps waiting for a reply, does not finish, and reports no error.
pub proof fn lemma_foreign_reply_keeps_waiting(m: SendMachine, word: u32)
    requires
        m.phase == SendPhase::AwaitReply,
        !spec_reply_is_ours(word),
    ensures
        spec_on_reply(m, word).phase == SendPhase::AwaitReply,
        !(spec_on_reply(m, word).phase is Done),
{
}

/// The aligned request word keeps the buffer address intact above the
/// channel bits: 16-byte alignment leaves the low four bits free.
pub proof fn lemma_request_word_carries_address(addr: u32)
    requires
        addr % 16 == 0,
    ensures
        (addr | MAILBOX_CHANNEL_PROPERTY_TAGS_ARM_TO_VC) & 0xF
            == MAILBOX_CHANNEL_PROPERTY_TAGS_ARM_TO_VC,
        (addr | MAILBOX_CHANNEL_PROPERTY_TAGS_ARM_TO_VC) & 0xFFFF_FFF0u32 == addr,
{
    assert((addr % 16 == 0) ==> ((addr | 8u32) & 0xF == 8u32 && (addr | 8u32) & 0xFFFF_FFF0u32
        == addr)) by (bit_vector);
}

/// Replays a whole send against recorded hardware responses: the queue
/// is taken as ready, `replies` are the words the read register would
/// yield in order, and `code` is what the firmware left in the buffer.
///
/// Returns the outcome and how many reply words were consumed, or
/// `None` when no reply for our channel ever arrives — the live
/// protocol would still be polling.
pub fn send_outcome(addr: u32, replies: &Vec<u32>, code: u32) -> (r: Option<
    (Result<(), MailboxError>, usize),
>)
    ensures
        match r {
            Some(pair) => {
                if addr % 16 != 0 {
                    // Failed before any hardware observation was used.
                    pair == (Err::<(), MailboxError>(MailboxError::AlignmentError), 0usize)
                } else {
                    &&& 1 <= pair.1 <= replies@.len()
                    &&& spec_reply_is_ours(replies@[pair.1 - 1])
                    &&& forall|j: int|
                        0 <= j < pair.1 - 1 ==> !spec_reply_is_ours(#[trigger] replies@[j])
                    &&& pair.0 == spec_code_outcome(code)
                }
            },
            None => {
                &&& addr % 16 == 0
                &&& forall|j: int|
                    0 <= j < replies@.len() ==> !spec_reply_is_ours(#[trigger] replies@[j])
            },
        },
{
    let mut m = SendMachine::start(addr);
    if let Some(res) = m.outcome() {
        return Some((res, 0));
    }
    m.on_status(false);
    m.on_submitted();
    let mut i: usize = 0;
    while i < replies.len()
        invariant
            m.phase == SendPhase::AwaitReply,
            m.addr == addr,
            addr % 16 == 0,
            0 <= i <= replies@.len(),
            forall|j: int| 0 <= j < i ==> !spec_reply_is_ours(#[trigger] replies@[j]),
        decreases replies@.len() - i,
    {
        m.on_reply(replies[i]);
        i = i + 1;
        match m.phase {
            SendPhase::CheckCode => {
                m.on_code(code);
                match m.outcome() {
                    Some(res) => {
                        return Some((res, i));
                    },
                    None => {
                        proof {
                            assert(false);
                        }
                    },
                }
            },
            _ => {},
        }
    }
    None
}

} // verus!
