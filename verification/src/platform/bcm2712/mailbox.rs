//! The mailbox to the firmware, and the request for a framebuffer.
use crate::mmio;
use crate::mmio::{Access, Mmio};
use vstd::prelude::*;

verus! {

/// Address of the mailbox.
pub const MBOX_PHYS: u64 = 0x10_7C01_3880;

pub const MBOX_READ: usize = 0x00;

pub const MBOX_STATUS: usize = 0x18;

pub const MBOX_WRITE: usize = 0x20;

/// The mailbox takes no message.
pub const MBOX_FULL: u32 = 0x8000_0000;

/// The mailbox holds no message.
pub const MBOX_EMPTY: u32 = 0x4000_0000;

/// The channel for property requests.
pub const CHANNEL_PROPERTY: u32 = 8;

/// The request code.
pub const REQUEST: u32 = 0;

/// The bit of the response code that says success.
pub const RESPONSE_OK: u32 = 0x8000_0000;

pub const TAG_END: u32 = 0;

pub const TAG_GET_FB: u32 = 0x0004_0001;

pub const TAG_GET_FB_PITCH: u32 = 0x0004_0008;

pub const TAG_SET_PHYS_WH: u32 = 0x0004_8003;

pub const TAG_SET_VIRT_WH: u32 = 0x0004_8004;

pub const TAG_SET_DEPTH: u32 = 0x0004_8005;

pub const TAG_SET_PIXEL_ORDER: u32 = 0x0004_8006;

pub const PIXEL_ORDER_RGB: u32 = 1;

/// Words of the request.
pub const REQUEST_WORDS: usize = 30;

/// A framebuffer that the firmware has set up.
#[derive(Clone, Copy, PartialEq, Eq, Structural, Debug)]
pub struct FbInfo {
    pub addr: u64,
    pub size: u64,
    pub width: u32,
    pub height: u32,
    /// Bytes in a row.
    pub pitch: u32,
    /// Bits in a pixel.
    pub bpp: u32,
}

/// The request for a framebuffer: its size in bytes, the request code, then tags
/// with their buffer size, request size and values, and the tag that ends it.
pub open spec fn fb_request(width: u32, height: u32) -> Seq<u32> {
    seq![120u32, REQUEST]
        + seq![TAG_SET_PHYS_WH, 8u32, 8u32, width, height]
        + seq![TAG_SET_VIRT_WH, 8u32, 8u32, width, height]
        + seq![TAG_SET_DEPTH, 4u32, 4u32, 32u32]
        + seq![TAG_SET_PIXEL_ORDER, 4u32, 4u32, PIXEL_ORDER_RGB]
        + seq![TAG_GET_FB, 8u32, 4u32, 4096u32, 0u32]
        + seq![TAG_GET_FB_PITCH, 4u32, 0u32, 0u32]
        + seq![TAG_END]
}

/// Builds the request for a framebuffer.
pub fn framebuffer_request(width: u32, height: u32) -> (r: Vec<u32>)
    ensures
        r@ == fb_request(width, height),
        r@.len() == REQUEST_WORDS,
        r@[0] == r@.len() * 4,
{
    let mut r: Vec<u32> = Vec::new();
    r.push(0);
    r.push(REQUEST);
    r.push(TAG_SET_PHYS_WH);
    r.push(8);
    r.push(8);
    r.push(width);
    r.push(height);
    r.push(TAG_SET_VIRT_WH);
    r.push(8);
    r.push(8);
    r.push(width);
    r.push(height);
    r.push(TAG_SET_DEPTH);
    r.push(4);
    r.push(4);
    r.push(32);
    r.push(TAG_SET_PIXEL_ORDER);
    r.push(4);
    r.push(4);
    r.push(PIXEL_ORDER_RGB);
    r.push(TAG_GET_FB);
    r.push(8);
    r.push(4);
    r.push(4096);
    r.push(0);
    r.push(TAG_GET_FB_PITCH);
    r.push(4);
    r.push(0);
    r.push(0);
    r.push(TAG_END);
    let size: u32 = r.len() as u32 * 4;
    r.set(0, size);
    assert(r@ =~= fb_request(width, height));
    r
}

/// The framebuffer in a response to the request: none where the firmware refused
/// or gave no address. The top bits of the address are hints.
pub open spec fn fb_in(words: Seq<u32>, width: u32, height: u32) -> Option<FbInfo> {
    let addr = words[23] as int % 0x4000_0000;
    if words[1] & RESPONSE_OK == 0 || addr == 0 {
        None
    } else {
        Some(
            FbInfo {
                addr: addr as u64,
                size: words[24] as u64,
                width,
                height,
                pitch: words[28],
                bpp: 32,
            },
        )
    }
}

/// Reads the response to a request.
pub fn alloc_framebuffer(words: &Vec<u32>, width: u32, height: u32) -> (r: Option<FbInfo>)
    requires
        words@.len() == REQUEST_WORDS,
    ensures
        r == fb_in(words@, width, height),
{
    if words[1] & RESPONSE_OK == 0 {
        return None;
    }
    let addr: u32 = words[23] % 0x4000_0000;
    if addr == 0 {
        return None;
    }
    Some(
        FbInfo {
            addr: addr as u64,
            size: words[24] as u64,
            width,
            height,
            pitch: words[28],
            bpp: 32,
        },
    )
}

/// The values of the response stand where the request left room for them.
pub proof fn law_response_slots(width: u32, height: u32)
    ensures
        fb_request(width, height)[20] == TAG_GET_FB,
        fb_request(width, height)[25] == TAG_GET_FB_PITCH,
        fb_request(width, height)[29] == TAG_END,
        fb_request(width, height).len() == REQUEST_WORDS,
{
}

/// The message for a request at `buf_pa`.
pub fn request_message(buf_pa: u32) -> (r: u32)
    ensures
        r == buf_pa as int / 16 * 16 + CHANNEL_PROPERTY,
{
    buf_pa / 16 * 16 + CHANNEL_PROPERTY
}

/// How far an exchange has come.
#[derive(Clone, Copy, PartialEq, Eq, Structural, Debug)]
pub enum Exchange {
    /// Waiting for room.
    Sending,
    /// Waiting for the answer.
    Receiving,
    /// The firmware has answered.
    Done,
}

/// The step that follows, and the accesses, given what the registers read as.
pub open spec fn exchange_step(state: Exchange, word: u32, status: u32, answer: u32) -> (
    Exchange,
    Seq<Access>,
) {
    let look = seq![Access::Read(MBOX_STATUS as int, status)];
    match state {
        Exchange::Sending => if status & MBOX_FULL != 0 {
            (Exchange::Sending, look)
        } else {
            (Exchange::Receiving, look.push(Access::Write(MBOX_WRITE as int, word)))
        },
        Exchange::Receiving => if status & MBOX_EMPTY != 0 {
            (Exchange::Receiving, look)
        } else {
            (
                if answer == word {
                    Exchange::Done
                } else {
                    Exchange::Receiving
                },
                look.push(Access::Read(MBOX_READ as int, answer)),
            )
        },
        Exchange::Done => (Exchange::Done, Seq::empty()),
    }
}

/// Takes an exchange one step on. The caller goes on until it is done. Messages
/// that are not the answer are passed over.
pub fn submit_property<M: Mmio>(mbox: &mut M, state: Exchange, word: u32) -> (r: Exchange)
    ensures
        ({
            let n = old(mbox).trace().len() as int;
            let t = final(mbox).trace();
            let (after, accesses) = exchange_step(
                state,
                word,
                mmio::value_of(t[n]),
                mmio::value_of(t.last()),
            );
            r == after && t == old(mbox).trace() + accesses
        }),
{
    let ghost t0 = mbox.trace();
    match state {
        Exchange::Sending => {
            let status: u32 = mbox.read32(MBOX_STATUS);
            if status & MBOX_FULL != 0 {
                assert(mbox.trace() =~= t0 + seq![Access::Read(MBOX_STATUS as int, status)]);
                Exchange::Sending
            } else {
                mbox.write32(MBOX_WRITE, word);
                assert(mbox.trace() =~= t0 + seq![
                    Access::Read(MBOX_STATUS as int, status),
                ].push(Access::Write(MBOX_WRITE as int, word)));
                Exchange::Receiving
            }
        },
        Exchange::Receiving => {
            let status: u32 = mbox.read32(MBOX_STATUS);
            if status & MBOX_EMPTY != 0 {
                assert(mbox.trace() =~= t0 + seq![Access::Read(MBOX_STATUS as int, status)]);
                Exchange::Receiving
            } else {
                let answer: u32 = mbox.read32(MBOX_READ);
                assert(mbox.trace() =~= t0 + seq![
                    Access::Read(MBOX_STATUS as int, status),
                ].push(Access::Read(MBOX_READ as int, answer)));
                if answer == word {
                    Exchange::Done
                } else {
                    Exchange::Receiving
                }
            }
        },
        Exchange::Done => {
            assert(mbox.trace() =~= t0 + Seq::<Access>::empty());
            Exchange::Done
        },
    }
}

/// Where the values of a tag stand: tags follow each other from word `at` on, each with its
/// number, the size of its values in bytes, a word, and its values; zero ends them.
pub open spec fn tag_values(words: Seq<u32>, at: int, tag: u32) -> Option<int>
    decreases words.len() - at,
{
    if at < 0 || at + 3 > words.len() || words[at] == 0 {
        None
    } else if words[at] == tag {
        Some(at + 3)
    } else if at + 3 + words[at + 1] as int / 4 > words.len() {
        None
    } else {
        tag_values(words, at + 3 + words[at + 1] as int / 4, tag)
    }
}

/// The request, as the firmware reads it: its length in bytes, zero for a request, and tags
/// for the size of the screen and of the picture on it, for pixels of 32 bits with red first,
/// and for a framebuffer that starts at a multiple of 4096.
pub proof fn law_request_is_read(width: u32, height: u32)
    ensures
        ({
            let w = fb_request(width, height);
            &&& w[0] == 4 * w.len()
            &&& w[1] == 0
            &&& tag_values(w, 2, 0x48003) matches Some(p) && w[p] == width && w[p + 1] == height
            &&& tag_values(w, 2, 0x48004) matches Some(p) && w[p] == width && w[p + 1] == height
            &&& tag_values(w, 2, 0x48005) matches Some(p) && w[p] == 32
            &&& tag_values(w, 2, 0x48006) matches Some(p) && w[p] == 1
            &&& tag_values(w, 2, 0x40001) matches Some(p) && w[p] == 4096
            &&& tag_values(w, 2, 0x40008) is Some
        }),
{
    reveal_with_fuel(tag_values, 8);
}

/// The response, as it is understood: in a message with the tags of the request, the address
/// and the size of the framebuffer are the values of tag 0x40001 and the bytes in a row that
/// of tag 0x40008, whatever values stand there. Bit 31 of the second word says success; the two
/// top bits of the address do not count.
pub proof fn law_response_is_read(words: Seq<u32>, width: u32, height: u32)
    requires
        words.len() == 30,
        forall|i: int|
            #![trigger words[i]]
            i == 2 || i == 3 || i == 7 || i == 8 || i == 12 || i == 13 || i == 16 || i == 17 || i
                == 20 || i == 21 || i == 25 || i == 26 || i == 29 ==> words[i] == fb_request(
                width,
                height,
            )[i],
    ensures
        ({
            let fb = tag_values(words, 2, 0x40001);
            let pitch = tag_values(words, 2, 0x40008);
            &&& fb is Some && pitch is Some
            &&& match fb_in(words, width, height) {
                Some(info) => {
                    &&& words[1] >= 0x8000_0000
                    &&& info.addr == words[fb->0] as int % 0x4000_0000
                    &&& info.addr != 0
                    &&& info.size == words[fb->0 + 1]
                    &&& info.pitch == words[pitch->0]
                    &&& info.width == width
                    &&& info.height == height
                    &&& info.bpp == 32
                },
                None => words[1] < 0x8000_0000 || words[fb->0] as int % 0x4000_0000 == 0,
            }
        }),
{
    let code = words[1];
    assert((code & 0x8000_0000u32 == 0) == (code < 0x8000_0000u32)) by (bit_vector);
    assert(words[2] == 0x48003 && words[3] == 8);
    assert(words[7] == 0x48004 && words[8] == 8);
    assert(words[12] == 0x48005 && words[13] == 4);
    assert(words[16] == 0x48006 && words[17] == 4);
    assert(words[20] == 0x40001 && words[21] == 8);
    assert(words[25] == 0x40008 && words[26] == 4);
    reveal_with_fuel(tag_values, 8);
}

/// An exchange with the firmware: while bit 31 of the status at 0x18 is set nothing is sent;
/// then the message goes to 0x20, once. While bit 30 is set nothing is read; then a word is
/// read from 0, and the exchange is over only where that word is the message.
pub proof fn law_exchange(word: u32, status: u32, answer: u32)
    ensures
        ({
            let (s, sent) = exchange_step(Exchange::Sending, word, status, answer);
            let (r, read) = exchange_step(Exchange::Receiving, word, status, answer);
            &&& sent[0] == Access::Read(0x18, status)
            &&& read[0] == Access::Read(0x18, status)
            &&& status >= 0x8000_0000 ==> s is Sending && sent.len() == 1
            &&& status < 0x8000_0000 ==> s is Receiving && sent.len() == 2 && sent[1]
                == Access::Write(0x20, word)
            &&& status / 0x4000_0000 % 2 == 1 ==> r is Receiving && read.len() == 1
            &&& status / 0x4000_0000 % 2 == 0 ==> read.len() == 2 && read[1] == Access::Read(
                0,
                answer,
            ) && (r is Done <==> answer == word) && (r is Receiving <==> answer != word)
        }),
{
    assert((status & 0x8000_0000u32 != 0) == (status >= 0x8000_0000u32)) by (bit_vector);
    assert((status & 0x4000_0000u32 != 0) == (status / 0x4000_0000u32 % 2 == 1)) by (bit_vector);
}

} // verus!
