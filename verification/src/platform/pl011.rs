//! The PL011 serial port.
use crate::mmio;
use crate::mmio::{Access, Mmio};
use vstd::prelude::*;
use vstd::string::*;

pub mod regs;

verus! {

/// A serial port; nothing is sent or received before it has been set up.
pub struct UartWriter<M: Mmio> {
    pub port: Option<M>,
}

/// Sets the port up: sending and receiving on, no interrupt pending.
pub fn init<M: Mmio>(port: M) -> (r: UartWriter<M>)
    ensures
        r.port is Some,
        r.port->0.trace() == port.trace().push(
            Access::Write(
                regs::CR as int,
                (regs::CR_UARTEN + regs::CR_TXEN + regs::CR_RXEN) as u32,
            ),
        ).push(Access::Write(regs::ICR as int, 0x7FF)),
{
    let mut port: M = port;
    port.write32(regs::CR, regs::CR_UARTEN + regs::CR_TXEN + regs::CR_RXEN);
    port.write32(regs::ICR, 0x7FF);
    UartWriter { port: Some(port) }
}

/// What is sent for a byte of text: a line feed goes after a carriage return.
pub open spec fn wire_byte(b: u8) -> Seq<u8> {
    if b == 10 {
        seq![13u8, 10u8]
    } else {
        seq![b]
    }
}

/// What is sent for a text.
pub open spec fn wire_bytes(s: Seq<u8>) -> Seq<u8>
    decreases s.len(),
{
    if s.len() == 0 {
        Seq::empty()
    } else {
        wire_bytes(s.drop_last()) + wire_byte(s.last())
    }
}

/// The bytes to send for a text.
pub fn puts(s: &str) -> (r: Vec<u8>)
    ensures
        r@ == wire_bytes(s.spec_bytes()),
{
    let b: &[u8] = s.as_bytes();
    let mut r: Vec<u8> = Vec::new();
    let mut i: usize = 0;
    assert(b@.take(0) =~= Seq::<u8>::empty());
    while i < b.len()
        invariant
            i <= b@.len(),
            r@ == wire_bytes(b@.take(i as int)),
        decreases b@.len() - i,
    {
        if b[i] == 10 {
            r.push(13);
        }
        r.push(b[i]);
        proof {
            assert(b@.take(i + 1).drop_last() =~= b@.take(i as int));
            assert(r@ =~= wire_bytes(b@.take(i as int)) + wire_byte(b@[i as int]));
        }
        i = i + 1;
    }
    assert(b@.take(i as int) =~= b@);
    r
}

/// Two texts, one after the other, are sent as one.
pub proof fn law_texts_join(a: Seq<u8>, b: Seq<u8>)
    ensures
        wire_bytes(a + b) == wire_bytes(a) + wire_bytes(b),
    decreases b.len(),
{
    if b.len() == 0 {
        assert(a + b =~= a);
        assert(wire_bytes(a) + wire_bytes(b) =~= wire_bytes(a));
    } else {
        law_texts_join(a, b.drop_last());
        assert((a + b).drop_last() =~= a + b.drop_last());
        assert(wire_bytes(a + b) =~= wire_bytes(a) + wire_bytes(b));
    }
}

/// A line feed is never sent without a carriage return before it.
pub proof fn law_line_feeds_return(s: Seq<u8>, i: int)
    requires
        0 <= i < wire_bytes(s).len(),
        wire_bytes(s)[i] == 10,
    ensures
        i > 0,
        wire_bytes(s)[i - 1] == 13,
    decreases s.len(),
{
    let head = wire_bytes(s.drop_last());
    if i < head.len() {
        law_line_feeds_return(s.drop_last(), i);
    }
}

impl<M: Mmio> UartWriter<M> {
    /// One try to send a byte: whether it went out, or was dropped because the
    /// port has not been set up. Else the queue is full, and the caller tries
    /// again.
    pub fn try_putc(&mut self, c: u8) -> (r: bool)
        ensures
            match old(self).port {
                None => r && final(self).port is None,
                Some(p) => {
                    &&& final(self).port is Some
                    &&& ({
                        let t = final(self).port->0.trace();
                        let flags = mmio::value_of(t[p.trace().len() as int]);
                        let looked = p.trace().push(Access::Read(regs::FR as int, flags));
                        &&& r == (flags & regs::FR_TXFF == 0)
                        &&& t == (if r {
                            looked.push(Access::Write(regs::DR as int, c as u32))
                        } else {
                            looked
                        })
                    })
                },
            },
    {
        match self.port.take() {
            None => true,
            Some(p) => {
                let mut p: M = p;
                let flags: u32 = p.read32(regs::FR);
                let room: bool = flags & regs::FR_TXFF == 0;
                if room {
                    p.write32(regs::DR, c as u32);
                }
                self.port = Some(p);
                room
            },
        }
    }

    /// Takes a byte that was received.
    pub fn try_getc(&mut self) -> (r: Option<u8>)
        ensures
            match old(self).port {
                None => r is None && final(self).port is None,
                Some(p) => {
                    &&& final(self).port is Some
                    &&& ({
                        let n = p.trace().len() as int;
                        let t = final(self).port->0.trace();
                        let flags = mmio::value_of(t[n]);
                        let data = mmio::value_of(t[n + 1]);
                        let looked = p.trace().push(Access::Read(regs::FR as int, flags));
                        if flags & regs::FR_RXFE != 0 {
                            r is None && t == looked
                        } else {
                            &&& t == looked.push(Access::Read(regs::DR as int, data))
                            &&& r == Some((data % 0x100) as u8)
                        }
                    })
                },
            },
    {
        match self.port.take() {
            None => None,
            Some(p) => {
                let mut p: M = p;
                let flags: u32 = p.read32(regs::FR);
                let r: Option<u8> = if flags & regs::FR_RXFE != 0 {
                    None
                } else {
                    Some((p.read32(regs::DR) % 0x100) as u8)
                };
                self.port = Some(p);
                r
            },
        }
    }

    /// Clears the interrupt for received bytes.
    pub fn clear_rx_interrupt(&mut self)
        requires
            old(self).port is Some,
        ensures
            final(self).port is Some,
            final(self).port->0.trace() == old(self).port->0.trace().push(
                Access::Write(regs::ICR as int, regs::IMSC_RXIM),
            ),
    {
        if let Some(p) = self.port.take() {
            let mut p: M = p;
            p.write32(regs::ICR, regs::IMSC_RXIM);
            self.port = Some(p);
        }
    }
}

/// What is sent is the text with carriage returns before its line feeds and nothing else:
/// without its returns it is the text without its own.
pub proof fn law_text_is_sent(s: Seq<u8>)
    ensures
        wire_bytes(s).filter(|b: u8| b != 13) == s.filter(|b: u8| b != 13),
    decreases s.len(),
{
    let p = |b: u8| b != 13;
    if s.len() > 0 {
        let (head, last) = (s.drop_last(), s.last());
        law_text_is_sent(head);
        Seq::filter_distributes_over_add(wire_bytes(head), wire_byte(last), p);
        Seq::filter_distributes_over_add(head, seq![last], p);
        assert(head + seq![last] =~= s);
        reveal_with_fuel(Seq::filter, 3);
        assert(wire_byte(last).drop_last().filter(p) =~= Seq::<u8>::empty());
        assert(seq![last].drop_last() =~= Seq::<u8>::empty());
        assert(wire_byte(last).filter(p) =~= seq![last].filter(p));
    }
}

} // verus!
