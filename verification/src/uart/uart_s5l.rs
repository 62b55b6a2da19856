//! Apple S5L serial port.

use vstd::prelude::*;

use crate::error::DeviceResult;
use crate::hal::console::TextSink;
use crate::hw::{
    address, at, extends, lemma_since_chain, lemma_since_one, lemma_since_self, poll_status,
    poll_trace, since, Access, Bus, Hardware,
};
use crate::utils::event_listener::{lasting, notified, EventHandler, EventListener, Subscriber};

verus! {

pub const UCON: u64 = 0x04;
pub const UTRSTAT: u64 = 0x10;
pub const UFSTAT: u64 = 0x18;
pub const UTXH: u64 = 0x20;
pub const URXH: u64 = 0x24;

/// Reception and transmission in interrupt or polling mode, with interrupts on
/// the reception threshold and timeout.
pub const UCON_SETUP: u32 = 0x1205;

pub const UTRSTAT_RXDR: u32 = 0x1;
pub const UFSTAT_RXCNT: u32 = 0xf;
pub const UFSTAT_TXFULL: u32 = 0x200;

/// Looks at the transmission FIFO before a character is sent regardless.
pub const TX_WAIT_SPINS: u64 = 100_000;

/// What the hypervisor's console wants at the start of a line.
pub const LINE_PREFIX: [u8; 7] = [72, 86, 76, 79, 71, 58, 32];

pub const CR: u8 = 13;
pub const LF: u8 = 10;

/// A serial port, by its register window, whether the next character starts a
/// line, and who listens to its interrupts.
pub struct AppleS5lUart<F: EventHandler<()>> {
    pub base: u64,
    pub listener: EventListener<(), F>,
    pub at_line_start: bool,
}

/// `trace` waits for room in the FIFO, not indefinitely, and then sends `c`.
pub open spec fn puts_byte(base: u64, c: u8, trace: Seq<Access>) -> bool {
    &&& trace.len() >= 1
    &&& exists|room: bool|
        #[trigger] poll_trace(
            trace.drop_last(),
            at(base, UFSTAT),
            UFSTAT_TXFULL,
            0,
            false,
            (TX_WAIT_SPINS - 1) as nat,
            room,
        )
    &&& trace.last() == Access::Write32 { addr: at(base, UTXH), val: c as u32 }
}

/// `trace` sends each of `bytes` in order.
pub open spec fn puts_bytes(base: u64, bytes: Seq<u8>, trace: Seq<Access>) -> bool
    decreases bytes.len(),
{
    if bytes.len() == 0 {
        trace.len() == 0
    } else {
        exists|n: int|
            {
                &&& 0 <= n <= trace.len()
                &&& #[trigger] puts_byte(base, bytes.last(), trace.skip(n))
                &&& puts_bytes(base, bytes.drop_last(), trace.take(n))
            }
    }
}

/// What is sent for the character `c`: the prefix if it starts a line, and a
/// carriage return before a line feed.
pub open spec fn rendered_byte(at_line_start: bool, c: u8) -> Seq<u8> {
    (if at_line_start {
        LINE_PREFIX@
    } else {
        Seq::empty()
    }) + (if c == LF {
        seq![CR, LF]
    } else {
        seq![c]
    })
}

/// Whether the character after `text` starts a line.
pub open spec fn line_starts_after(at_line_start: bool, text: Seq<u8>) -> bool {
    if text.len() == 0 {
        at_line_start
    } else {
        text.last() == LF
    }
}

/// What is sent for `text`.
pub open spec fn rendered(at_line_start: bool, text: Seq<u8>) -> Seq<u8>
    decreases text.len(),
{
    if text.len() == 0 {
        Seq::empty()
    } else {
        let before = text.drop_last();
        rendered(at_line_start, before) + rendered_byte(
            line_starts_after(at_line_start, before),
            text.last(),
        )
    }
}

/// `trace` looks for a received character, and takes it if there is one. Either of
/// two status registers may announce it.
pub open spec fn gets_byte(base: u64, trace: Seq<Access>, got: Option<u8>) -> bool {
    &&& trace.len() >= 1
    &&& trace[0] matches Access::Read32 { addr, val: status } && addr == at(base, UTRSTAT) && {
        if status & UTRSTAT_RXDR != 0 {
            &&& trace.len() == 2
            &&& takes_byte(base, trace[1], got)
        } else {
            &&& trace.len() >= 2
            &&& trace[1] matches Access::Read32 { addr: addr1, val: fifo } && addr1 == at(
                base,
                UFSTAT,
            ) && {
                if fifo & UFSTAT_RXCNT != 0 {
                    &&& trace.len() == 3
                    &&& takes_byte(base, trace[2], got)
                } else {
                    trace.len() == 2 && got is None
                }
            }
        }
    }
}

/// `access` takes a character out of the receive buffer.
pub open spec fn takes_byte(base: u64, access: Access, got: Option<u8>) -> bool {
    access matches Access::Read32 { addr, val } && addr == at(base, URXH) && got == Some(
        (val % 0x100) as u8,
    )
}

impl<F: EventHandler<()>> AppleS5lUart<F> {
    /// Enables reception and transmission.
    pub fn new<H: Hardware>(bus: &mut Bus<H>, base: u64) -> (uart: Self)
        ensures
            uart.base == base,
            uart.at_line_start,
            uart.listener.wf(),
            uart.listener.subs() == Seq::<Subscriber<F>>::empty(),
            uart.listener.next_id() == 0,
            uart.listener.issued() == 0,
            uart.listener.calls() == Seq::<(F, ())>::empty(),
            final(bus).log() == old(bus).log().push(
                Access::Write32 { addr: at(base, UCON), val: UCON_SETUP },
            ),
    {
        let uart: AppleS5lUart<F> = AppleS5lUart {
            base,
            listener: EventListener::new(),
            at_line_start: true,
        };
        uart.write_reg(bus, UCON, UCON_SETUP);
        uart
    }

    fn read_reg<H: Hardware>(&self, bus: &mut Bus<H>, reg: u64) -> (val: u32)
        ensures
            final(bus).log() == old(bus).log().push(
                Access::Read32 { addr: at(self.base, reg), val },
            ),
    {
        bus.read32(address(self.base, reg))
    }

    fn write_reg<H: Hardware>(&self, bus: &mut Bus<H>, reg: u64, val: u32)
        ensures
            final(bus).log() == old(bus).log().push(
                Access::Write32 { addr: at(self.base, reg), val },
            ),
    {
        bus.write32(address(self.base, reg), val);
    }

    /// Sends a character once the FIFO has room, or after waiting long enough:
    /// an emulated port may never report room.
    pub fn putchar<H: Hardware>(&self, bus: &mut Bus<H>, c: u8)
        ensures
            extends(old(bus).log(), final(bus).log()),
            puts_byte(self.base, c, since(old(bus).log(), final(bus).log())),
    {
        let ghost start = bus.log();
        let room: bool = poll_status(
            bus,
            address(self.base, UFSTAT),
            UFSTAT_TXFULL,
            0,
            false,
            TX_WAIT_SPINS - 1,
        );
        let ghost polled = bus.log();
        self.write_reg(bus, UTXH, c as u32);
        proof {
            lemma_since_one(
                polled,
                Access::Write32 { addr: at(self.base, UTXH), val: c as u32 },
            );
            lemma_since_chain(start, polled, bus.log());
            let trace = since(start, bus.log());
            assert(trace.drop_last() =~= since(start, polled));
            assert(poll_trace(
                trace.drop_last(),
                at(self.base, UFSTAT),
                UFSTAT_TXFULL,
                0,
                false,
                (TX_WAIT_SPINS - 1) as nat,
                room,
            ));
        }
    }

    /// Takes a received character, if there is one.
    pub fn getchar<H: Hardware>(&self, bus: &mut Bus<H>) -> (got: Option<u8>)
        ensures
            extends(old(bus).log(), final(bus).log()),
            gets_byte(self.base, since(old(bus).log(), final(bus).log()), got),
    {
        let ghost start = bus.log();
        let mut ready: bool = self.read_reg(bus, UTRSTAT) & UTRSTAT_RXDR != 0;
        if !ready {
            ready = self.read_reg(bus, UFSTAT) & UFSTAT_RXCNT != 0;
        }
        let got: Option<u8> = if ready {
            Some((self.read_reg(bus, URXH) % 0x100) as u8)
        } else {
            None
        };
        assert(bus.log().take(start.len() as int) =~= start);
        got
    }

    /// The device's name.
    pub fn name(&self) -> (name: &'static str)
        ensures
            name@ == "apple-s5l-uart"@,
    {
        "apple-s5l-uart"
    }

    /// Tells those who listen that the port has raised an interrupt.
    pub fn handle_irq(&mut self, _irq_num: u64)
        requires
            old(self).listener.wf(),
        ensures
            final(self).listener.wf(),
            final(self).base == old(self).base,
            final(self).at_line_start == old(self).at_line_start,
            final(self).listener.subs() == lasting(old(self).listener.subs()),
            final(self).listener.next_id() == old(self).listener.next_id(),
            final(self).listener.issued() == old(self).listener.issued(),
            final(self).listener.calls() == old(self).listener.calls() + notified(
                old(self).listener.subs(),
                (),
            ),
            forall|i: int|
                0 <= i < old(self).listener.subs().len() ==> (
                #[trigger] old(self).listener.subs()[i]).handler.handled(&()),
    {
        self.listener.trigger(());
    }

    /// Takes a received character, if there is one. This never fails.
    pub fn try_recv<H: Hardware>(&self, bus: &mut Bus<H>) -> (res: DeviceResult<Option<u8>>)
        ensures
            extends(old(bus).log(), final(bus).log()),
            res matches Ok(got) && gets_byte(
                self.base,
                since(old(bus).log(), final(bus).log()),
                got,
            ),
    {
        Ok(self.getchar(bus))
    }

    /// Sends a character. This never fails.
    pub fn send<H: Hardware>(&self, bus: &mut Bus<H>, ch: u8) -> (res: DeviceResult<()>)
        ensures
            res is Ok,
            extends(old(bus).log(), final(bus).log()),
            puts_byte(self.base, ch, since(old(bus).log(), final(bus).log())),
    {
        self.putchar(bus, ch);
        Ok(())
    }

    /// Sends characters after those that `sent` already went out for.
    fn put_more<H: Hardware>(
        &self,
        bus: &mut Bus<H>,
        c: u8,
        start: Ghost<Seq<Access>>,
        sent: Ghost<Seq<u8>>,
    )
        requires
            extends(start@, old(bus).log()),
            puts_bytes(self.base, sent@, since(start@, old(bus).log())),
        ensures
            extends(start@, final(bus).log()),
            puts_bytes(self.base, sent@.push(c), since(start@, final(bus).log())),
    {
        let ghost before = bus.log();
        self.putchar(bus, c);
        proof {
            lemma_since_chain(start@, before, bus.log());
            let trace = since(start@, bus.log());
            let n = since(start@, before).len() as int;
            let more = sent@.push(c);
            assert(more.drop_last() =~= sent@);
            assert(puts_byte(self.base, more.last(), trace.skip(n)));
        }
    }

    /// Sends a text. Each line gets the prefix that makes the hypervisor show it.
    /// This never fails.
    pub fn write_str<H: Hardware>(&mut self, bus: &mut Bus<H>, s: &str) -> (res: DeviceResult<()>)
        ensures
            res is Ok,
            final(self).base == old(self).base,
            final(self).listener == old(self).listener,
            final(self).at_line_start == line_starts_after(
                old(self).at_line_start,
                vstd::utf8::encode_utf8(s@),
            ),
            extends(old(bus).log(), final(bus).log()),
            puts_bytes(
                old(self).base,
                rendered(old(self).at_line_start, vstd::utf8::encode_utf8(s@)),
                since(old(bus).log(), final(bus).log()),
            ),
    {
        let ghost start = bus.log();
        let ghost first = self.at_line_start;
        let bytes: &[u8] = s.as_bytes();
        proof {
            lemma_since_self(start);
            assert(bytes@.take(0) =~= Seq::<u8>::empty());
        }
        let mut i: usize = 0;
        while i < bytes.len()
            invariant
                start == old(bus).log(),
                first == old(self).at_line_start,
                bytes@ == vstd::utf8::encode_utf8(s@),
                i <= bytes.len(),
                self.base == old(self).base,
                self.listener == old(self).listener,
                self.at_line_start == line_starts_after(first, bytes@.take(i as int)),
                extends(start, bus.log()),
                puts_bytes(
                    self.base,
                    rendered(first, bytes@.take(i as int)),
                    since(start, bus.log()),
                ),
            decreases bytes.len() - i,
        {
            let c: u8 = bytes[i];
            let ghost text = bytes@.take(i as int);
            let ghost mut sent = rendered(first, text);
            proof {
                let more = bytes@.take(i + 1);
                assert(more.drop_last() =~= text);
                assert(more.last() == c);
            }
            if self.at_line_start {
                self.at_line_start = false;
                let prefix: [u8; 7] = LINE_PREFIX;
                let mut k: usize = 0;
                let ghost base_sent = sent;
                assert(sent =~= base_sent + LINE_PREFIX@.take(0));
                while k < 7
                    invariant
                        k <= 7,
                        prefix == LINE_PREFIX,
                        sent == base_sent + LINE_PREFIX@.take(k as int),
                        extends(start, bus.log()),
                        puts_bytes(self.base, sent, since(start, bus.log())),
                    decreases 7 - k,
                {
                    self.put_more(bus, prefix[k], Ghost(start), Ghost(sent));
                    proof {
                        sent = sent.push(prefix[k as int]);
                        assert(sent =~= base_sent + LINE_PREFIX@.take(k + 1));
                    }
                    k += 1;
                }
                assert(LINE_PREFIX@.take(7) =~= LINE_PREFIX@);
            }
            if c == LF {
                self.put_more(bus, CR, Ghost(start), Ghost(sent));
                proof {
                    sent = sent.push(CR);
                }
                self.put_more(bus, c, Ghost(start), Ghost(sent));
                proof {
                    sent = sent.push(c);
                }
                self.at_line_start = true;
            } else {
                self.put_more(bus, c, Ghost(start), Ghost(sent));
                proof {
                    sent = sent.push(c);
                }
            }
            assert(sent =~= rendered(first, bytes@.take(i + 1)));
            i += 1;
        }
        assert(bytes@.take(i as int) =~= bytes@);
        Ok(())
    }
}

/// A serial port together with the bus that it is reached over.
pub struct SerialPort<F: EventHandler<()>, H: Hardware> {
    pub uart: AppleS5lUart<F>,
    pub bus: Bus<H>,
    /// What was written, oldest first.
    pub text: Ghost<Seq<Seq<char>>>,
}

impl<F: EventHandler<()>, H: Hardware> SerialPort<F, H> {
    pub fn new(uart: AppleS5lUart<F>, bus: Bus<H>) -> (port: Self)
        ensures
            port.uart == uart,
            port.bus == bus,
            port.text() == Seq::<Seq<char>>::empty(),
    {
        SerialPort { uart, bus, text: Ghost(Seq::empty()) }
    }
}

impl<F: EventHandler<()>, H: Hardware> TextSink for SerialPort<F, H> {
    open spec fn text(&self) -> Seq<Seq<char>> {
        self.text@
    }

    fn write_str(&mut self, s: &str)
        ensures
            final(self).uart.base == old(self).uart.base,
            final(self).uart.listener == old(self).uart.listener,
            final(self).uart.at_line_start == line_starts_after(
                old(self).uart.at_line_start,
                vstd::utf8::encode_utf8(s@),
            ),
            extends(old(self).bus.log(), final(self).bus.log()),
            puts_bytes(
                old(self).uart.base,
                rendered(old(self).uart.at_line_start, vstd::utf8::encode_utf8(s@)),
                since(old(self).bus.log(), final(self).bus.log()),
            ),
    {
        let _res: DeviceResult<()> = self.uart.write_str(&mut self.bus, s);
        self.text = Ghost(self.text@.push(s@));
    }
}

/// Sending a text in two pieces sends the same characters as sending it at once.
pub proof fn law_text_can_be_split(at_line_start: bool, a: Seq<u8>, b: Seq<u8>)
    ensures
        rendered(at_line_start, a + b) == rendered(at_line_start, a) + rendered(
            line_starts_after(at_line_start, a),
            b,
        ),
        line_starts_after(at_line_start, a + b) == line_starts_after(
            line_starts_after(at_line_start, a),
            b,
        ),
    decreases b.len(),
{
    if b.len() == 0 {
        assert(a + b =~= a);
        assert(rendered(at_line_start, a) + Seq::<u8>::empty() =~= rendered(at_line_start, a));
    } else {
        let shorter = b.drop_last();
        law_text_can_be_split(at_line_start, a, shorter);
        assert((a + b).drop_last() =~= a + shorter);
        assert((a + b).last() == b.last());
        let then = line_starts_after(line_starts_after(at_line_start, a), shorter);
        assert(rendered(at_line_start, a) + (rendered(
            line_starts_after(at_line_start, a),
            shorter,
        ) + rendered_byte(then, b.last())) =~= (rendered(at_line_start, a) + rendered(
            line_starts_after(at_line_start, a),
            shorter,
        )) + rendered_byte(then, b.last()));
    }
}

/// Every line starts with the prefix: what is sent for a text that starts a line
/// begins with it.
pub proof fn law_line_gets_prefix(text: Seq<u8>)
    requires
        text.len() > 0,
    ensures
        rendered(true, text).len() >= 7,
        rendered(true, text).take(7) == LINE_PREFIX@,
    decreases text.len(),
{
    let before = text.drop_last();
    if before.len() > 0 {
        law_line_gets_prefix(before);
    } else {
        assert(rendered(true, before) =~= Seq::<u8>::empty());
    }
    assert(rendered(true, text).take(7) =~= LINE_PREFIX@);
}

/// What is stored, in order: the stores in `trace`, by address and value.
pub open spec fn stored(trace: Seq<Access>) -> Seq<(u64, u32)>
    decreases trace.len(),
{
    if trace.len() == 0 {
        Seq::empty()
    } else {
        let before = stored(trace.drop_last());
        match trace.last() {
            Access::Write32 { addr, val } => before.push((addr, val)),
            _ => before,
        }
    }
}

proof fn lemma_stored_add(a: Seq<Access>, b: Seq<Access>)
    ensures
        stored(a + b) == stored(a) + stored(b),
    decreases b.len(),
{
    if b.len() == 0 {
        assert(a + b =~= a);
        assert(stored(a) + stored(b) =~= stored(a));
    } else {
        lemma_stored_add(a, b.drop_last());
        assert((a + b).drop_last() =~= a + b.drop_last());
        assert((a + b).last() == b.last());
        assert(stored(a + b) =~= stored(a) + stored(b));
    }
}

proof fn lemma_polls_store_nothing(trace: Seq<Access>)
    requires
        forall|i: int| 0 <= i < trace.len() ==> #[trigger] trace[i] is Read32,
    ensures
        stored(trace) == Seq::<(u64, u32)>::empty(),
    decreases trace.len(),
{
    if trace.len() > 0 {
        assert forall|i: int| 0 <= i < trace.drop_last().len() implies #[trigger] trace.drop_last()[i] is Read32
            by {
            assert(trace[i] is Read32);
        }
        lemma_polls_store_nothing(trace.drop_last());
        assert(trace[trace.len() - 1] is Read32);
    }
}

/// What is on the wire is what was to be sent: however long the port makes its driver wait,
/// each byte goes into the transmission register once, in order, and nothing else is stored.
pub proof fn law_bytes_go_out_in_order(base: u64, bytes: Seq<u8>, trace: Seq<Access>)
    requires
        puts_bytes(base, bytes, trace),
        base + 0x20 <= u64::MAX,
    ensures
        stored(trace) == Seq::new(
            bytes.len(),
            |i: int| ((base + 0x20) as u64, bytes[i] as u32),
        ),
    decreases bytes.len(),
{
    let all = Seq::new(bytes.len(), |i: int| ((base + 0x20) as u64, bytes[i] as u32));
    if bytes.len() == 0 {
        assert(stored(trace) =~= all);
    } else {
        let n = choose|n: int|
            {
                &&& 0 <= n <= trace.len()
                &&& #[trigger] puts_byte(base, bytes.last(), trace.skip(n))
                &&& puts_bytes(base, bytes.drop_last(), trace.take(n))
            };
        let piece = trace.skip(n);
        let polled = piece.drop_last();
        law_bytes_go_out_in_order(base, bytes.drop_last(), trace.take(n));
        let room = choose|room: bool|
            #[trigger] poll_trace(
                polled,
                at(base, UFSTAT),
                UFSTAT_TXFULL,
                0,
                false,
                (TX_WAIT_SPINS - 1) as nat,
                room,
            );
        assert forall|i: int| 0 <= i < polled.len() implies #[trigger] polled[i] is Read32 by {
            if room {
                if i < polled.len() - 1 {
                    assert(polled.drop_last()[i] is Read32);
                } else {
                    assert(polled.last() is Read32);
                }
            }
        }
        lemma_polls_store_nothing(polled);
        lemma_stored_add(trace.take(n), piece);
        assert(trace.take(n) + piece =~= trace);
        assert(stored(trace) =~= all);
    }
}

proof fn lemma_inside_a_line(text: Seq<u8>)
    requires
        forall|i: int| 0 <= i < text.len() ==> text[i] != 10,
    ensures
        rendered(false, text) == text,
        text.len() > 0 ==> rendered(true, text) == LINE_PREFIX@ + text,
        text.len() > 0 ==> !line_starts_after(true, text),
        !line_starts_after(false, text),
    decreases text.len(),
{
    if text.len() > 0 {
        let before = text.drop_last();
        lemma_inside_a_line(before);
        assert(text[text.len() - 1] != 10);
        assert(before.push(text.last()) =~= text);
        assert(rendered(false, text) =~= text);
        if before.len() == 0 {
            assert(rendered(true, before) =~= Seq::<u8>::empty());
        }
        assert(rendered(true, text) =~= LINE_PREFIX@ + text);
    } else {
        assert(rendered(false, text) =~= text);
    }
}

/// A line comes out as `HVLOG: `, its own characters and the two characters that end it. The
/// line after it is treated likewise, and what continues a line gets no prefix.
pub proof fn law_lines_come_out_whole(line: Seq<u8>, rest: Seq<u8>)
    requires
        forall|i: int| 0 <= i < line.len() ==> line[i] != 10,
    ensures
        rendered(true, line.push(10) + rest) == seq![72u8, 86, 76, 79, 71, 58, 32] + line + seq![
            13u8,
            10,
        ] + rendered(true, rest),
        rendered(false, line.push(10) + rest) == line + seq![13u8, 10] + rendered(true, rest),
{
    let prefix = seq![72u8, 86, 76, 79, 71, 58, 32];
    let end = seq![13u8, 10];
    lemma_inside_a_line(line);
    assert(LINE_PREFIX@ =~= prefix);
    let ended = line.push(10);
    assert(ended.drop_last() =~= line);
    if line.len() == 0 {
        assert(rendered(true, line) =~= Seq::<u8>::empty());
    }
    assert(rendered(true, ended) =~= prefix + line + end);
    assert(rendered(false, ended) =~= line + end);
    law_text_can_be_split(true, ended, rest);
    law_text_can_be_split(false, ended, rest);
}

/// No character is lost and none is made up: the receive register is read once if one of the
/// two status registers announces a character, which is then the one that is returned, and
/// not at all otherwise.
pub proof fn law_no_character_is_lost(base: u64, trace: Seq<Access>, got: Option<u8>)
    requires
        gets_byte(base, trace, got),
        base + 0x24 <= u64::MAX,
    ensures
        forall|i: int| 0 <= i < trace.len() ==> #[trigger] trace[i] is Read32,
        forall|i: int|
            0 <= i < trace.len() ==> ((#[trigger] trace[i])->Read32_addr == base + 0x24) == (got
                is Some && i == trace.len() - 1),
        got matches Some(c) ==> trace.last()->Read32_val % 0x100 == c,
        trace[0]->Read32_addr == base + 0x10,
        trace[0]->Read32_val & 1 != 0 ==> got is Some && trace.len() == 2,
        trace[0]->Read32_val & 1 == 0 ==> trace[1]->Read32_addr == base + 0x18 && (got is Some
            <==> trace[1]->Read32_val & 0xf != 0),
{
}

} // verus!
