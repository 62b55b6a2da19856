//! Reporting a panic.

use vstd::prelude::*;

use crate::boot::entry::{early_print, early_putchar, EarlyConsole};
use crate::hal::early::crlf;
use crate::hw::{Bus, Hardware};
use crate::uart::uart_s5l::{
    law_text_can_be_split, line_starts_after, rendered, CR, LF, LINE_PREFIX,
};

verus! {

/// Output that needs neither drivers nor locks. Every line starts with a prefix,
/// without which the far end does not forward it.
#[derive(Debug, Clone, Copy, PartialEq, Eq, Structural)]
pub struct EarlyWriter {
    pub at_line_start: bool,
}

/// The stores that output two texts are those that output the one, then the other.
proof fn lemma_says_add(console: EarlyConsole, a: Seq<u8>, b: Seq<u8>)
    ensures
        console.says(a + b) == console.says(a) + console.says(b),
{
    assert(console.says(a + b) =~= console.says(a) + console.says(b));
}

impl EarlyWriter {
    pub fn new() -> (writer: Self)
        ensures
            writer.at_line_start,
    {
        EarlyWriter { at_line_start: true }
    }

    /// Outputs a text.
    pub fn write_str<H: Hardware>(&mut self, bus: &mut Bus<H>, console: EarlyConsole, s: &str)
        ensures
            final(self).at_line_start == line_starts_after(
                old(self).at_line_start,
                vstd::utf8::encode_utf8(s@),
            ),
            final(bus).log() == old(bus).log() + console.says(
                rendered(old(self).at_line_start, vstd::utf8::encode_utf8(s@)),
            ),
    {
        let ghost start = bus.log();
        let ghost first = self.at_line_start;
        let bytes: &[u8] = s.as_bytes();
        let mut i: usize = 0;
        assert(bytes@.take(0) =~= Seq::<u8>::empty());
        assert(bus.log() =~= start + console.says(rendered(first, bytes@.take(0))));
        while i < bytes.len()
            invariant
                i <= bytes@.len(),
                bytes@.len() == bytes.len(),
                bytes@ == vstd::utf8::encode_utf8(s@),
                self.at_line_start == line_starts_after(first, bytes@.take(i as int)),
                bus.log() == start + console.says(rendered(first, bytes@.take(i as int))),
            decreases bytes.len() - i,
        {
            let c: u8 = bytes[i];
            let ghost before = bus.log();
            let ghost text = bytes@.take(i as int);
            let ghost mut more = Seq::<u8>::empty();
            assert(before =~= before + console.says(more));
            if self.at_line_start {
                let prefix: [u8; 7] = LINE_PREFIX;
                let mut k: usize = 0;
                assert(LINE_PREFIX@.take(0) =~= more);
                while k < 7
                    invariant
                        k <= 7,
                        prefix == LINE_PREFIX,
                        more == LINE_PREFIX@.take(k as int),
                        bus.log() == before + console.says(more),
                    decreases 7 - k,
                {
                    early_putchar(bus, console, prefix[k]);
                    proof {
                        lemma_says_add(console, more, seq![prefix@[k as int]]);
                        assert(more + seq![prefix@[k as int]] =~= LINE_PREFIX@.take(k + 1));
                        assert(bus.log() =~= before + console.says(LINE_PREFIX@.take(k + 1)));
                        more = LINE_PREFIX@.take(k + 1);
                    }
                    k += 1;
                }
                assert(LINE_PREFIX@.take(7) =~= LINE_PREFIX@);
            }
            if c == LF {
                early_putchar(bus, console, CR);
                proof {
                    lemma_says_add(console, more, seq![CR]);
                    assert(bus.log() =~= before + console.says(more + seq![CR]));
                    more = more + seq![CR];
                }
            }
            early_putchar(bus, console, c);
            proof {
                lemma_says_add(console, more, seq![c]);
                assert(bus.log() =~= before + console.says(more + seq![c]));
                more = more + seq![c];
                let longer = bytes@.take(i + 1);
                assert(longer.drop_last() =~= text);
                assert(longer.last() == c);
                assert(rendered(first, longer) =~= rendered(first, text) + more);
                lemma_says_add(console, rendered(first, text), more);
                assert(bus.log() =~= start + console.says(rendered(first, longer)));
            }
            self.at_line_start = c == LF;
            i += 1;
        }
        assert(bytes@.take(i as int) =~= bytes@);
    }
}

/// Notes that a panic is being reported. The answer is whether it is the first: one
/// that comes from the report itself must not be reported in the same way, or there
/// would be no end of it.
///
/// Processors that share the flag have to take turns: what one of them finds in it is
/// what the one before has left.
pub fn enter(in_panic: &mut bool) -> (first: bool)
    ensures
        first == !*old(in_panic),
        *final(in_panic),
{
    let first: bool = !*in_panic;
    *in_panic = true;
    first
}

/// However many times a panic is noted, and by whichever processors, it is the first
/// time exactly once: at first. `flags` holds what the flag was before each time and
/// after the last, in the order in which the flag was taken, and `firsts` the answers.
pub proof fn law_only_the_first_enters(flags: Seq<bool>, firsts: Seq<bool>)
    requires
        flags.len() == firsts.len() + 1,
        !flags[0],
        forall|i: int|
            0 <= i < firsts.len() ==> #[trigger] firsts[i] == !flags[i] && flags[i + 1],
    ensures
        forall|i: int| 0 <= i < firsts.len() ==> #[trigger] firsts[i] == (i == 0),
{
    assert forall|i: int| 0 <= i < firsts.len() implies #[trigger] firsts[i] == (i == 0) by {
        if i > 0 {
            assert(firsts[i - 1] == !flags[i - 1] && flags[i - 1 + 1]);
        }
    }
}

/// What is reported of a panic.
pub open spec fn panic_report(info: Seq<char>) -> Seq<u8> {
    vstd::utf8::encode_utf8("panic: "@) + vstd::utf8::encode_utf8(info)
        + vstd::utf8::encode_utf8("\n"@)
}

/// Reports a panic.
pub fn print_panic<H: Hardware>(bus: &mut Bus<H>, console: EarlyConsole, info: &str)
    ensures
        final(bus).log() == old(bus).log() + console.says(rendered(true, panic_report(info@))),
{
    let ghost start = bus.log();
    let ghost head = vstd::utf8::encode_utf8("panic: "@);
    let ghost body = vstd::utf8::encode_utf8(info@);
    let ghost tail = vstd::utf8::encode_utf8("\n"@);
    let mut writer: EarlyWriter = EarlyWriter::new();
    writer.write_str(bus, console, "panic: ");
    writer.write_str(bus, console, info);
    writer.write_str(bus, console, "\n");
    proof {
        law_text_can_be_split(true, head, body);
        law_text_can_be_split(true, head + body, tail);
        let a = rendered(true, head);
        let b = rendered(line_starts_after(true, head), body);
        let c = rendered(line_starts_after(true, head + body), tail);
        lemma_says_add(console, a, b);
        lemma_says_add(console, a + b, c);
        assert(bus.log() =~= start + console.says(a + b + c));
    }
}

/// How a panic ends.
#[derive(Debug, Clone, Copy, PartialEq, Eq, Structural)]
pub enum PanicEnd {
    /// The machine is reset.
    Reset,
    /// The panic is reported on the console and the log, and the machine is reset.
    ReportAndReset,
    /// The panic is reported on the console and the log, and the processor spins.
    ReportAndSpin,
}

/// Deals with a panic. Apple boards report it without any driver, and only once.
pub fn panic<H: Hardware>(
    bus: &mut Bus<H>,
    console: EarlyConsole,
    in_panic: &mut bool,
    baremetal_test: bool,
    info: &str,
) -> (end: PanicEnd)
    ensures
        *final(in_panic) == (*old(in_panic) || console.is_apple_board),
        end == (if console.is_apple_board {
            PanicEnd::Reset
        } else if baremetal_test {
            PanicEnd::ReportAndReset
        } else {
            PanicEnd::ReportAndSpin
        }),
        final(bus).log() == old(bus).log() + console.says(
            if *old(in_panic) {
                crlf(vstd::utf8::encode_utf8("HVLOG: panic in panic handler\n"@))
            } else {
                rendered(true, panic_report(info@))
            },
        ),
{
    if console.is_apple_board {
        if enter(in_panic) {
            print_panic(bus, console, info);
        } else {
            early_print(bus, console, "HVLOG: panic in panic handler\n");
        }
        return PanicEnd::Reset;
    }
    assert(bus.log() =~= old(bus).log() + Seq::<crate::hw::Access>::empty());
    if baremetal_test {
        PanicEnd::ReportAndReset
    } else {
        PanicEnd::ReportAndSpin
    }
}

} // verus!
