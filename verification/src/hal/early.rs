//! Output before any driver is up.
//!
//! While page tables are being switched neither locks nor the heap can be used.
//! Characters are stored straight into the serial port's transmission register.

use vstd::prelude::*;

use crate::hw::{address, at, Access, Bus, Hardware};
use crate::uart::uart_s5l::{CR, LF, UTXH};

verus! {

/// The stores that send `bytes` through the register at `port`.
pub open spec fn sent(port: u64, bytes: Seq<u8>) -> Seq<Access> {
    Seq::new(bytes.len(), |i: int| Access::Write32 { addr: port, val: bytes[i] as u32 })
}

/// `text` with a carriage return before each line feed.
pub open spec fn crlf(text: Seq<u8>) -> Seq<u8>
    decreases text.len(),
{
    if text.len() == 0 {
        Seq::empty()
    } else {
        crlf(text.drop_last()) + if text.last() == LF {
            seq![CR, LF]
        } else {
            seq![text.last()]
        }
    }
}

/// A hexadecimal digit, as a character.
pub open spec fn hex_digit(nibble: nat) -> u8 {
    if nibble < 10 {
        (48 + nibble) as u8
    } else {
        (87 + nibble) as u8
    }
}

/// The hexadecimal digits of a number, without leading zeroes.
pub open spec fn hex_digits(v: nat) -> Seq<u8>
    decreases v,
{
    if v < 16 {
        seq![hex_digit(v)]
    } else {
        hex_digits(v / 16).push(hex_digit(v % 16))
    }
}

/// A number as `0x…`.
pub open spec fn hex(v: nat) -> Seq<u8> {
    seq![48u8, 120u8] + hex_digits(v)
}

/// Sends one character.
fn put<H: Hardware>(bus: &mut Bus<H>, port: u64, c: u8)
    ensures
        final(bus).log() == old(bus).log().push(Access::Write32 { addr: port, val: c as u32 }),
        final(bus).hints() == old(bus).hints(),
{
    bus.write32(port, c as u32);
}

/// Sends a text through the serial port at `uart_base`.
pub fn early_puts<H: Hardware>(bus: &mut Bus<H>, uart_base: u64, s: &str)
    ensures
        final(bus).log() == old(bus).log() + sent(
            at(uart_base, UTXH),
            crlf(vstd::utf8::encode_utf8(s@)),
        ),
        final(bus).hints() == old(bus).hints(),
{
    let ghost start = bus.log();
    let port: u64 = address(uart_base, UTXH);
    let bytes: &[u8] = s.as_bytes();
    let mut i: usize = 0;
    proof {
        assert(bytes@.take(0) =~= Seq::<u8>::empty());
        assert(bus.log() =~= start + sent(port, crlf(bytes@.take(0))));
    }
    while i < bytes.len()
        invariant
            i <= bytes.len(),
            bytes@ == vstd::utf8::encode_utf8(s@),
            bus.hints() == old(bus).hints(),
            bus.log() == start + sent(port, crlf(bytes@.take(i as int))),
        decreases bytes.len() - i,
    {
        let b: u8 = bytes[i];
        proof {
            assert(bytes@.take(i + 1).drop_last() =~= bytes@.take(i as int));
            assert(bytes@.take(i + 1).last() == b);
        }
        if b == LF {
            put(bus, port, CR);
        }
        put(bus, port, b);
        assert(bus.log() =~= start + sent(port, crlf(bytes@.take(i + 1))));
        i += 1;
    }
    assert(bytes@.take(i as int) =~= bytes@);
}

/// What is left of `v` above its lowest `4 * shift` bits.
spec fn above(v: u64, shift: int) -> nat
    decreases shift,
{
    if shift <= 0 {
        v as nat
    } else {
        above(v, shift - 1) / 16
    }
}

proof fn lemma_above_zero(v: u64)
    ensures
        above(v, 16) == 0,
{
    reveal_with_fuel(above, 17);
}

/// Sends a number as `0x…` through the serial port at `uart_base`.
pub fn early_hex<H: Hardware>(bus: &mut Bus<H>, uart_base: u64, v: u64)
    ensures
        final(bus).log() == old(bus).log() + sent(at(uart_base, UTXH), hex(v as nat)),
        final(bus).hints() == old(bus).hints(),
{
    let ghost start = bus.log();
    let port: u64 = address(uart_base, UTXH);
    put(bus, port, 48);
    put(bus, port, 120);
    if v == 0 {
        put(bus, port, 48);
        assert(bus.log() =~= start + sent(port, hex(0)));
        return;
    }
    // The digits of `v`, least significant first.
    let mut digits: [u8; 16] = [0; 16];
    let mut rest: u64 = v;
    let mut shift: usize = 0;
    while shift < 16
        invariant
            shift <= 16,
            rest == above(v, shift as int),
            forall|k: int|
                0 <= k < shift ==> #[trigger] digits@[k] == above(v, k) % 16,
        decreases 16 - shift,
    {
        digits[shift] = (rest % 16) as u8;
        rest = rest / 16;
        shift += 1;
    }
    let mut started: bool = false;
    assert(bus.log() =~= start + sent(port, seq![48u8, 120u8]));
    proof {
        lemma_above_zero(v);
    }
    while shift > 0
        invariant
            shift <= 16,
            forall|k: int| 0 <= k < 16 ==> #[trigger] digits@[k] == above(v, k) % 16,
            started == (above(v, shift as int) != 0),
            bus.hints() == old(bus).hints(),
            bus.log() == start + sent(
                port,
                seq![48u8, 120u8] + if started {
                    hex_digits(above(v, shift as int))
                } else {
                    Seq::<u8>::empty()
                },
            ),
        decreases shift,
    {
        let ghost higher = above(v, shift as int);
        shift -= 1;
        let nibble: u8 = digits[shift];
        let ghost here = above(v, shift as int);
        assert(higher == here / 16);
        assert(nibble == here % 16);
        started = started || nibble != 0;
        if started {
            let c: u8 = if nibble < 10 {
                48 + nibble
            } else {
                97 + (nibble - 10)
            };
            put(bus, port, c);
            proof {
                if higher == 0 {
                    assert(hex_digits(here) =~= seq![c]);
                } else {
                    assert(hex_digits(here) =~= hex_digits(higher).push(c));
                }
                assert(bus.log() =~= start + sent(port, seq![48u8, 120u8] + hex_digits(here)));
            }
        }
    }
    assert(above(v, 0) == v);
}

/// The hexadecimal value of a character, in the form that `hex` produces.
pub open spec fn digit_value(c: u8) -> nat {
    if c < 58 {
        (c - 48) as nat
    } else {
        (c - 87) as nat
    }
}

/// The number that hexadecimal digits stand for.
pub open spec fn hex_value(digits: Seq<u8>) -> nat
    decreases digits.len(),
{
    if digits.len() == 0 {
        0
    } else {
        hex_value(digits.drop_last()) * 16 + digit_value(digits.last())
    }
}

/// The digits that are printed stand for the number, and the first of them is not
/// a superfluous zero.
pub proof fn law_hex_can_be_read_back(v: nat)
    ensures
        hex_value(hex_digits(v)) == v,
        hex_digits(v).len() > 0,
        v > 0 ==> hex_digits(v)[0] != hex_digit(0),
    decreases v,
{
    if v < 16 {
        assert(hex_digits(v).drop_last() =~= Seq::<u8>::empty());
        assert(hex_value(Seq::<u8>::empty()) == 0);
        assert(digit_value(hex_digit(v)) == v);
    } else {
        law_hex_can_be_read_back(v / 16);
        assert(hex_digits(v).drop_last() =~= hex_digits(v / 16));
        assert(hex_digits(v)[0] == hex_digits(v / 16)[0]);
        assert(digit_value(hex_digit(v % 16)) == v % 16);
    }
}

/// A line comes out as its own characters and the two characters that end it.
pub proof fn law_lines_end_properly(line: Seq<u8>, rest: Seq<u8>)
    requires
        forall|i: int| 0 <= i < line.len() ==> line[i] != 10,
    ensures
        crlf(line.push(10) + rest) == line + seq![13u8, 10] + crlf(rest),
        crlf(line) == line,
    decreases rest.len(),
{
    lemma_inside_a_line(line);
    let ended = line.push(10);
    if rest.len() == 0 {
        assert(ended + rest =~= ended);
        assert(ended.drop_last() =~= line);
        assert(crlf(ended) =~= line + seq![13u8, 10] + crlf(rest));
    } else {
        law_lines_end_properly(line, rest.drop_last());
        let all = ended + rest;
        assert(all.drop_last() =~= ended + rest.drop_last());
        assert(all.last() == rest.last());
        assert(crlf(all) =~= line + seq![13u8, 10] + crlf(rest));
    }
}

proof fn lemma_inside_a_line(line: Seq<u8>)
    requires
        forall|i: int| 0 <= i < line.len() ==> line[i] != 10,
    ensures
        crlf(line) == line,
    decreases line.len(),
{
    if line.len() > 0 {
        lemma_inside_a_line(line.drop_last());
        assert(line[line.len() - 1] != 10);
        assert(crlf(line) =~= line);
    } else {
        assert(crlf(line) =~= line);
    }
}

/// Output goes to the transmission register of the serial port, byte by byte and in order.
pub proof fn law_output_goes_to_the_port(uart_base: u64, bytes: Seq<u8>, i: int)
    requires
        uart_base + 0x20 <= u64::MAX,
        0 <= i < bytes.len(),
    ensures
        sent(at(uart_base, UTXH), bytes).len() == bytes.len(),
        sent(at(uart_base, UTXH), bytes)[i] == (Access::Write32 {
            addr: (uart_base + 0x20) as u64,
            val: bytes[i] as u32,
        }),
{
}

} // verus!
