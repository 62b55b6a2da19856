//! Apple ASC mailbox (`apple,asc-mailbox-v4`).
//!
//! Two FIFOs carry 96-bit messages between the processor and an RTKit
//! coprocessor: A2I from the processor to the coprocessor, I2A back.

use vstd::prelude::*;

use crate::hw::{address, at, extends, poll_status, poll_trace, since, Access, Bus, Hardware};
use crate::soc::hvcall::{hv_write, is_hv_write};

verus! {

pub const A2I_CONTROL: u64 = 0x110;
pub const A2I_SEND0: u64 = 0x800;
pub const A2I_SEND1: u64 = 0x808;

pub const I2A_CONTROL: u64 = 0x114;
pub const I2A_RECV0: u64 = 0x830;
pub const I2A_RECV1: u64 = 0x838;

pub const CONTROL_FULL: u32 = 0x1_0000;
pub const CONTROL_EMPTY: u32 = 0x2_0000;

/// Repetitions allowed while waiting for room in the A2I FIFO.
pub const SPIN_TIMEOUT: u64 = 5_000_000;

/// A mailbox message: a 64-bit payload and an endpoint number in the low byte of
/// `msg1`. The upper bits of `msg1` carry FIFO counters on reception and must be
/// zero in a message that is sent.
#[derive(Debug, Clone, Copy, PartialEq, Eq, Structural)]
pub struct MailboxMessage {
    pub msg0: u64,
    pub msg1: u32,
}

impl Default for MailboxMessage {
    fn default() -> (msg: Self)
        ensures
            msg == (MailboxMessage { msg0: 0, msg1: 0 }),
    {
        MailboxMessage { msg0: 0, msg1: 0 }
    }
}

/// A mailbox, by the virtual address of its window (used for loads) and the
/// physical one (used for stores, which the hypervisor performs).
#[derive(Clone, Copy)]
pub struct AppleMailbox {
    base: u64,
    phys_base: u64,
}

/// The message that two words of the reception registers stand for.
pub open spec fn received(word0: u64, word1: u64) -> MailboxMessage {
    MailboxMessage { msg0: word0, msg1: (word1 % 0x1_0000_0000) as u32 }
}

impl AppleMailbox {
    pub closed spec fn base(self) -> u64 {
        self.base
    }

    pub closed spec fn phys_base(self) -> u64 {
        self.phys_base
    }

    /// The accesses of an attempt to send `msg`: the A2I control register is
    /// polled until the FIFO has room, and then both words are stored between two
    /// fences. When the FIFO stays full for too long nothing is stored.
    pub open spec fn sends(self, msg: MailboxMessage, trace: Seq<Access>, ok: bool) -> bool {
        let polled = if ok {
            trace.take(trace.len() - 4)
        } else {
            trace
        };
        &&& poll_trace(
            polled,
            at(self.base(), A2I_CONTROL),
            CONTROL_FULL,
            0,
            false,
            SPIN_TIMEOUT as nat,
            ok,
        )
        &&& ok ==> {
            let n = trace.len() - 4;
            &&& n >= 1
            &&& trace[n] == Access::Fence
            &&& is_hv_write(trace[n + 1], at(self.phys_base(), A2I_SEND0), 8, msg.msg0)
            &&& is_hv_write(trace[n + 2], at(self.phys_base(), A2I_SEND1), 8, msg.msg1 as u64)
            &&& trace[n + 3] == Access::Fence
        }
    }

    /// The accesses of an attempt to receive: the I2A control register, and then
    /// both words unless the FIFO is empty.
    pub open spec fn receives(self, trace: Seq<Access>, got: Option<MailboxMessage>) -> bool {
        &&& trace.len() == (if got is Some {
            3int
        } else {
            1
        })
        &&& trace[0] matches Access::Read32 { addr, val } && addr == at(self.base(), I2A_CONTROL)
            && (got is None <==> val & CONTROL_EMPTY != 0)
        &&& got matches Some(msg) ==> {
            &&& trace[1] matches Access::Read64 { addr: addr0, val: word0 } && addr0 == at(
                self.base(),
                I2A_RECV0,
            ) && (trace[2] matches Access::Read64 { addr: addr1, val: word1 } && addr1 == at(
                self.base(),
                I2A_RECV1,
            ) && msg == received(word0, word1))
        }
    }

    /// `trace` is `n` looks at an empty I2A FIFO.
    pub open spec fn idles(self, trace: Seq<Access>, n: nat) -> bool {
        &&& trace.len() == n
        &&& forall|i: int|
            0 <= i < n ==> (#[trigger] trace[i] matches Access::Read32 { addr, val } && addr == at(
                self.base(),
                I2A_CONTROL,
            ) && val & CONTROL_EMPTY != 0)
    }

    /// The accesses of a reception that tries up to `spins` times.
    pub open spec fn receives_within(
        self,
        spins: nat,
        trace: Seq<Access>,
        got: Option<MailboxMessage>,
    ) -> bool {
        if got is Some {
            &&& 3 <= trace.len() < spins + 3
            &&& self.idles(trace.take(trace.len() - 3), (trace.len() - 3) as nat)
            &&& self.receives(trace.skip(trace.len() - 3), got)
        } else {
            self.idles(trace, spins)
        }
    }

    /// `base` and `phys_base` are the virtual and the physical address of the
    /// mailbox's own window, not of the coprocessor's CPU-control window.
    pub fn new(base: u64, phys_base: u64) -> (mailbox: Self)
        ensures
            mailbox.base() == base,
            mailbox.phys_base() == phys_base,
    {
        AppleMailbox { base, phys_base }
    }

    /// Sends a message, waiting for the A2I FIFO to have room.
    pub fn send<H: Hardware>(&self, bus: &mut Bus<H>, msg: MailboxMessage) -> (ok: bool)
        ensures
            extends(old(bus).log(), final(bus).log()),
            self.sends(msg, since(old(bus).log(), final(bus).log()), ok),
    {
        let ghost start = bus.log();
        let ok: bool = poll_status(
            bus,
            address(self.base, A2I_CONTROL),
            CONTROL_FULL,
            0,
            false,
            SPIN_TIMEOUT,
        );
        if !ok {
            return false;
        }
        let ghost polled = bus.log();
        bus.fence();
        hv_write(bus, address(self.phys_base, A2I_SEND0), 8, msg.msg0);
        hv_write(bus, address(self.phys_base, A2I_SEND1), 8, msg.msg1 as u64);
        bus.fence();
        proof {
            let trace = since(start, bus.log());
            assert(bus.log().take(start.len() as int) =~= polled.take(start.len() as int));
            assert(trace.take(trace.len() - 4) =~= since(start, polled));
        }
        true
    }

    /// Takes a message out of the I2A FIFO if there is one.
    pub fn try_recv<H: Hardware>(&self, bus: &mut Bus<H>) -> (got: Option<MailboxMessage>)
        ensures
            extends(old(bus).log(), final(bus).log()),
            self.receives(since(old(bus).log(), final(bus).log()), got),
    {
        let ghost start = bus.log();
        let control: u32 = bus.read32(address(self.base, I2A_CONTROL));
        if control & CONTROL_EMPTY != 0 {
            assert(bus.log().take(start.len() as int) =~= start);
            return None;
        }
        let msg0: u64 = bus.read64(address(self.base, I2A_RECV0));
        let word1: u64 = bus.read64(address(self.base, I2A_RECV1));
        let msg1: u32 = (word1 % 0x1_0000_0000) as u32;
        assert(bus.log().take(start.len() as int) =~= start);
        Some(MailboxMessage { msg0, msg1 })
    }

    /// Receives a message, looking up to `spins` times for one to arrive.
    pub fn recv_timeout<H: Hardware>(&self, bus: &mut Bus<H>, spins: u64) -> (got: Option<
        MailboxMessage,
    >)
        ensures
            extends(old(bus).log(), final(bus).log()),
            self.receives_within(spins as nat, since(old(bus).log(), final(bus).log()), got),
    {
        let ghost start = bus.log();
        assert(start.take(start.len() as int) =~= start);
        let mut tries: u64 = 0;
        while tries < spins
            invariant
                start == old(bus).log(),
                tries <= spins,
                extends(start, bus.log()),
                self.idles(since(start, bus.log()), tries as nat),
            decreases spins - tries,
        {
            let ghost before = bus.log();
            let got: Option<MailboxMessage> = self.try_recv(bus);
            proof {
                crate::hw::lemma_since_chain(start, before, bus.log());
                let trace = since(start, bus.log());
                assert(trace =~= since(start, before) + since(before, bus.log()));
                if got is Some {
                    assert(trace.take(trace.len() - 3) =~= since(start, before));
                    assert(trace.skip(trace.len() - 3) =~= since(before, bus.log()));
                }
            }
            if got.is_some() {
                return got;
            }
            bus.spin_loop();
            tries += 1;
        }
        None
    }
}

/// Both words of a message that was sent are stored, whole and once each, after the
/// register that tells of room said that there was some.
pub proof fn law_message_is_stored(mailbox: AppleMailbox, msg: MailboxMessage, trace: Seq<Access>)
    requires
        mailbox.sends(msg, trace, true),
        mailbox.base() + 0x110 <= u64::MAX,
        mailbox.phys_base() + 0x808 <= u64::MAX,
    ensures
        ({
            let n = trace.len() - 4;
            &&& n >= 1
            &&& trace[n - 1] matches Access::Read32 { addr, val } && addr == mailbox.base() + 0x110
                && (val / 0x1_0000) % 2 == 0
            &&& forall|i: int|
                0 <= i < n - 1 ==> (#[trigger] trace[i] matches Access::Read32 { addr, val } && addr
                    == mailbox.base() + 0x110 && (val / 0x1_0000) % 2 == 1)
            &&& trace[n] is Fence && trace[n + 3] is Fence
            &&& trace[n + 1] matches Access::Hvcall { id, a1, a2, a3, ret } && id == 0x4e56_0002
                && a1 == mailbox.phys_base() + 0x800 && a2 == 8 && a3 == msg.msg0
            &&& trace[n + 2] matches Access::Hvcall { id, a1, a2, a3, ret } && id == 0x4e56_0002
                && a1 == mailbox.phys_base() + 0x808 && a2 == 8 && a3 == msg.msg1
        }),
{
    let n = trace.len() - 4;
    let polled = trace.take(n);
    assert(polled.last() == trace[n - 1]);
    assert forall|val: u32|
        #![trigger val / 0x1_0000]
        (val & 0x1_0000 == 0) == ((val / 0x1_0000) % 2 == 0) by {
        lemma_full(val);
    }
    assert forall|i: int| 0 <= i < n - 1 implies (#[trigger] trace[i] matches Access::Read32 {
        addr,
        val,
    } && addr == mailbox.base() + 0x110 && (val / 0x1_0000) % 2 == 1) by {
        assert(polled.drop_last()[i] == trace[i]);
    }
}

proof fn lemma_full(val: u32)
    by (bit_vector)
    ensures
        (val & 0x1_0000 == 0) == ((val / 0x1_0000) % 2 == 0),
        (val & 0x2_0000 == 0) == ((val / 0x2_0000) % 2 == 0),
{
}

/// A message that does not get room in time is not stored, not even in part.
pub proof fn law_unsent_message_leaves_nothing(
    mailbox: AppleMailbox,
    msg: MailboxMessage,
    trace: Seq<Access>,
    i: int,
)
    requires
        mailbox.sends(msg, trace, false),
        0 <= i < trace.len(),
    ensures
        trace[i] is Read32,
{
}

/// A message arrives as it was stored: whatever words another mailbox stored for a
/// message, whoever finds them in the reception registers has that message.
pub proof fn law_message_arrives(
    mailbox: AppleMailbox,
    msg: MailboxMessage,
    trace: Seq<Access>,
    other: AppleMailbox,
    look: Seq<Access>,
    got: Option<MailboxMessage>,
    control: u32,
    word0: u64,
    word1: u64,
)
    requires
        mailbox.sends(msg, trace, true),
        other.receives(look, got),
        other.base() + 0x838 <= u64::MAX,
        look[0] == (Access::Read32 { addr: (other.base() + 0x114) as u64, val: control }),
        (control / 0x2_0000) % 2 == 0,
        look[1] == (Access::Read64 { addr: (other.base() + 0x830) as u64, val: word0 }),
        look[2] == (Access::Read64 { addr: (other.base() + 0x838) as u64, val: word1 }),
        trace[trace.len() - 3] matches Access::Hvcall { id, a1, a2, a3, ret } && a3 == word0,
        trace[trace.len() - 2] matches Access::Hvcall { id, a1, a2, a3, ret } && a3 == word1,
    ensures
        got == Some(msg),
        look.len() == 3,
{
    lemma_full(control);
}

/// A message is taken out exactly when there is one, and then it is the one whose words
/// the two reception registers gave. What comes with the second word besides the
/// message is left away.
pub proof fn law_message_is_taken_out(
    mailbox: AppleMailbox,
    look: Seq<Access>,
    got: Option<MailboxMessage>,
)
    requires
        mailbox.receives(look, got),
        mailbox.base() + 0x838 <= u64::MAX,
    ensures
        look[0] matches Access::Read32 { addr, val } && {
            &&& addr == mailbox.base() + 0x114
            &&& (val / 0x2_0000) % 2 == 1 ==> got is None && look.len() == 1
            &&& (val / 0x2_0000) % 2 == 0 ==> {
                &&& look.len() == 3
                &&& look[1] matches Access::Read64 { addr: first, val: word0 } && look[2]
                    matches Access::Read64 { addr: second, val: word1 } && got matches Some(msg) && {
                    &&& first == mailbox.base() + 0x830
                    &&& second == mailbox.base() + 0x838
                    &&& msg.msg0 == word0
                    &&& msg.msg1 == word1 % 0x1_0000_0000
                }
            }
        },
{
    let control = look[0]->Read32_val;
    lemma_full(control);
}

/// Waiting gives up only after as many looks as were allowed, and a message that is
/// there at an allowed look is not missed.
pub proof fn law_wait_is_patient(
    mailbox: AppleMailbox,
    spins: nat,
    trace: Seq<Access>,
    got: Option<MailboxMessage>,
)
    requires
        mailbox.receives_within(spins, trace, got),
    ensures
        got is None ==> trace.len() == spins,
        got is Some ==> trace.len() - 3 < spins,
        forall|i: int|
            0 <= i < trace.len() - (if got is Some {
                3int
            } else {
                0
            }) ==> (#[trigger] trace[i] matches Access::Read32 { addr, val } && (val / 0x2_0000) % 2
                == 1),
{
    let n = trace.len() - (if got is Some {
        3int
    } else {
        0
    });
    assert forall|i: int| 0 <= i < n implies (#[trigger] trace[i] matches Access::Read32 {
        addr,
        val,
    } && (val / 0x2_0000) % 2 == 1) by {
        let idle = if got is Some {
            trace.take(n)
        } else {
            trace
        };
        assert(idle[i] == trace[i]);
        lemma_full(trace[i]->Read32_val);
    }
}

} // verus!
