//! The RTKit protocol: booting a coprocessor and serving its system endpoints.
//!
//! A coprocessor that is busy with a device command may at any time ask for a log
//! buffer or report its power state, and stalls until it is answered.

use vstd::prelude::*;

use crate::bus::PageSize;
use crate::hw::{address, at, extends, since, Access, Bus, Hardware};
use crate::soc::apple_mailbox::{AppleMailbox, MailboxMessage};
use crate::soc::apple_sart::AppleSart;
use crate::soc::hvcall::{hv_write, is_hv_write};

verus! {

pub const EP_MGMT: u8 = 0;
pub const EP_CRASHLOG: u8 = 1;
pub const EP_SYSLOG: u8 = 2;
pub const EP_DEBUG: u8 = 3;
pub const EP_IOREPORT: u8 = 4;
pub const EP_OSLOG: u8 = 8;

/// Endpoints from this number on belong to the device's own protocol.
pub const EP_APPLICATION: u8 = 0x20;

pub const MSG_BUFFER_REQUEST: u64 = 1;
pub const MSG_SYSLOG_LOG: u64 = 5;
pub const MSG_IOREPORT_START: u64 = 0x8;
pub const MSG_IOREPORT_REPORT: u64 = 0xc;

pub const MGMT_MSG_HELLO: u64 = 1;
pub const MGMT_MSG_HELLO_ACK: u64 = 2;
pub const MGMT_MSG_START_EP: u64 = 5;
pub const MGMT_MSG_IOP_PWR_STATE: u64 = 6;
pub const MGMT_MSG_IOP_PWR_STATE_ACK: u64 = 7;
pub const MGMT_MSG_EPMAP: u64 = 8;
pub const MGMT_MSG_AP_PWR_STATE: u64 = 0xb;
pub const MGMT_MSG_AP_PWR_STATE_ACK: u64 = 0xb;
pub const MGMT_MSG_EPMAP_DONE: u64 = 0x8_0000_0000_0000;
pub const MGMT_MSG_EPMAP_MORE: u64 = 1;
pub const START_EP_FLAG: u64 = 2;

pub const RTKIT_MIN_VERSION: u64 = 11;
pub const RTKIT_MAX_VERSION: u64 = 12;

pub const POWER_ON: u64 = 0x20;
pub const POWER_INIT: u64 = 0x220;

pub const HANDSHAKE_SPIN_TIMEOUT: u64 = 5_000_000;
pub const BOOT_SPIN_TIMEOUT: u64 = 20_000_000;

pub const ASC_CPU_CONTROL: u64 = 0x44;
pub const ASC_CPU_CONTROL_START: u32 = 0x10;

/// The kind of a message: bits 52 to 59 of its payload.
pub open spec fn spec_msg_type(msg0: u64) -> u64 {
    (msg0 >> 52) & 0xff
}

/// The payload of kind `ty` whose other bits are zero.
pub open spec fn spec_make_type(ty: u64) -> u64 {
    (ty & 0xff) << 52
}

/// The power state in a payload: its low 16 bits.
pub open spec fn spec_pwr_state(msg0: u64) -> u64 {
    msg0 & 0xffff
}

/// How many 4 KiB pages a buffer request asks for: bits 44 to 51.
pub open spec fn spec_buffer_request_pages(msg0: u64) -> u64 {
    (msg0 >> 44) & 0xff
}

/// The device address in a buffer request: bits 0 to 41.
pub open spec fn spec_buffer_request_iova(msg0: u64) -> u64 {
    msg0 & 0x3ff_ffff_ffff
}

#[verifier::when_used_as_spec(spec_msg_type)]
pub fn msg_type(msg0: u64) -> (ty: u64)
    ensures
        ty == spec_msg_type(msg0),
{
    (msg0 >> 52) & 0xff
}

#[verifier::when_used_as_spec(spec_make_type)]
pub fn make_type(ty: u64) -> (msg0: u64)
    ensures
        msg0 == spec_make_type(ty),
{
    (ty & 0xff) << 52
}

#[verifier::when_used_as_spec(spec_pwr_state)]
pub fn pwr_state(msg0: u64) -> (state: u64)
    ensures
        state == spec_pwr_state(msg0),
{
    msg0 & 0xffff
}

#[verifier::when_used_as_spec(spec_buffer_request_pages)]
pub fn buffer_request_pages(msg0: u64) -> (pages: u64)
    ensures
        pages == spec_buffer_request_pages(msg0),
{
    (msg0 >> 44) & 0xff
}

#[verifier::when_used_as_spec(spec_buffer_request_iova)]
pub fn buffer_request_iova(msg0: u64) -> (iova: u64)
    ensures
        iova == spec_buffer_request_iova(msg0),
{
    msg0 & 0x3ff_ffff_ffff
}

/// The endpoint that a message belongs to.
pub open spec fn spec_endpoint(msg: MailboxMessage) -> u8 {
    (msg.msg1 & 0xff) as u8
}

#[verifier::when_used_as_spec(spec_endpoint)]
pub fn endpoint(msg: MailboxMessage) -> (ep: u8)
    ensures
        ep == spec_endpoint(msg),
{
    (msg.msg1 & 0xff) as u8
}

/// A message for endpoint `ep`.
pub open spec fn to_endpoint(msg0: u64, ep: u8) -> MailboxMessage {
    MailboxMessage { msg0, msg1: ep as u32 }
}

/// The message that starts endpoint `ep`.
pub open spec fn start_message(ep: u8) -> MailboxMessage {
    to_endpoint(make_type(MGMT_MSG_START_EP) | START_EP_FLAG | ((ep as u64) << 32), EP_MGMT)
}

/// The answer to a request for a buffer: the same number of pages, and where
/// they are.
pub open spec fn buffer_reply(pages: u64, pa: u64, ep: u8) -> MailboxMessage {
    to_endpoint(make_type(MSG_BUFFER_REQUEST) | (pages << 44) | pa, ep)
}

/// The size of the allocation that serves a request for `pages` pages of 4 KiB: a
/// whole number of page frames, and at least one.
pub open spec fn buffer_size(pages: u64, frame: PageSize) -> nat {
    if pages == 0 {
        frame.bytes() as nat
    } else {
        ((pages * 0x1000 + frame.bytes() - 1) / (frame.bytes() as int) * frame.bytes()) as nat
    }
}

/// A DMA buffer lent to the coprocessor; both addresses are zero until it is.
#[derive(Clone, Copy, PartialEq, Eq, Structural)]
pub struct Buffer {
    pub va: u64,
    pub pa: u64,
}

/// What a message from the coprocessor calls for.
#[derive(Clone, Copy, PartialEq, Eq, Structural)]
pub enum Duty {
    /// Nothing.
    Ignore,
    /// The coprocessor's power state is now this one.
    IopPower(u64),
    /// The coprocessor knows of this power state of the processor.
    ApPower(u64),
    /// The message has to be sent back as it is.
    Echo,
    /// A buffer has to be provided for this endpoint.
    Provide(u8),
    /// The coprocessor has crashed.
    Crashed,
}

/// What `msg` calls for. A second request for a crash log buffer is how a crash
/// shows.
pub open spec fn spec_duty(msg: MailboxMessage, crashlog_provided: bool) -> Duty {
    let ep = endpoint(msg);
    let ty = msg_type(msg.msg0);
    if ep == EP_MGMT && ty == MGMT_MSG_IOP_PWR_STATE_ACK {
        Duty::IopPower(pwr_state(msg.msg0))
    } else if ep == EP_MGMT && ty == MGMT_MSG_AP_PWR_STATE_ACK {
        Duty::ApPower(pwr_state(msg.msg0))
    } else if ep == EP_SYSLOG && ty == MSG_SYSLOG_LOG {
        Duty::Echo
    } else if ep == EP_IOREPORT && (ty == MSG_IOREPORT_START || ty == MSG_IOREPORT_REPORT) {
        Duty::Echo
    } else if ep == EP_CRASHLOG && ty == MSG_BUFFER_REQUEST && crashlog_provided {
        Duty::Crashed
    } else if (ep == EP_SYSLOG || ep == EP_CRASHLOG || ep == EP_IOREPORT) && ty
        == MSG_BUFFER_REQUEST {
        Duty::Provide(ep)
    } else {
        Duty::Ignore
    }
}

/// Tells what `msg` calls for.
#[verifier::when_used_as_spec(spec_duty)]
pub fn duty(msg: MailboxMessage, crashlog_provided: bool) -> (what: Duty)
    ensures
        what == spec_duty(msg, crashlog_provided),
{
    let ep: u8 = endpoint(msg);
    if ep >= EP_APPLICATION {
        return Duty::Ignore;
    }
    let ty: u64 = msg_type(msg.msg0);
    match ep {
        EP_MGMT => match ty {
            MGMT_MSG_IOP_PWR_STATE_ACK => Duty::IopPower(pwr_state(msg.msg0)),
            MGMT_MSG_AP_PWR_STATE_ACK => Duty::ApPower(pwr_state(msg.msg0)),
            _ => Duty::Ignore,
        },
        EP_SYSLOG => match ty {
            MSG_BUFFER_REQUEST => Duty::Provide(EP_SYSLOG),
            MSG_SYSLOG_LOG => Duty::Echo,
            _ => Duty::Ignore,
        },
        EP_CRASHLOG => {
            if ty == MSG_BUFFER_REQUEST {
                if crashlog_provided {
                    Duty::Crashed
                } else {
                    Duty::Provide(EP_CRASHLOG)
                }
            } else {
                Duty::Ignore
            }
        },
        EP_IOREPORT => match ty {
            MSG_BUFFER_REQUEST => Duty::Provide(EP_IOREPORT),
            MSG_IOREPORT_START => Duty::Echo,
            MSG_IOREPORT_REPORT => Duty::Echo,
            _ => Duty::Ignore,
        },
        _ => Duty::Ignore,
    }
}

/// The protocol version to speak, if `hello` is a HELLO whose version range
/// overlaps the supported one: the largest that both sides know.
pub open spec fn spec_agreed_version(hello: MailboxMessage) -> Option<u64> {
    let min = hello.msg0 & 0xffff;
    let max = (hello.msg0 >> 16) & 0xffff;
    if endpoint(hello) != EP_MGMT || msg_type(hello.msg0) != MGMT_MSG_HELLO || min
        > RTKIT_MAX_VERSION || max < RTKIT_MIN_VERSION {
        None
    } else if max < RTKIT_MAX_VERSION {
        Some(max)
    } else {
        Some(RTKIT_MAX_VERSION)
    }
}

/// Tells which version to speak with a coprocessor that sent `hello`.
#[verifier::when_used_as_spec(spec_agreed_version)]
pub fn agreed_version(hello: MailboxMessage) -> (version: Option<u64>)
    ensures
        version == spec_agreed_version(hello),
{
    if endpoint(hello) != EP_MGMT {
        return None;
    }
    if msg_type(hello.msg0) != MGMT_MSG_HELLO {
        return None;
    }
    let min_ver: u64 = hello.msg0 & 0xffff;
    let max_ver: u64 = (hello.msg0 >> 16) & 0xffff;
    if min_ver > RTKIT_MAX_VERSION || max_ver < RTKIT_MIN_VERSION {
        return None;
    }
    if max_ver < RTKIT_MAX_VERSION {
        Some(max_ver)
    } else {
        Some(RTKIT_MAX_VERSION)
    }
}

/// The message that settles on `version`.
pub open spec fn hello_ack(version: u64) -> MailboxMessage {
    to_endpoint(make_type(MGMT_MSG_HELLO_ACK) | version | (version << 16), EP_MGMT)
}

/// The system endpoints that a coprocessor has.
#[derive(Clone, Copy, PartialEq, Eq, Structural)]
pub struct Endpoints {
    pub crashlog: bool,
    pub syslog: bool,
    pub debug: bool,
    pub ioreport: bool,
    pub oslog: bool,
}

/// Whether the endpoint map message `msg0` announces endpoint `ep`: bit `ep` of
/// the bitmap in the low word of the block whose base is zero.
pub open spec fn announces(msg0: u64, ep: u8) -> bool {
    (msg0 >> 32) & 0x7 == 0 && msg0 & (1u64 << (ep as u64)) != 0
}

/// The endpoints known once `msg0` was seen.
pub open spec fn spec_add_endpoints(known: Endpoints, msg0: u64) -> Endpoints {
    Endpoints {
        crashlog: known.crashlog || announces(msg0, EP_CRASHLOG),
        syslog: known.syslog || announces(msg0, EP_SYSLOG),
        debug: known.debug || announces(msg0, EP_DEBUG),
        ioreport: known.ioreport || announces(msg0, EP_IOREPORT),
        oslog: known.oslog || announces(msg0, EP_OSLOG),
    }
}

/// Adds the endpoints that the endpoint map message `msg0` announces.
#[verifier::when_used_as_spec(spec_add_endpoints)]
pub fn add_endpoints(known: Endpoints, msg0: u64) -> (now: Endpoints)
    ensures
        now == spec_add_endpoints(known, msg0),
{
    let bitmap: u32 = (msg0 & 0xffff_ffff) as u32;
    let base: u64 = (msg0 >> 32) & 0x7;
    let mut now: Endpoints = known;
    let mut i: u8 = 0;
    while i < 32
        invariant
            i <= 32,
            bitmap == (msg0 & 0xffff_ffff) as u32,
            base == (msg0 >> 32) & 0x7,
            now.crashlog == (known.crashlog || (i > EP_CRASHLOG && announces(msg0, EP_CRASHLOG))),
            now.syslog == (known.syslog || (i > EP_SYSLOG && announces(msg0, EP_SYSLOG))),
            now.debug == (known.debug || (i > EP_DEBUG && announces(msg0, EP_DEBUG))),
            now.ioreport == (known.ioreport || (i > EP_IOREPORT && announces(msg0, EP_IOREPORT))),
            now.oslog == (known.oslog || (i > EP_OSLOG && announces(msg0, EP_OSLOG))),
        decreases 32 - i,
    {
        proof {
            lemma_bitmap(msg0, i);
        }
        if bitmap & (1u32 << (i as u32)) != 0 {
            proof {
                assert((msg0 >> 32) & 0x7 <= 7) by (bit_vector);
            }
            let idx: u64 = 32 * base + i as u64;
            if idx < 0x20 {
                match i {
                    EP_CRASHLOG => {
                        now.crashlog = true;
                    },
                    EP_DEBUG => {
                        now.debug = true;
                    },
                    EP_IOREPORT => {
                        now.ioreport = true;
                    },
                    EP_SYSLOG => {
                        now.syslog = true;
                    },
                    EP_OSLOG => {
                        now.oslog = true;
                    },
                    _ => {},
                }
            }
        }
        i += 1;
    }
    now
}

proof fn lemma_bitmap(msg0: u64, i: u8)
    by (bit_vector)
    requires
        i < 32,
    ensures
        (((msg0 & 0xffff_ffff) as u32) & (1u32 << (i as u32)) != 0) == (msg0 & (1u64 << (i as u64))
            != 0),
{
}

/// The answer to the endpoint map message `msg0`.
pub open spec fn epmap_reply(msg0: u64) -> MailboxMessage {
    to_endpoint(
        make_type(MGMT_MSG_EPMAP) | (((msg0 >> 32) & 0x7) << 32) | if msg0 & MGMT_MSG_EPMAP_DONE
            != 0 {
            MGMT_MSG_EPMAP_DONE
        } else {
            MGMT_MSG_EPMAP_MORE
        },
        EP_MGMT,
    )
}

/// A coprocessor: its mailbox, its DMA allow-list, and what it has reported.
pub struct AppleRtKit {
    /// The size of page frames, in which memory is allocated.
    pub page: PageSize,
    pub mailbox: AppleMailbox,
    pub sart: AppleSart,
    pub iop_power: u64,
    pub ap_power: u64,
    pub syslog_bfr: Buffer,
    pub crashlog_bfr: Buffer,
    pub ioreport_bfr: Buffer,
}

/// One message taken out of the mailbox and served.
pub struct Round {
    pub before: AppleRtKit,
    pub msg: MailboxMessage,
    pub after: AppleRtKit,
    pub trace: Seq<Access>,
}

impl Round {
    /// The message was received and then served; `ok` says whether the
    /// coprocessor is still usable afterwards.
    pub open spec fn served(self, ok: bool) -> bool {
        &&& self.trace.len() >= 3
        &&& self.before.mailbox.receives(self.trace.take(3), Some(self.msg))
        &&& self.before.dispatches(self.after, self.msg, self.trace.skip(3), ok)
    }
}

/// Messages served one after the other, from `first` on, each of them leaving
/// the coprocessor usable. They make up `trace` and end in `last`.
pub open spec fn rounds_served(
    first: AppleRtKit,
    rounds: Seq<Round>,
    last: AppleRtKit,
    trace: Seq<Access>,
) -> bool
    decreases rounds.len(),
{
    if rounds.len() == 0 {
        last == first && trace.len() == 0
    } else {
        let round = rounds.last();
        let n = trace.len() - round.trace.len();
        &&& round.served(true)
        &&& round.after == last
        &&& n >= 0
        &&& trace.skip(n) == round.trace
        &&& rounds_served(first, rounds.drop_last(), round.before, trace.take(n))
    }
}

impl AppleRtKit {
    pub open spec fn wf(self) -> bool {
        self.sart.wf()
    }

    /// Nothing has been heard from the coprocessor yet, and it has no buffers.
    pub open spec fn is_fresh(self) -> bool {
        let none = Buffer { va: 0, pa: 0 };
        self == AppleRtKit {
            page: self.page,
            mailbox: self.mailbox,
            sart: self.sart,
            iop_power: 0,
            ap_power: 0,
            syslog_bfr: none,
            crashlog_bfr: none,
            ioreport_bfr: none,
        }
    }

    /// The state in which `ep` has the buffer `buf`, cleared by `sart`.
    pub open spec fn with_buffer(self, ep: u8, buf: Buffer, sart: AppleSart) -> Self {
        AppleRtKit {
            sart,
            syslog_bfr: if ep == EP_SYSLOG {
                buf
            } else {
                self.syslog_bfr
            },
            crashlog_bfr: if ep == EP_CRASHLOG {
                buf
            } else {
                self.crashlog_bfr
            },
            ioreport_bfr: if ep == EP_IOREPORT {
                buf
            } else {
                self.ioreport_bfr
            },
            ..self
        }
    }

    /// What a request for a buffer leads to. A request that names a device
    /// address is refused, as there is no IOMMU to translate it. Otherwise a
    /// zeroed buffer is allocated, cleared for DMA, and its address sent back; if
    /// it cannot be cleared it is released again.
    pub open spec fn provides(
        self,
        after: Self,
        msg: MailboxMessage,
        ep: u8,
        trace: Seq<Access>,
        ok: bool,
    ) -> bool {
        let pages = buffer_request_pages(msg.msg0);
        let size = buffer_size(pages, self.page) as u64;
        if buffer_request_iova(msg.msg0) != 0 {
            !ok && after == self && trace.len() == 0
        } else {
            &&& trace.len() >= 3
            &&& trace[0] matches Access::AllocDma { size: asked, va, pa } && {
                &&& asked == size
                &&& trace[1] == Access::Zero { va, size }
                &&& if trace[2] is DeallocDma {
                    &&& !ok
                    &&& after == self
                    &&& self.sart.allows(after.sart, pa, size, Seq::empty(), false)
                    &&& trace.len() == 3
                    &&& trace[2] == Access::DeallocDma { va, size }
                } else {
                    &&& trace.len() >= 5
                    &&& self.sart.allows(after.sart, pa, size, trace.subrange(2, 5), true)
                    &&& after == self.with_buffer(ep, Buffer { va, pa }, after.sart)
                    &&& self.mailbox.sends(buffer_reply(pages, pa, ep), trace.skip(5), ok)
                }
            }
        }
    }

    /// What serving `msg` leads to.
    pub open spec fn dispatches(
        self,
        after: Self,
        msg: MailboxMessage,
        trace: Seq<Access>,
        ok: bool,
    ) -> bool {
        match duty(msg, self.crashlog_bfr.pa != 0) {
            Duty::Ignore => ok && after == self && trace.len() == 0,
            Duty::IopPower(state) => ok && trace.len() == 0 && after == (AppleRtKit {
                iop_power: state,
                ..self
            }),
            Duty::ApPower(state) => ok && trace.len() == 0 && after == (AppleRtKit {
                ap_power: state,
                ..self
            }),
            Duty::Echo => ok && after == self && (self.mailbox.sends(msg, trace, true)
                || self.mailbox.sends(msg, trace, false)),
            Duty::Provide(ep) => self.provides(after, msg, ep, trace, ok),
            Duty::Crashed => !ok && after == self && trace.len() == 0,
        }
    }

    /// What draining the mailbox leads to: messages are served in order of
    /// arrival until the mailbox is found empty or one of them reveals that the
    /// coprocessor is unusable.
    pub open spec fn drains(self, after: Self, trace: Seq<Access>, ok: bool) -> bool {
        exists|rounds: Seq<Round>, mid: AppleRtKit, n: int|
            0 <= n <= trace.len() && #[trigger] rounds_served(self, rounds, mid, trace.take(n))
                && mid.drain_ends(after, rounds.len(), trace.skip(n), ok)
    }

    /// How draining ends after `count` served messages.
    pub open spec fn drain_ends(
        self,
        after: Self,
        count: nat,
        trace: Seq<Access>,
        ok: bool,
    ) -> bool {
        if ok {
            &&& after == self
            &&& self.mailbox.receives(trace, None) || (count == u64::MAX && trace.len() == 0)
        } else {
            exists|msg: MailboxMessage|
                #[trigger] (Round { before: self, msg, after, trace }).served(false)
        }
    }

    pub fn new(mailbox: AppleMailbox, sart: AppleSart, page: PageSize) -> (rtkit: Self)
        ensures
            rtkit.page == page,
            rtkit.mailbox == mailbox,
            rtkit.sart == sart,
            rtkit.is_fresh(),
    {
        AppleRtKit {
            page,
            mailbox,
            sart,
            iop_power: 0,
            ap_power: 0,
            syslog_bfr: Buffer { va: 0, pa: 0 },
            crashlog_bfr: Buffer { va: 0, pa: 0 },
            ioreport_bfr: Buffer { va: 0, pa: 0 },
        }
    }

    /// Sends a payload to an endpoint.
    pub fn send<H: Hardware>(&self, bus: &mut Bus<H>, msg0: u64, ep: u8) -> (ok: bool)
        ensures
            extends(old(bus).log(), final(bus).log()),
            self.mailbox.sends(
                to_endpoint(msg0, ep),
                since(old(bus).log(), final(bus).log()),
                ok,
            ),
    {
        self.mailbox.send(bus, MailboxMessage { msg0, msg1: ep as u32 })
    }

    /// Asks the coprocessor to start an endpoint.
    pub fn start_ep<H: Hardware>(&self, bus: &mut Bus<H>, ep: u8) -> (ok: bool)
        ensures
            extends(old(bus).log(), final(bus).log()),
            self.mailbox.sends(
                start_message(ep),
                since(old(bus).log(), final(bus).log()),
                ok,
            ),
    {
        self.send(bus, make_type(MGMT_MSG_START_EP) | START_EP_FLAG | ((ep as u64) << 32), EP_MGMT)
    }

    /// Provides the buffer that `msg` asks for on behalf of endpoint `ep`.
    pub fn handle_buffer_request<H: Hardware>(
        &mut self,
        bus: &mut Bus<H>,
        msg: MailboxMessage,
        ep: u8,
    ) -> (ok: bool)
        requires
            old(self).wf(),
        ensures
            final(self).wf(),
            extends(old(bus).log(), final(bus).log()),
            old(self).provides(
                *final(self),
                msg,
                ep,
                since(old(bus).log(), final(bus).log()),
                ok,
            ),
    {
        let ghost start = bus.log();
        proof {
            crate::hw::lemma_since_self(start);
            lemma_buffer_size(buffer_request_pages(msg.msg0), msg.msg0, self.page);
        }
        let pages: u64 = buffer_request_pages(msg.msg0);
        let iova: u64 = buffer_request_iova(msg.msg0);
        if iova != 0 {
            return false;
        }
        let asked: u64 = pages << 12;
        let want: u64 = if asked > 1 {
            asked
        } else {
            1
        };
        let frame: u64 = self.page.bytes();
        let size: u64 = (want + frame - 1) & !((frame - 1) as u64);
        let (va, pa): (u64, u64) = bus.alloc_dma(size);
        bus.zero(va, size);
        let ghost prepared = bus.log();
        if !self.sart.add_allowed_region(bus, pa, size) {
            proof {
                assert(since(prepared, bus.log()) =~= Seq::<Access>::empty());
                assert(bus.log() =~= prepared) by {
                    assert(bus.log().take(prepared.len() as int) =~= bus.log());
                }
            }
            bus.dealloc_dma(va, size);
            proof {
                assert(bus.log().take(start.len() as int) =~= start);
            }
            return false;
        }
        let ghost allowed = bus.log();
        let buf: Buffer = Buffer { va, pa };
        match ep {
            EP_SYSLOG => {
                self.syslog_bfr = buf;
            },
            EP_CRASHLOG => {
                self.crashlog_bfr = buf;
            },
            EP_IOREPORT => {
                self.ioreport_bfr = buf;
            },
            _ => {},
        }
        let ok: bool = self.send(bus, make_type(MSG_BUFFER_REQUEST) | (pages << 44) | pa, ep);
        proof {
            assert(prepared.take(start.len() as int) =~= start);
            crate::hw::lemma_since_chain(start, prepared, allowed);
            crate::hw::lemma_since_chain(start, allowed, bus.log());
            let trace = since(start, bus.log());
            assert(trace.subrange(2, 5) =~= since(prepared, allowed));
            assert(trace.skip(5) =~= since(allowed, bus.log()));
            assert(trace[0] == since(start, prepared)[0]);
            assert(trace[1] == since(start, prepared)[1]);
            assert(trace[2] == since(prepared, allowed)[0]);
        }
        ok
    }

    /// Serves one message. Returns `false` if the coprocessor is unusable.
    pub fn dispatch<H: Hardware>(&mut self, bus: &mut Bus<H>, msg: MailboxMessage) -> (ok: bool)
        requires
            old(self).wf(),
        ensures
            final(self).wf(),
            extends(old(bus).log(), final(bus).log()),
            old(self).dispatches(*final(self), msg, since(old(bus).log(), final(bus).log()), ok),
    {
        proof {
            crate::hw::lemma_since_self(bus.log());
        }
        match duty(msg, self.crashlog_bfr.pa != 0) {
            Duty::Ignore => true,
            Duty::IopPower(state) => {
                self.iop_power = state;
                true
            },
            Duty::ApPower(state) => {
                self.ap_power = state;
                true
            },
            Duty::Echo => {
                let _sent: bool = self.mailbox.send(bus, msg);
                true
            },
            Duty::Provide(ep) => self.handle_buffer_request(bus, msg, ep),
            Duty::Crashed => false,
        }
    }

    /// Serves every pending message. Returns `false` if the coprocessor is
    /// unusable.
    ///
    /// A mailbox that never runs empty would keep this going without end; it
    /// stops after `u64::MAX` messages.
    pub fn poll<H: Hardware>(&mut self, bus: &mut Bus<H>) -> (ok: bool)
        requires
            old(self).wf(),
        ensures
            final(self).wf(),
            extends(old(bus).log(), final(bus).log()),
            old(self).drains(*final(self), since(old(bus).log(), final(bus).log()), ok),
    {
        let ghost start = bus.log();
        let ghost first = *self;
        let ghost mut rounds: Seq<Round> = Seq::empty();
        proof {
            crate::hw::lemma_since_self(start);
        }
        let mut left: u64 = u64::MAX;
        while left > 0
            invariant
                start == old(bus).log(),
                first == *old(self),
                self.wf(),
                extends(start, bus.log()),
                rounds.len() + left == u64::MAX,
                rounds_served(first, rounds, *self, since(start, bus.log())),
            decreases left,
        {
            let ghost before = bus.log();
            let ghost mid = *self;
            let got: Option<MailboxMessage> = self.mailbox.try_recv(bus);
            let ghost looked = bus.log();
            proof {
                crate::hw::lemma_since_chain(start, before, looked);
            }
            match got {
                None => {
                    proof {
                        let trace = since(start, looked);
                        let n = since(start, before).len() as int;
                        assert(rounds_served(first, rounds, mid, trace.take(n)));
                        assert(mid.drain_ends(*self, rounds.len(), trace.skip(n), true));
                    }
                    return true;
                },
                Some(msg) => {
                    let ok: bool = self.dispatch(bus, msg);
                    proof {
                        crate::hw::lemma_since_chain(before, looked, bus.log());
                        crate::hw::lemma_since_chain(start, before, bus.log());
                        let round = Round {
                            before: mid,
                            msg,
                            after: *self,
                            trace: since(before, bus.log()),
                        };
                        assert(round.trace.take(3) =~= since(before, looked));
                        assert(round.trace.skip(3) =~= since(looked, bus.log()));
                        assert(round.served(ok));
                        let trace = since(start, bus.log());
                        let n = since(start, before).len() as int;
                        if !ok {
                            assert(rounds_served(first, rounds, mid, trace.take(n)));
                            assert(mid.drain_ends(*self, rounds.len(), trace.skip(n), false));
                        } else {
                            let more = rounds.push(round);
                            assert(more.drop_last() =~= rounds);
                            assert(rounds_served(first, more, *self, trace));
                            rounds = more;
                        }
                    }
                    if !ok {
                        return false;
                    }
                },
            }
            left -= 1;
        }
        proof {
            let trace = since(start, bus.log());
            assert(trace.take(trace.len() as int) =~= trace);
            assert(rounds_served(first, rounds, *self, trace.take(trace.len() as int)));
            assert(self.drain_ends(*self, rounds.len(), trace.skip(trace.len() as int), true));
        }
        true
    }

    /// Allows `[pa, pa + size)` for this coprocessor's DMA, on behalf of a driver
    /// whose own buffers it has to reach.
    pub fn sart_add_allowed_region<H: Hardware>(
        &mut self,
        bus: &mut Bus<H>,
        pa: u64,
        size: u64,
    ) -> (ok: bool)
        requires
            old(self).wf(),
        ensures
            final(self).wf(),
            extends(old(bus).log(), final(bus).log()),
            *final(self) == (AppleRtKit { sart: final(self).sart, ..*old(self) }),
            old(self).sart.allows(
                final(self).sart,
                pa,
                size,
                since(old(bus).log(), final(bus).log()),
                ok,
            ),
    {
        self.sart.add_allowed_region(bus, pa, size)
    }

    /// Withdraws what [`Self::sart_add_allowed_region`] allowed.
    pub fn sart_remove_allowed_region<H: Hardware>(
        &mut self,
        bus: &mut Bus<H>,
        pa: u64,
        size: u64,
    ) -> (ok: bool)
        requires
            old(self).wf(),
        ensures
            final(self).wf(),
            extends(old(bus).log(), final(bus).log()),
            *final(self) == (AppleRtKit { sart: final(self).sart, ..*old(self) }),
            old(self).sart.withdraws(
                final(self).sart,
                pa,
                size,
                since(old(bus).log(), final(bus).log()),
                ok,
            ),
    {
        self.sart.remove_allowed_region(bus, pa, size)
    }
}

/// The endpoints in the order in which they are started.
pub open spec fn start_order(eps: Endpoints) -> Seq<u8> {
    let none = Seq::<u8>::empty();
    (if eps.debug {
        seq![EP_DEBUG]
    } else {
        none
    }) + (if eps.crashlog {
        seq![EP_CRASHLOG]
    } else {
        none
    }) + (if eps.syslog {
        seq![EP_SYSLOG]
    } else {
        none
    }) + (if eps.ioreport {
        seq![EP_IOREPORT]
    } else {
        none
    }) + (if eps.oslog {
        seq![EP_OSLOG]
    } else {
        none
    })
}

/// `trace` asks for each endpoint of `list` to be started, in order.
pub open spec fn all_started(mailbox: AppleMailbox, list: Seq<u8>, trace: Seq<Access>) -> bool
    decreases list.len(),
{
    if list.len() == 0 {
        trace.len() == 0
    } else {
        exists|n: int|
            0 <= n <= trace.len() && #[trigger] mailbox.sends(
                start_message(list.last()),
                trace.skip(n),
                true,
            ) && all_started(mailbox, list.drop_last(), trace.take(n))
    }
}

/// `trace` asks for endpoints to be started, in order, up to the first request
/// that cannot be sent.
pub open spec fn starts(
    mailbox: AppleMailbox,
    list: Seq<u8>,
    trace: Seq<Access>,
    ok: bool,
) -> bool {
    if ok {
        all_started(mailbox, list, trace)
    } else {
        exists|k: int, n: int|
            0 <= k < list.len() && 0 <= n <= trace.len() && #[trigger] all_started(
                mailbox,
                list.take(k),
                trace.take(n),
            ) && mailbox.sends(start_message(list[k]), trace.skip(n), false)
    }
}

/// One endpoint map message and its answer.
pub struct EpmapRound {
    pub msg: MailboxMessage,
    pub received: Seq<Access>,
    pub answered: Seq<Access>,
}

/// Whether `msg` is an endpoint map message.
pub open spec fn spec_is_epmap(msg: MailboxMessage) -> bool {
    endpoint(msg) == EP_MGMT && msg_type(msg.msg0) == MGMT_MSG_EPMAP
}

impl EpmapRound {
    /// A piece of the endpoint map arrived; `ok` says whether the answer could be
    /// sent.
    pub open spec fn taken(self, mailbox: AppleMailbox, ok: bool) -> bool {
        &&& mailbox.receives_within(
            HANDSHAKE_SPIN_TIMEOUT as nat,
            self.received,
            Some(self.msg),
        )
        &&& spec_is_epmap(self.msg)
        &&& mailbox.sends(epmap_reply(self.msg.msg0), self.answered, ok)
    }

    /// Whether this was the last piece of the map.
    pub open spec fn done(self) -> bool {
        self.msg.msg0 & MGMT_MSG_EPMAP_DONE != 0
    }
}

/// `trace` is made up of answered pieces of the endpoint map, none of them the
/// last one.
pub open spec fn epmap_taken(
    mailbox: AppleMailbox,
    rounds: Seq<EpmapRound>,
    trace: Seq<Access>,
) -> bool
    decreases rounds.len(),
{
    if rounds.len() == 0 {
        trace.len() == 0
    } else {
        let round = rounds.last();
        let n = trace.len() - (round.received + round.answered).len();
        &&& round.taken(mailbox, true)
        &&& !round.done()
        &&& n >= 0
        &&& trace.skip(n) == round.received + round.answered
        &&& epmap_taken(mailbox, rounds.drop_last(), trace.take(n))
    }
}

/// The endpoints that the pieces of a map announce.
pub open spec fn epmap_endpoints(rounds: Seq<EpmapRound>) -> Endpoints
    decreases rounds.len(),
{
    if rounds.len() == 0 {
        Endpoints { crashlog: false, syslog: false, debug: false, ioreport: false, oslog: false }
    } else {
        add_endpoints(epmap_endpoints(rounds.drop_last()), rounds.last().msg.msg0)
    }
}

/// What is left of the exchange of the endpoint map after `rounds`.
pub open spec fn epmap_ends(
    mailbox: AppleMailbox,
    rounds: Seq<EpmapRound>,
    trace: Seq<Access>,
    eps: Option<Endpoints>,
) -> bool {
    if eps is Some {
        exists|round: EpmapRound|
            #[trigger] round.taken(mailbox, true) && round.done() && trace == round.received
                + round.answered && eps == Some(epmap_endpoints(rounds.push(round)))
    } else {
        ||| mailbox.receives_within(HANDSHAKE_SPIN_TIMEOUT as nat, trace, None)
        ||| exists|msg: MailboxMessage|
            #[trigger] mailbox.receives_within(HANDSHAKE_SPIN_TIMEOUT as nat, trace, Some(msg))
                && !spec_is_epmap(msg)
        ||| exists|round: EpmapRound|
            #[trigger] round.taken(mailbox, false) && trace == round.received + round.answered
        ||| rounds.len() == u64::MAX && trace.len() == 0
    }
}

/// The exchange of the endpoint map: pieces are received and answered up to the
/// last one. It fails when a piece does not arrive in time, when something else
/// arrives, or when an answer cannot be sent.
pub open spec fn maps_endpoints(
    mailbox: AppleMailbox,
    trace: Seq<Access>,
    eps: Option<Endpoints>,
) -> bool {
    exists|rounds: Seq<EpmapRound>, n: int|
        0 <= n <= trace.len() && #[trigger] epmap_taken(mailbox, rounds, trace.take(n))
            && epmap_ends(mailbox, rounds, trace.skip(n), eps)
}

/// One look at the mailbox while waiting for the coprocessor to power on.
pub enum WaitStep {
    /// Nothing had arrived.
    Idle(Seq<Access>),
    /// A message was served.
    Served(Round),
}

/// How often nothing had arrived.
pub open spec fn idle_steps(steps: Seq<WaitStep>) -> nat
    decreases steps.len(),
{
    if steps.len() == 0 {
        0
    } else {
        idle_steps(steps.drop_last()) + if steps.last() is Idle {
            1nat
        } else {
            0
        }
    }
}

/// `trace` is made up of looks at the mailbox, each of them while the coprocessor
/// was not powered on yet.
pub open spec fn waited(
    first: AppleRtKit,
    steps: Seq<WaitStep>,
    last: AppleRtKit,
    trace: Seq<Access>,
) -> bool
    decreases steps.len(),
{
    if steps.len() == 0 {
        last == first && trace.len() == 0
    } else {
        match steps.last() {
            WaitStep::Idle(look) => {
                let n = trace.len() - look.len();
                &&& last.iop_power != POWER_ON
                &&& last.mailbox.receives(look, None)
                &&& n >= 0
                &&& trace.skip(n) == look
                &&& waited(first, steps.drop_last(), last, trace.take(n))
            },
            WaitStep::Served(round) => {
                let n = trace.len() - round.trace.len();
                &&& round.before.iop_power != POWER_ON
                &&& round.served(true)
                &&& round.after == last
                &&& n >= 0
                &&& trace.skip(n) == round.trace
                &&& waited(first, steps.drop_last(), round.before, trace.take(n))
            },
        }
    }
}

/// How waiting for the coprocessor to power on ends after `steps`: it is powered
/// on, a message revealed that it is unusable, or too many looks were in vain.
pub open spec fn wait_ends(
    mid: AppleRtKit,
    after: AppleRtKit,
    steps: Seq<WaitStep>,
    trace: Seq<Access>,
    ok: bool,
) -> bool {
    if ok {
        &&& after == mid
        &&& mid.iop_power == POWER_ON
        &&& idle_steps(steps) <= BOOT_SPIN_TIMEOUT
        &&& trace.len() == 0
    } else {
        &&& mid.iop_power != POWER_ON
        &&& {
            ||| exists|msg: MailboxMessage|
                #[trigger] (Round { before: mid, msg, after, trace }).served(false)
            ||| after == mid && trace.len() == 0 && (idle_steps(steps) == BOOT_SPIN_TIMEOUT + 1
                || steps.len() - idle_steps(steps) == u64::MAX)
        }
    }
}

/// The parts of a boot, in order. A part that was not reached is empty and did
/// not succeed.
pub struct BootRun {
    pub cpu: Seq<Access>,
    pub wake: Seq<Access>,
    pub woke: bool,
    pub hello: Seq<Access>,
    pub version: Option<u64>,
    pub ack: Seq<Access>,
    pub acked: bool,
    pub map: Seq<Access>,
    pub endpoints: Option<Endpoints>,
    pub start: Seq<Access>,
    pub started: bool,
    pub power: Seq<Access>,
    pub powered: bool,
    pub announce: Seq<Access>,
    pub announced: bool,
}

impl BootRun {
    /// All accesses of the boot.
    pub open spec fn trace(self) -> Seq<Access> {
        self.cpu + self.wake + self.hello + self.ack + self.map + self.start + self.power
            + self.announce
    }

    /// The parts follow one another as the protocol asks, from `before` to
    /// `after`.
    pub open spec fn follows(
        self,
        before: AppleRtKit,
        after: AppleRtKit,
        cpu_ctrl_base: u64,
        phys_cpu_ctrl_base: u64,
    ) -> bool {
        let mailbox = before.mailbox;
        &&& starts_cpu(cpu_ctrl_base, phys_cpu_ctrl_base, self.cpu)
        &&& mailbox.sends(wakeup_message(), self.wake, self.woke)
        &&& if self.woke {
            awaits_hello(mailbox, self.hello, self.version)
        } else {
            self.hello.len() == 0 && self.version is None
        }
        &&& if self.version is Some {
            mailbox.sends(hello_ack(self.version->0), self.ack, self.acked)
        } else {
            self.ack.len() == 0 && !self.acked
        }
        &&& if self.acked {
            maps_endpoints(mailbox, self.map, self.endpoints)
        } else {
            self.map.len() == 0 && self.endpoints is None
        }
        &&& if self.endpoints is Some {
            starts(mailbox, start_order(self.endpoints->0), self.start, self.started)
        } else {
            self.start.len() == 0 && !self.started
        }
        &&& if self.started {
            before.awaits_power(after, self.power, self.powered)
        } else {
            self.power.len() == 0 && !self.powered && after == before
        }
        &&& if self.powered {
            mailbox.sends(ap_power_message(), self.announce, self.announced)
        } else {
            self.announce.len() == 0 && !self.announced
        }
    }
}

/// The message that wakes the coprocessor up.
pub open spec fn wakeup_message() -> MailboxMessage {
    to_endpoint(make_type(MGMT_MSG_IOP_PWR_STATE) | POWER_INIT, EP_MGMT)
}

/// The message that tells the coprocessor that the processor is up.
pub open spec fn ap_power_message() -> MailboxMessage {
    to_endpoint(make_type(MGMT_MSG_AP_PWR_STATE) | POWER_ON, EP_MGMT)
}

/// The coprocessor's CPU is started unless it is running already. Without a
/// CPU-control window there is nothing to do.
pub open spec fn starts_cpu(base: u64, phys_base: u64, trace: Seq<Access>) -> bool {
    if base == 0 {
        trace.len() == 0
    } else {
        &&& trace.len() >= 2
        &&& trace[0] matches Access::Read32 { addr, val } && addr == at(base, ASC_CPU_CONTROL) && {
            if val & ASC_CPU_CONTROL_START == 0 {
                &&& trace.len() == 3
                &&& is_hv_write(
                    trace[1],
                    at(phys_base, ASC_CPU_CONTROL),
                    4,
                    ASC_CPU_CONTROL_START as u64,
                )
                &&& trace[2] == Access::Fence
            } else {
                &&& trace.len() == 2
                &&& trace[1] == Access::Fence
            }
        }
    }
}

/// The coprocessor's HELLO is awaited and examined.
pub open spec fn awaits_hello(
    mailbox: AppleMailbox,
    trace: Seq<Access>,
    version: Option<u64>,
) -> bool {
    ||| mailbox.receives_within(HANDSHAKE_SPIN_TIMEOUT as nat, trace, None) && version is None
    ||| exists|hello: MailboxMessage|
        #[trigger] mailbox.receives_within(HANDSHAKE_SPIN_TIMEOUT as nat, trace, Some(hello))
            && version == agreed_version(hello)
}

impl AppleRtKit {
    /// What waiting for the coprocessor to power on leads to.
    pub open spec fn awaits_power(self, after: Self, trace: Seq<Access>, ok: bool) -> bool {
        exists|steps: Seq<WaitStep>, mid: AppleRtKit, n: int|
            0 <= n <= trace.len() && #[trigger] waited(self, steps, mid, trace.take(n))
                && wait_ends(mid, after, steps, trace.skip(n), ok)
    }

    /// What a boot leads to.
    #[verifier::opaque]
    pub open spec fn boots(
        self,
        after: Self,
        cpu_ctrl_base: u64,
        phys_cpu_ctrl_base: u64,
        trace: Seq<Access>,
        ok: bool,
    ) -> bool {
        exists|run: BootRun|
            #[trigger] run.follows(self, after, cpu_ctrl_base, phys_cpu_ctrl_base) && trace
                == run.trace() && ok == run.announced
    }

    /// Starts the coprocessor's CPU.
    pub fn start_cpu<H: Hardware>(bus: &mut Bus<H>, base: u64, phys_base: u64)
        ensures
            extends(old(bus).log(), final(bus).log()),
            starts_cpu(base, phys_base, since(old(bus).log(), final(bus).log())),
    {
        let ghost start = bus.log();
        if base != 0 {
            let cur: u32 = bus.read32(address(base, ASC_CPU_CONTROL));
            if cur & ASC_CPU_CONTROL_START == 0 {
                hv_write(
                    bus,
                    address(phys_base, ASC_CPU_CONTROL),
                    4,
                    ASC_CPU_CONTROL_START as u64,
                );
            }
            bus.fence();
        }
        assert(bus.log().take(start.len() as int) =~= start);
    }

    /// Waits for the coprocessor's HELLO and settles on a protocol version.
    pub fn await_hello<H: Hardware>(&self, bus: &mut Bus<H>) -> (version: Option<u64>)
        ensures
            extends(old(bus).log(), final(bus).log()),
            awaits_hello(self.mailbox, since(old(bus).log(), final(bus).log()), version),
    {
        match self.mailbox.recv_timeout(bus, HANDSHAKE_SPIN_TIMEOUT) {
            None => None,
            Some(hello) => agreed_version(hello),
        }
    }

    /// Receives and answers the endpoint map.
    ///
    /// A map whose last piece never comes would keep this going without end; it
    /// stops after `u64::MAX` pieces.
    pub fn map_endpoints<H: Hardware>(&self, bus: &mut Bus<H>) -> (eps: Option<Endpoints>)
        ensures
            extends(old(bus).log(), final(bus).log()),
            maps_endpoints(self.mailbox, since(old(bus).log(), final(bus).log()), eps),
    {
        let ghost start = bus.log();
        let ghost mut rounds: Seq<EpmapRound> = Seq::empty();
        proof {
            crate::hw::lemma_since_self(start);
        }
        let mut eps: Endpoints = Endpoints {
            crashlog: false,
            syslog: false,
            debug: false,
            ioreport: false,
            oslog: false,
        };
        let mut left: u64 = u64::MAX;
        while left > 0
            invariant
                start == old(bus).log(),
                extends(start, bus.log()),
                rounds.len() + left == u64::MAX,
                eps == epmap_endpoints(rounds),
                epmap_taken(self.mailbox, rounds, since(start, bus.log())),
            decreases left,
        {
            let ghost before = bus.log();
            let got: Option<MailboxMessage> = self.mailbox.recv_timeout(
                bus,
                HANDSHAKE_SPIN_TIMEOUT,
            );
            let ghost received = bus.log();
            proof {
                crate::hw::lemma_since_chain(start, before, received);
                let trace = since(start, received);
                let n = since(start, before).len() as int;
                assert(epmap_taken(self.mailbox, rounds, trace.take(n)));
                if got is None {
                    assert(epmap_ends(self.mailbox, rounds, trace.skip(n), None));
                } else if !spec_is_epmap(got->0) {
                    assert(self.mailbox.receives_within(
                        HANDSHAKE_SPIN_TIMEOUT as nat,
                        trace.skip(n),
                        Some(got->0),
                    ));
                    assert(epmap_ends(self.mailbox, rounds, trace.skip(n), None));
                }
            }
            let msg: MailboxMessage = match got {
                None => {
                    return None;
                },
                Some(msg) => msg,
            };
            if endpoint(msg) != EP_MGMT {
                return None;
            }
            if msg_type(msg.msg0) != MGMT_MSG_EPMAP {
                return None;
            }
            eps = add_endpoints(eps, msg.msg0);
            let base: u64 = (msg.msg0 >> 32) & 0x7;
            let done: bool = msg.msg0 & MGMT_MSG_EPMAP_DONE != 0;
            let flag: u64 = if done {
                MGMT_MSG_EPMAP_DONE
            } else {
                MGMT_MSG_EPMAP_MORE
            };
            let ok: bool = self.send(bus, make_type(MGMT_MSG_EPMAP) | (base << 32) | flag, EP_MGMT);
            proof {
                crate::hw::lemma_since_chain(before, received, bus.log());
                crate::hw::lemma_since_chain(start, before, bus.log());
                let round = EpmapRound {
                    msg,
                    received: since(before, received),
                    answered: since(received, bus.log()),
                };
                let trace = since(start, bus.log());
                let n = since(start, before).len() as int;
                assert(round.taken(self.mailbox, ok));
                assert(epmap_taken(self.mailbox, rounds, trace.take(n)));
                let more = rounds.push(round);
                assert(more.drop_last() =~= rounds);
                if !ok {
                    assert(epmap_ends(self.mailbox, rounds, trace.skip(n), None));
                } else if done {
                    assert(epmap_ends(self.mailbox, rounds, trace.skip(n), Some(eps)));
                } else {
                    assert(epmap_taken(self.mailbox, more, trace));
                    rounds = more;
                }
            }
            if !ok {
                return None;
            }
            if done {
                return Some(eps);
            }
            left -= 1;
        }
        proof {
            let trace = since(start, bus.log());
            assert(trace.take(trace.len() as int) =~= trace);
            assert(epmap_taken(self.mailbox, rounds, trace.take(trace.len() as int)));
            assert(epmap_ends(self.mailbox, rounds, trace.skip(trace.len() as int), None));
        }
        None
    }

    /// Starts the system endpoints that the coprocessor has.
    pub fn start_endpoints<H: Hardware>(&self, bus: &mut Bus<H>, eps: Endpoints) -> (ok: bool)
        ensures
            extends(old(bus).log(), final(bus).log()),
            starts(
                self.mailbox,
                start_order(eps),
                since(old(bus).log(), final(bus).log()),
                ok,
            ),
    {
        let ghost start = bus.log();
        proof {
            crate::hw::lemma_since_self(start);
        }
        let mut list: Vec<u8> = Vec::new();
        if eps.debug {
            list.push(EP_DEBUG);
        }
        if eps.crashlog {
            list.push(EP_CRASHLOG);
        }
        if eps.syslog {
            list.push(EP_SYSLOG);
        }
        if eps.ioreport {
            list.push(EP_IOREPORT);
        }
        if eps.oslog {
            list.push(EP_OSLOG);
        }
        assert(list@ =~= start_order(eps));
        let mut i: usize = 0;
        while i < list.len()
            invariant
                start == old(bus).log(),
                list@ == start_order(eps),
                i <= list.len(),
                extends(start, bus.log()),
                all_started(self.mailbox, list@.take(i as int), since(start, bus.log())),
            decreases list.len() - i,
        {
            let ghost before = bus.log();
            let ok: bool = self.start_ep(bus, list[i]);
            proof {
                crate::hw::lemma_since_chain(start, before, bus.log());
                let trace = since(start, bus.log());
                let n = since(start, before).len() as int;
                assert(all_started(self.mailbox, list@.take(i as int), trace.take(n)));
                if ok {
                    let more = list@.take(i + 1);
                    assert(more.drop_last() =~= list@.take(i as int));
                    assert(more.last() == list@[i as int]);
                    assert(self.mailbox.sends(start_message(more.last()), trace.skip(n), true));
                    assert(all_started(self.mailbox, more, trace));
                }
            }
            if !ok {
                return false;
            }
            i += 1;
        }
        assert(list@.take(i as int) =~= list@);
        true
    }

    /// Serves messages until the coprocessor reports that it is powered on.
    ///
    /// A coprocessor that keeps sending other messages would keep this going
    /// without end; it stops after `u64::MAX` of them.
    pub fn await_power<H: Hardware>(&mut self, bus: &mut Bus<H>) -> (ok: bool)
        requires
            old(self).wf(),
        ensures
            final(self).wf(),
            extends(old(bus).log(), final(bus).log()),
            old(self).awaits_power(*final(self), since(old(bus).log(), final(bus).log()), ok),
    {
        let ghost start = bus.log();
        let ghost first = *self;
        let ghost mut steps: Seq<WaitStep> = Seq::empty();
        proof {
            crate::hw::lemma_since_self(start);
        }
        let mut spins: u64 = 0;
        let mut left: u64 = u64::MAX;
        while self.iop_power != POWER_ON && left > 0
            invariant
                start == old(bus).log(),
                first == *old(self),
                self.wf(),
                extends(start, bus.log()),
                spins <= BOOT_SPIN_TIMEOUT,
                spins == idle_steps(steps),
                steps.len() - spins + left == u64::MAX,
                waited(first, steps, *self, since(start, bus.log())),
            decreases left, BOOT_SPIN_TIMEOUT - spins,
        {
            let ghost before = bus.log();
            let ghost mid = *self;
            let got: Option<MailboxMessage> = self.mailbox.try_recv(bus);
            let ghost looked = bus.log();
            proof {
                crate::hw::lemma_since_chain(start, before, looked);
            }
            match got {
                Some(msg) => {
                    let ok: bool = self.dispatch(bus, msg);
                    proof {
                        crate::hw::lemma_since_chain(before, looked, bus.log());
                        crate::hw::lemma_since_chain(start, before, bus.log());
                        let round = Round {
                            before: mid,
                            msg,
                            after: *self,
                            trace: since(before, bus.log()),
                        };
                        assert(round.trace.take(3) =~= since(before, looked));
                        assert(round.trace.skip(3) =~= since(looked, bus.log()));
                        assert(round.served(ok));
                        let trace = since(start, bus.log());
                        let n = since(start, before).len() as int;
                        assert(waited(first, steps, mid, trace.take(n)));
                        if !ok {
                            assert(wait_ends(mid, *self, steps, trace.skip(n), false));
                        } else {
                            let more = steps.push(WaitStep::Served(round));
                            assert(more.drop_last() =~= steps);
                            assert(waited(first, more, *self, trace));
                            steps = more;
                        }
                    }
                    if !ok {
                        return false;
                    }
                    left -= 1;
                },
                None => {
                    proof {
                        let trace = since(start, looked);
                        let look = since(before, looked);
                        let more = steps.push(WaitStep::Idle(look));
                        assert(more.drop_last() =~= steps);
                        assert(waited(first, more, mid, trace));
                        steps = more;
                        assert(trace.take(trace.len() as int) =~= trace);
                        assert(waited(first, steps, mid, trace.take(trace.len() as int)));
                    }
                    spins += 1;
                    if spins > BOOT_SPIN_TIMEOUT {
                        proof {
                            let trace = since(start, looked);
                            assert(wait_ends(
                                mid,
                                *self,
                                steps,
                                trace.skip(trace.len() as int),
                                false,
                            ));
                        }
                        return false;
                    }
                    bus.spin_loop();
                },
            }
        }
        let ok: bool = self.iop_power == POWER_ON;
        proof {
            let trace = since(start, bus.log());
            assert(trace.take(trace.len() as int) =~= trace);
            assert(waited(first, steps, *self, trace.take(trace.len() as int)));
            assert(wait_ends(*self, *self, steps, trace.skip(trace.len() as int), ok));
        }
        ok
    }

    /// Boots the coprocessor: starts its CPU, wakes it up, agrees on a protocol
    /// version, learns and starts its system endpoints, waits for it to power on,
    /// and tells it that the processor is up.
    ///
    /// `cpu_ctrl_base` and `phys_cpu_ctrl_base` are the virtual and the physical
    /// address of the CPU-control window; a zero virtual address means that there
    /// is none.
    pub fn boot<H: Hardware>(
        &mut self,
        bus: &mut Bus<H>,
        cpu_ctrl_base: u64,
        phys_cpu_ctrl_base: u64,
    ) -> (ok: bool)
        requires
            old(self).wf(),
        ensures
            final(self).wf(),
            extends(old(bus).log(), final(bus).log()),
            old(self).boots(
                *final(self),
                cpu_ctrl_base,
                phys_cpu_ctrl_base,
                since(old(bus).log(), final(bus).log()),
                ok,
            ),
    {
        let ghost l0 = bus.log();
        let ghost none = Seq::<Access>::empty();
        let ghost first = *self;
        proof {
            reveal(AppleRtKit::boots);
        }
        Self::start_cpu(bus, cpu_ctrl_base, phys_cpu_ctrl_base);
        let ghost l1 = bus.log();
        let woke: bool = self.send(bus, make_type(MGMT_MSG_IOP_PWR_STATE) | POWER_INIT, EP_MGMT);
        let ghost l2 = bus.log();
        let ghost mut run = BootRun {
            cpu: since(l0, l1),
            wake: since(l1, l2),
            woke,
            hello: none,
            version: None,
            ack: none,
            acked: false,
            map: none,
            endpoints: None,
            start: none,
            started: false,
            power: none,
            powered: false,
            announce: none,
            announced: false,
        };
        proof {
            crate::hw::lemma_since_chain(l0, l1, l2);
            assert(run.trace() =~= since(l0, l2));
            assert(!woke ==> run.follows(first, *self, cpu_ctrl_base, phys_cpu_ctrl_base));
        }
        if !woke {
            return false;
        }
        let version: Option<u64> = self.await_hello(bus);
        let ghost l3 = bus.log();
        proof {
            run.hello = since(l2, l3);
            run.version = version;
            crate::hw::lemma_since_chain(l0, l2, l3);
            assert(run.trace() =~= since(l0, l3));
            assert(version is None ==> run.follows(
                first,
                *self,
                cpu_ctrl_base,
                phys_cpu_ctrl_base,
            ));
        }
        let ver: u64 = match version {
            None => {
                return false;
            },
            Some(ver) => ver,
        };
        let acked: bool = self.send(
            bus,
            make_type(MGMT_MSG_HELLO_ACK) | ver | (ver << 16),
            EP_MGMT,
        );
        let ghost l4 = bus.log();
        proof {
            run.ack = since(l3, l4);
            run.acked = acked;
            crate::hw::lemma_since_chain(l0, l3, l4);
            assert(run.trace() =~= since(l0, l4));
            assert(!acked ==> run.follows(first, *self, cpu_ctrl_base, phys_cpu_ctrl_base));
        }
        if !acked {
            return false;
        }
        let endpoints: Option<Endpoints> = self.map_endpoints(bus);
        let ghost l5 = bus.log();
        proof {
            run.map = since(l4, l5);
            run.endpoints = endpoints;
            crate::hw::lemma_since_chain(l0, l4, l5);
            assert(run.trace() =~= since(l0, l5));
            assert(endpoints is None ==> run.follows(
                first,
                *self,
                cpu_ctrl_base,
                phys_cpu_ctrl_base,
            ));
        }
        let eps: Endpoints = match endpoints {
            None => {
                return false;
            },
            Some(eps) => eps,
        };
        let started: bool = self.start_endpoints(bus, eps);
        let ghost l6 = bus.log();
        proof {
            run.start = since(l5, l6);
            run.started = started;
            crate::hw::lemma_since_chain(l0, l5, l6);
            assert(run.trace() =~= since(l0, l6));
            assert(!started ==> run.follows(first, *self, cpu_ctrl_base, phys_cpu_ctrl_base));
        }
        if !started {
            return false;
        }
        let powered: bool = self.await_power(bus);
        let ghost l7 = bus.log();
        proof {
            run.power = since(l6, l7);
            run.powered = powered;
            crate::hw::lemma_since_chain(l0, l6, l7);
            assert(run.trace() =~= since(l0, l7));
            assert(!powered ==> run.follows(first, *self, cpu_ctrl_base, phys_cpu_ctrl_base));
        }
        if !powered {
            return false;
        }
        let announced: bool = self.send(bus, make_type(MGMT_MSG_AP_PWR_STATE) | POWER_ON, EP_MGMT);
        proof {
            lemma_waiting_keeps_mailbox(first, *self, run.power);
            run.announce = since(l7, bus.log());
            run.announced = announced;
            crate::hw::lemma_since_chain(l0, l7, bus.log());
            assert(run.trace() =~= since(l0, bus.log()));
            assert(run.follows(first, *self, cpu_ctrl_base, phys_cpu_ctrl_base));
        }
        announced
    }
}

/// Serving a message leaves the mailbox as it is.
proof fn lemma_dispatch_keeps_mailbox(
    before: AppleRtKit,
    after: AppleRtKit,
    msg: MailboxMessage,
    trace: Seq<Access>,
    ok: bool,
)
    requires
        before.dispatches(after, msg, trace, ok),
    ensures
        after.mailbox == before.mailbox,
{
}

proof fn lemma_waited_keeps_mailbox(
    first: AppleRtKit,
    steps: Seq<WaitStep>,
    last: AppleRtKit,
    trace: Seq<Access>,
)
    requires
        waited(first, steps, last, trace),
    ensures
        last.mailbox == first.mailbox,
    decreases steps.len(),
{
    if steps.len() > 0 {
        match steps.last() {
            WaitStep::Idle(look) => {
                lemma_waited_keeps_mailbox(
                    first,
                    steps.drop_last(),
                    last,
                    trace.take(trace.len() - look.len()),
                );
            },
            WaitStep::Served(round) => {
                lemma_dispatch_keeps_mailbox(
                    round.before,
                    round.after,
                    round.msg,
                    round.trace.skip(3),
                    true,
                );
                lemma_waited_keeps_mailbox(
                    first,
                    steps.drop_last(),
                    round.before,
                    trace.take(trace.len() - round.trace.len()),
                );
            },
        }
    }
}

proof fn lemma_waiting_keeps_mailbox(before: AppleRtKit, after: AppleRtKit, trace: Seq<Access>)
    requires
        before.awaits_power(after, trace, true),
    ensures
        after.mailbox == before.mailbox,
{
    let (steps, mid, n) = choose|steps: Seq<WaitStep>, mid: AppleRtKit, n: int|
        0 <= n <= trace.len() && #[trigger] waited(before, steps, mid, trace.take(n)) && wait_ends(
            mid,
            after,
            steps,
            trace.skip(n),
            true,
        );
    lemma_waited_keeps_mailbox(before, steps, mid, trace.take(n));
}

proof fn lemma_buffer_size(pages: u64, msg0: u64, frame: PageSize)
    requires
        pages == buffer_request_pages(msg0),
    ensures
        pages <= 0xff,
        pages << 12 == pages * 0x1000,
        ({
            let bytes = frame.bytes();
            let want = if pages == 0 {
                1
            } else {
                pages * 0x1000
            };
            ((want + bytes - 1) as u64) & !((bytes - 1) as u64) == buffer_size(pages, frame)
        }),
{
    assert((msg0 >> 44) & 0xff <= 0xff) by (bit_vector);
    assert(pages <= 0xff ==> pages << 12 == pages * 0x1000) by (bit_vector);
    let want = if pages == 0 {
        1u64
    } else {
        (pages * 0x1000) as u64
    };
    assert(want <= 0x10_0000 ==> {
        &&& (want + 0xfff) as u64 & !0xfffu64 == (want + 0xfff) / 0x1000 * 0x1000
        &&& (want + 0x3fff) as u64 & !0x3fffu64 == (want + 0x3fff) / 0x4000 * 0x4000
        &&& (want + 0xffff) as u64 & !0xffffu64 == (want + 0xffff) / 0x1_0000 * 0x1_0000
    }) by (bit_vector);
}

/// The kind of a message can be read back.
pub proof fn law_kind_can_be_read_back(ty: u64)
    requires
        ty < 0x100,
    ensures
        msg_type(make_type(ty)) == ty,
{
    assert((((ty & 0xff) << 52) >> 52) & 0xff == ty) by (bit_vector)
        requires
            ty < 0x100,
    ;
}

/// The answer to a request for a buffer says which kind it is of, how many pages
/// there are, and where they are, as a request does.
pub proof fn law_buffer_reply_can_be_read_back(pages: u64, pa: u64, ep: u8)
    requires
        pages < 0x100,
        pa < 0x400_0000_0000,
    ensures
        ({
            let reply = buffer_reply(pages, pa, ep);
            &&& msg_type(reply.msg0) == MSG_BUFFER_REQUEST
            &&& buffer_request_pages(reply.msg0) == pages
            &&& buffer_request_iova(reply.msg0) == pa
            &&& endpoint(reply) == ep
        }),
{
    let msg0 = ((1u64 & 0xff) << 52) | (pages << 44) | pa;
    assert((msg0 >> 52) & 0xff == 1 && (msg0 >> 44) & 0xff == pages && msg0 & 0x3ff_ffff_ffff == pa)
        by (bit_vector)
        requires
            msg0 == ((1u64 & 0xff) << 52) | (pages << 44) | pa,
            pages < 0x100,
            pa < 0x400_0000_0000,
    ;
    let msg1 = ep as u32;
    assert((msg1 & 0xff) as u8 == ep) by (bit_vector)
        requires
            msg1 == ep as u32,
    ;
}

/// The version that is agreed on is one that the driver knows, and one that the
/// coprocessor knows, if its range is one.
pub proof fn law_version_is_known_to_both(hello: MailboxMessage)
    requires
        agreed_version(hello) is Some,
    ensures
        ({
            let version = agreed_version(hello)->0;
            let min = hello.msg0 & 0xffff;
            let max = (hello.msg0 >> 16) & 0xffff;
            &&& RTKIT_MIN_VERSION <= version <= RTKIT_MAX_VERSION
            &&& version <= max
            &&& min <= max ==> min <= version
        }),
{
}

/// A crash is noticed once: only a request for a crash log buffer that comes when
/// there is one is a crash, and the first such request is served.
pub proof fn law_crash_is_the_second_request(msg: MailboxMessage)
    ensures
        !(duty(msg, false) is Crashed),
        duty(msg, true) is Crashed <==> duty(msg, false) == Duty::Provide(EP_CRASHLOG),
{
}

proof fn lemma_fields(msg0: u64)
    by (bit_vector)
    ensures
        (msg0 >> 52) & 0xff == (msg0 / 0x10_0000_0000_0000) % 0x100,
        (msg0 >> 44) & 0xff == (msg0 / 0x1000_0000_0000) % 0x100,
        msg0 & 0x3ff_ffff_ffff == msg0 % 0x400_0000_0000,
        msg0 & 0xffff == msg0 % 0x1_0000,
        (msg0 >> 16) & 0xffff == (msg0 / 0x1_0000) % 0x1_0000,
        (msg0 >> 32) & 0x7 == (msg0 / 0x1_0000_0000) % 8,
        (msg0 & 0x8_0000_0000_0000 != 0) == ((msg0 / 0x8_0000_0000_0000) % 2 == 1),
        (msg0 & (1u64 << 1u64) != 0) == ((msg0 / 2) % 2 == 1),
        (msg0 & (1u64 << 2u64) != 0) == ((msg0 / 4) % 2 == 1),
        (msg0 & (1u64 << 3u64) != 0) == ((msg0 / 8) % 2 == 1),
        (msg0 & (1u64 << 4u64) != 0) == ((msg0 / 0x10) % 2 == 1),
        (msg0 & (1u64 << 8u64) != 0) == ((msg0 / 0x100) % 2 == 1),
{
}

proof fn lemma_low_byte(msg1: u32)
    by (bit_vector)
    ensures
        (msg1 & 0xff) as u8 == msg1 % 0x100,
{
}

/// Whether `msg` is of kind `ty` and comes from endpoint `ep`.
pub open spec fn comes(msg: MailboxMessage, ep: int, ty: int) -> bool {
    msg.msg1 % 0x100 == ep && (msg.msg0 / 0x10_0000_0000_0000) % 0x100 == ty
}

/// The highest version that both sides know is agreed on, and none is only when there
/// is none that both know.
pub proof fn law_highest_common_version_is_taken(hello: MailboxMessage, version: u64)
    requires
        comes(hello, 0, 1),
        version == 11 || version == 12,
        hello.msg0 % 0x1_0000 <= version <= (hello.msg0 / 0x1_0000) % 0x1_0000,
    ensures
        agreed_version(hello) matches Some(agreed) && {
            &&& agreed == 11 || agreed == 12
            &&& version <= agreed <= (hello.msg0 / 0x1_0000) % 0x1_0000
        },
{
    lemma_fields(hello.msg0);
    lemma_low_byte(hello.msg1);
}

/// What is not a greeting, and one that knows no version that the driver knows, is
/// turned down.
pub proof fn law_strange_greeting_is_turned_down(hello: MailboxMessage)
    requires
        !comes(hello, 0, 1) || hello.msg0 % 0x1_0000 > 12 || (hello.msg0 / 0x1_0000) % 0x1_0000
            < 11,
    ensures
        agreed_version(hello) is None,
{
    lemma_fields(hello.msg0);
    lemma_low_byte(hello.msg1);
}

proof fn lemma_ack(version: u64)
    by (bit_vector)
    requires
        version < 0x1_0000,
    ensures
        ((2u64 & 0xff) << 52 | version | (version << 16)) == 0x20_0000_0000_0000 + version * 0x1_0001,
        ((6u64 & 0xff) << 52) | 0x220 == 0x60_0000_0000_0220,
        ((0xbu64 & 0xff) << 52) | 0x20 == 0xb0_0000_0000_0020,
{
}

/// The answer to a greeting names the version twice, as the lowest and as the highest
/// one. The messages that wake the coprocessor up and that tell it of the processor
/// carry the power states of the protocol. All go to the endpoint for management.
pub proof fn law_handshake_messages(version: u64)
    requires
        version < 0x1_0000,
    ensures
        comes(hello_ack(version), 0, 2),
        hello_ack(version).msg0 % 0x1_0000 == version,
        (hello_ack(version).msg0 / 0x1_0000) % 0x1_0000 == version,
        hello_ack(version).msg1 == 0,
        comes(wakeup_message(), 0, 6),
        wakeup_message().msg0 % 0x1_0000 == 0x220,
        comes(ap_power_message(), 0, 0xb),
        ap_power_message().msg0 % 0x1_0000 == 0x20,
{
    lemma_ack(version);
}

proof fn lemma_start(ep: u64)
    by (bit_vector)
    requires
        ep < 0x100,
    ensures
        ((5u64 & 0xff) << 52) | 2 | (ep << 32) == 0x50_0000_0000_0002 + ep * 0x1_0000_0000,
{
}

/// The message that starts an endpoint names it, and so no two endpoints are started by
/// the same message.
pub proof fn law_start_names_the_endpoint(ep: u8)
    ensures
        comes(start_message(ep), 0, 5),
        (start_message(ep).msg0 / 0x1_0000_0000) % 0x100 == ep,
        start_message(ep).msg0 % 0x1_0000_0000 == 2,
        start_message(ep).msg1 == 0,
{
    lemma_start(ep as u64);
}

/// Every endpoint that is known is started, once, and no other.
pub proof fn law_known_endpoints_are_started(eps: Endpoints, ep: u8)
    ensures
        start_order(eps).contains(ep) <==> {
            ||| ep == 1 && eps.crashlog
            ||| ep == 2 && eps.syslog
            ||| ep == 3 && eps.debug
            ||| ep == 4 && eps.ioreport
            ||| ep == 8 && eps.oslog
        },
        start_order(eps).no_duplicates(),
{
    let list = start_order(eps);
    let one = if eps.debug {
        1int
    } else {
        0
    };
    let two = one + if eps.crashlog {
        1int
    } else {
        0
    };
    let three = two + if eps.syslog {
        1int
    } else {
        0
    };
    let four = three + if eps.ioreport {
        1int
    } else {
        0
    };
    if eps.debug {
        assert(list[0] == 3);
    }
    if eps.crashlog {
        assert(list[one] == 1);
    }
    if eps.syslog {
        assert(list[two] == 2);
    }
    if eps.ioreport {
        assert(list[three] == 4);
    }
    if eps.oslog {
        assert(list[four] == 8);
    }
}

/// A piece of the endpoint map adds the endpoints whose bits are set in its first block,
/// and takes none away. The pieces of other blocks speak of endpoints that are not the
/// system's.
pub proof fn law_announced_endpoints_are_added(known: Endpoints, msg0: u64)
    ensures
        ({
            let now = add_endpoints(known, msg0);
            let first = (msg0 / 0x1_0000_0000) % 8 == 0;
            &&& now.crashlog == (known.crashlog || first && (msg0 / 2) % 2 == 1)
            &&& now.syslog == (known.syslog || first && (msg0 / 4) % 2 == 1)
            &&& now.debug == (known.debug || first && (msg0 / 8) % 2 == 1)
            &&& now.ioreport == (known.ioreport || first && (msg0 / 0x10) % 2 == 1)
            &&& now.oslog == (known.oslog || first && (msg0 / 0x100) % 2 == 1)
        }),
{
    lemma_fields(msg0);
}

proof fn lemma_epmap(block: u64)
    by (bit_vector)
    requires
        block < 8,
    ensures
        ((8u64 & 0xff) << 52) | (block << 32) | 1 == 0x80_0000_0000_0001 + block * 0x1_0000_0000,
        ((8u64 & 0xff) << 52) | (block << 32) | 0x8_0000_0000_0000 == 0x88_0000_0000_0000 + block
            * 0x1_0000_0000,
{
}

/// The answer to a piece of the endpoint map names its block; it says that the map is
/// complete when the piece says so, and asks for more otherwise.
pub proof fn law_map_is_answered(msg0: u64)
    ensures
        ({
            let reply = epmap_reply(msg0);
            let done = (msg0 / 0x8_0000_0000_0000) % 2;
            &&& comes(reply, 0, 8)
            &&& reply.msg1 == 0
            &&& (reply.msg0 / 0x1_0000_0000) % 8 == (msg0 / 0x1_0000_0000) % 8
            &&& (reply.msg0 / 0x8_0000_0000_0000) % 2 == done
            &&& reply.msg0 % 2 == 1 - done
        }),
{
    lemma_fields(msg0);
    lemma_epmap((msg0 >> 32) & 0x7);
}

/// A report of the coprocessor's power state is kept, whole, and so is one of the
/// processor's. Neither is answered.
pub proof fn law_power_state_is_kept(
    before: AppleRtKit,
    after: AppleRtKit,
    msg: MailboxMessage,
    trace: Seq<Access>,
    ok: bool,
)
    requires
        before.dispatches(after, msg, trace, ok),
        comes(msg, 0, 7) || comes(msg, 0, 0xb),
    ensures
        ok,
        trace.len() == 0,
        comes(msg, 0, 7) ==> after.iop_power == msg.msg0 % 0x1_0000 && after.ap_power
            == before.ap_power,
        comes(msg, 0, 0xb) ==> after.ap_power == msg.msg0 % 0x1_0000 && after.iop_power
            == before.iop_power,
        after.syslog_bfr == before.syslog_bfr,
        after.crashlog_bfr == before.crashlog_bfr,
        after.ioreport_bfr == before.ioreport_bfr,
        after.sart == before.sart,
{
    lemma_fields(msg.msg0);
    lemma_low_byte(msg.msg1);
}

/// A log message and a report are sent back as they came: the coprocessor waits for
/// them. That it cannot be done is not held against the coprocessor.
pub proof fn law_logs_are_sent_back(
    before: AppleRtKit,
    after: AppleRtKit,
    msg: MailboxMessage,
    trace: Seq<Access>,
    ok: bool,
)
    requires
        before.dispatches(after, msg, trace, ok),
        comes(msg, 2, 5) || comes(msg, 4, 8) || comes(msg, 4, 0xc),
    ensures
        ok,
        after == before,
        before.mailbox.sends(msg, trace, true) || before.mailbox.sends(msg, trace, false),
{
    lemma_fields(msg.msg0);
    lemma_low_byte(msg.msg1);
}

/// The messages of a device's own protocol are not for the system's endpoints, and are
/// left alone.
pub proof fn law_other_messages_are_left_alone(
    before: AppleRtKit,
    after: AppleRtKit,
    msg: MailboxMessage,
    trace: Seq<Access>,
    ok: bool,
)
    requires
        before.dispatches(after, msg, trace, ok),
        msg.msg1 % 0x100 == 3 || msg.msg1 % 0x100 > 4,
    ensures
        ok,
        after == before,
        trace.len() == 0,
{
    lemma_low_byte(msg.msg1);
}

/// The buffers of the system's endpoints.
pub open spec fn buffer_of(rtkit: AppleRtKit, ep: int) -> Buffer {
    if ep == 1 {
        rtkit.crashlog_bfr
    } else if ep == 2 {
        rtkit.syslog_bfr
    } else {
        rtkit.ioreport_bfr
    }
}

/// A request for a buffer that is served gets as much memory as it asks for, in whole
/// page frames, zeroed and allowed for DMA. The buffer is the endpoint's from then on,
/// and the answer tells where it is and how large.
pub proof fn law_buffer_is_lent(
    before: AppleRtKit,
    after: AppleRtKit,
    msg: MailboxMessage,
    trace: Seq<Access>,
    ep: int,
    other: int,
)
    requires
        before.dispatches(after, msg, trace, true),
        comes(msg, ep, 1),
        ep == 1 || ep == 2 || ep == 4,
        other == 1 || other == 2 || other == 4,
        other != ep,
    ensures
        msg.msg0 % 0x400_0000_0000 == 0,
        ({
            let pages = (msg.msg0 / 0x1000_0000_0000) % 0x100;
            let frame = before.page.bytes();
            trace[0] matches Access::AllocDma { size, va, pa } && {
                &&& size % frame == 0
                &&& pages * 0x1000 <= size
                &&& frame <= size
                &&& size < pages * 0x1000 + frame || size == frame
                &&& trace[1] == (Access::Zero { va, size })
                &&& before.sart.allows(after.sart, pa, size, trace.subrange(2, 5), true)
                &&& buffer_of(after, ep) == (Buffer { va, pa })
                &&& buffer_of(after, other) == buffer_of(before, other)
                &&& after.iop_power == before.iop_power
                &&& after.ap_power == before.ap_power
                &&& pa < 0x400_0000_0000 ==> exists|reply: MailboxMessage|
                    {
                        &&& #[trigger] before.mailbox.sends(reply, trace.skip(5), true)
                        &&& comes(reply, ep, 1)
                        &&& (reply.msg0 / 0x1000_0000_0000) % 0x100 == pages
                        &&& reply.msg0 % 0x400_0000_0000 == pa
                        &&& reply.msg1 == ep
                    }
            }
        }),
{
    lemma_fields(msg.msg0);
    lemma_low_byte(msg.msg1);
    let pages = buffer_request_pages(msg.msg0);
    let frame = before.page.bytes() as int;
    let up = pages * 0x1000 + frame - 1;
    vstd::arithmetic::div_mod::lemma_fundamental_div_mod(up, frame);
    vstd::arithmetic::mul::lemma_mul_is_commutative(up / frame, frame);
    vstd::arithmetic::div_mod::lemma_mod_multiples_basic(up / frame, frame);
    vstd::arithmetic::div_mod::lemma_mod_self_0(frame);
    let pa = trace[0]->AllocDma_pa;
    if pa < 0x400_0000_0000 {
        let reply = buffer_reply(pages, pa, ep as u8);
        law_buffer_reply_can_be_read_back(pages, pa, ep as u8);
        lemma_fields(reply.msg0);
        lemma_low_byte(reply.msg1);
        assert(before.mailbox.sends(reply, trace.skip(5), true));
    }
}

/// A request that names an address of its own is refused, and so is a second request
/// for a crash log: nothing is allocated then, and nothing is sent.
pub proof fn law_refused_request_changes_nothing(
    before: AppleRtKit,
    after: AppleRtKit,
    msg: MailboxMessage,
    trace: Seq<Access>,
    ok: bool,
)
    requires
        before.dispatches(after, msg, trace, ok),
        comes(msg, 1, 1) || comes(msg, 2, 1) || comes(msg, 4, 1),
        msg.msg0 % 0x400_0000_0000 != 0 || (comes(msg, 1, 1) && before.crashlog_bfr.pa != 0),
    ensures
        !ok,
        after == before,
        trace.len() == 0,
{
    lemma_fields(msg.msg0);
    lemma_low_byte(msg.msg1);
}

/// A boot that succeeds leaves the coprocessor powered on, as it said itself, and has
/// woken it up, settled on a version and told it that the processor is up.
pub proof fn law_booted_coprocessor_is_on(
    before: AppleRtKit,
    after: AppleRtKit,
    cpu_ctrl_base: u64,
    phys_cpu_ctrl_base: u64,
    trace: Seq<Access>,
)
    requires
        before.boots(after, cpu_ctrl_base, phys_cpu_ctrl_base, trace, true),
    ensures
        after.iop_power == 0x20,
        exists|run: BootRun|
            {
                &&& trace == #[trigger] run.trace()
                &&& before.mailbox.sends(wakeup_message(), run.wake, true)
                &&& run.version == Some(11u64) || run.version == Some(12u64)
                &&& before.mailbox.sends(hello_ack(run.version->0), run.ack, true)
                &&& run.endpoints is Some
                &&& starts(before.mailbox, start_order(run.endpoints->0), run.start, true)
                &&& before.mailbox.sends(ap_power_message(), run.announce, true)
            },
{
    reveal(AppleRtKit::boots);
    let run = choose|run: BootRun|
        #[trigger] run.follows(before, after, cpu_ctrl_base, phys_cpu_ctrl_base) && trace
            == run.trace() && true == run.announced;
    assert(trace == run.trace());
}

/// The coprocessor's processor is started unless it runs: the bit that starts it is
/// written, and nothing is when the bit is set.
pub proof fn law_processor_is_started_once(base: u64, phys_base: u64, trace: Seq<Access>)
    requires
        starts_cpu(base, phys_base, trace),
        0 < base,
        base + 0x44 <= u64::MAX,
        phys_base + 0x44 <= u64::MAX,
    ensures
        trace[0] matches Access::Read32 { addr, val } && {
            &&& addr == base + 0x44
            &&& (val / 0x10) % 2 == 1 ==> trace == seq![trace[0], Access::Fence]
            &&& (val / 0x10) % 2 == 0 ==> trace.len() == 3 && trace[2] is Fence && (
            trace[1] matches Access::Hvcall { id, a1, a2, a3, ret } && id == 0x4e56_0002 && a1
                == phys_base + 0x44 && a2 == 4 && a3 == 0x10)
        },
{
    let val = trace[0]->Read32_val;
    assert((val & 0x10 == 0) == ((val / 0x10) % 2 == 0)) by (bit_vector);
    if (val / 0x10) % 2 == 1 {
        assert(trace =~= seq![trace[0], Access::Fence]);
    }
}

} // verus!
