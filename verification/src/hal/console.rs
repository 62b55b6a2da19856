//! The kernel console.

use vstd::prelude::*;

verus! {

pub const LOG_ERR: u8 = 3;
pub const LOG_WARNING: u8 = 4;
pub const LOG_INFO: u8 = 6;

pub const KD_TEXT: u32 = 0x00;
pub const KD_GRAPHICS: u32 = 0x01;

/// Something that shows text.
pub trait TextSink {
    /// The texts that were written so far, oldest first.
    open spec fn text(&self) -> Seq<Seq<char>> {
        vstd::pervasive::arbitrary()
    }

    fn write_str(&mut self, s: &str)
        ensures
            final(self).text() == old(self).text().push(s@),
    ;
}

/// A text that was written, and where to.
pub enum Written {
    /// To the serial port's driver.
    Serial(Seq<char>),
    /// To what is available without a driver.
    Early(Seq<char>),
    /// To the screen.
    Graphic(Seq<char>),
}

/// What `written` brings to the serial port's driver.
pub open spec fn to_serial(written: Seq<Written>) -> Seq<Seq<char>>
    decreases written.len(),
{
    if written.len() == 0 {
        Seq::empty()
    } else {
        let before = to_serial(written.drop_last());
        match written.last() {
            Written::Serial(text) => before.push(text),
            _ => before,
        }
    }
}

/// What `written` brings out without a driver.
pub open spec fn to_early(written: Seq<Written>) -> Seq<Seq<char>>
    decreases written.len(),
{
    if written.len() == 0 {
        Seq::empty()
    } else {
        let before = to_early(written.drop_last());
        match written.last() {
            Written::Early(text) => before.push(text),
            _ => before,
        }
    }
}

/// What `written` brings to the screen.
pub open spec fn to_graphic(written: Seq<Written>) -> Seq<Seq<char>>
    decreases written.len(),
{
    if written.len() == 0 {
        Seq::empty()
    } else {
        let before = to_graphic(written.drop_last());
        match written.last() {
            Written::Graphic(text) => before.push(text),
            _ => before,
        }
    }
}

proof fn lemma_one(written: Written)
    ensures
        to_serial(seq![written]) == match written {
            Written::Serial(text) => seq![text],
            _ => Seq::empty(),
        },
        to_early(seq![written]) == match written {
            Written::Early(text) => seq![text],
            _ => Seq::empty(),
        },
        to_graphic(seq![written]) == match written {
            Written::Graphic(text) => seq![text],
            _ => Seq::empty(),
        },
{
    let none = seq![written].drop_last();
    assert(none =~= Seq::<Written>::empty());
    assert(to_serial(none) =~= Seq::<Seq<char>>::empty());
    assert(to_early(none) =~= Seq::<Seq<char>>::empty());
    assert(to_graphic(none) =~= Seq::<Seq<char>>::empty());
    assert(to_serial(seq![written]) =~= match written {
        Written::Serial(text) => seq![text],
        _ => Seq::empty(),
    });
    assert(to_early(seq![written]) =~= match written {
        Written::Early(text) => seq![text],
        _ => Seq::empty(),
    });
    assert(to_graphic(seq![written]) =~= match written {
        Written::Graphic(text) => seq![text],
        _ => Seq::empty(),
    });
}

proof fn lemma_add(a: Seq<Written>, b: Seq<Written>)
    ensures
        to_serial(a + b) == to_serial(a) + to_serial(b),
        to_early(a + b) == to_early(a) + to_early(b),
        to_graphic(a + b) == to_graphic(a) + to_graphic(b),
    decreases b.len(),
{
    if b.len() == 0 {
        assert(a + b =~= a);
    } else {
        lemma_add(a, b.drop_last());
        assert((a + b).drop_last() =~= a + b.drop_last());
        assert((a + b).last() == b.last());
    }
    assert(to_serial(a + b) =~= to_serial(a) + to_serial(b));
    assert(to_early(a + b) =~= to_early(a) + to_early(b));
    assert(to_graphic(a + b) =~= to_graphic(a) + to_graphic(b));
}

/// The size of a console, in characters and in pixels.
#[derive(Debug, Clone, Copy, PartialEq, Eq, Structural)]
pub struct ConsoleWinSize {
    pub ws_row: u16,
    pub ws_col: u16,
    pub ws_xpixel: u16,
    pub ws_ypixel: u16,
}

impl ConsoleWinSize {
    /// The size of a console that has none.
    pub open spec fn zero() -> Self {
        ConsoleWinSize { ws_row: 0, ws_col: 0, ws_xpixel: 0, ws_ypixel: 0 }
    }
}

impl Default for ConsoleWinSize {
    fn default() -> (size: Self)
        ensures
            size == Self::zero(),
    {
        ConsoleWinSize { ws_row: 0, ws_col: 0, ws_xpixel: 0, ws_ypixel: 0 }
    }
}

/// The console: a serial port, once its driver is there; what stands in for it
/// until then; and a screen, if there is one.
pub struct Console<U: TextSink, E: TextSink, G: TextSink> {
    uart: Option<U>,
    early: E,
    graphic: Option<G>,
    size: ConsoleWinSize,
    mode: u32,
    written: Ghost<Seq<Written>>,
}

impl<U: TextSink, E: TextSink, G: TextSink> Console<U, E, G> {
    /// What was written so far.
    pub closed spec fn written(self) -> Seq<Written> {
        self.written@
    }

    /// What the serial port's driver was given, if it is there.
    pub closed spec fn uart_text(self) -> Option<Seq<Seq<char>>> {
        match self.uart {
            Some(port) => Some(port.text()),
            None => None,
        }
    }

    /// What was written without a driver.
    pub closed spec fn early_text(self) -> Seq<Seq<char>> {
        self.early.text()
    }

    /// What the screen was given, if there is one.
    pub closed spec fn graphic_text(self) -> Option<Seq<Seq<char>>> {
        match self.graphic {
            Some(screen) => Some(screen.text()),
            None => None,
        }
    }

    pub open spec fn has_uart(self) -> bool {
        self.uart_text() is Some
    }

    pub open spec fn has_graphic(self) -> bool {
        self.graphic_text() is Some
    }

    pub closed spec fn size(self) -> ConsoleWinSize {
        self.size
    }

    pub closed spec fn mode(self) -> u32 {
        self.mode
    }

    /// `after` is this console once `more` was written, in order: each text has
    /// reached the device that it was written to, and no other.
    pub open spec fn writes(self, after: Self, more: Seq<Written>) -> bool {
        &&& after.written() == self.written() + more
        &&& after.uart_text() == match self.uart_text() {
            Some(text) => Some(text + to_serial(more)),
            None => None,
        }
        &&& after.early_text() == self.early_text() + to_early(more)
        &&& after.graphic_text() == match self.graphic_text() {
            Some(text) => Some(text + to_graphic(more)),
            None => None,
        }
        &&& after.size() == self.size()
        &&& after.mode() == self.mode()
    }

    /// Nothing was written between `self` and `after`, and the same devices are there.
    pub open spec fn shows_the_same(self, after: Self) -> bool {
        &&& after.written() == self.written()
        &&& after.uart_text() == self.uart_text()
        &&& after.early_text() == self.early_text()
        &&& after.graphic_text() == self.graphic_text()
    }

    /// What writing `text` to the serial port comes to.
    pub open spec fn serial(self, text: Seq<char>) -> Seq<Written> {
        if self.has_uart() {
            seq![Written::Serial(text)]
        } else {
            seq![Written::Early(text)]
        }
    }

    /// What writing `text` to the screen comes to.
    pub open spec fn graphic(self, text: Seq<char>) -> Seq<Written> {
        if self.has_graphic() {
            seq![Written::Graphic(text)]
        } else {
            Seq::empty()
        }
    }

    /// A console with neither a driver nor a screen.
    pub fn new(early: E) -> (console: Self)
        ensures
            !console.has_uart(),
            !console.has_graphic(),
            console.size() == ConsoleWinSize::zero(),
            console.mode() == KD_TEXT,
            console.written() == Seq::<Written>::empty(),
            console.early_text() == early.text(),
    {
        Console {
            uart: None,
            early,
            graphic: None,
            size: ConsoleWinSize::default(),
            mode: KD_TEXT,
            written: Ghost(Seq::empty()),
        }
    }

    /// The serial port's driver is there.
    pub fn set_uart(&mut self, uart: U)
        ensures
            final(self).uart_text() == Some(uart.text()),
            final(self).early_text() == old(self).early_text(),
            final(self).graphic_text() == old(self).graphic_text(),
            final(self).size() == old(self).size(),
            final(self).mode() == old(self).mode(),
            final(self).written() == old(self).written(),
    {
        self.uart = Some(uart);
    }

    fn write_early(&mut self, s: &str)
        ensures
            old(self).writes(*final(self), seq![Written::Early(s@)]),
    {
        let ghost before = *self;
        self.early.write_str(s);
        self.written = Ghost(self.written@.push(Written::Early(s@)));
        proof {
            before.lemma_writes_one(*self, Written::Early(s@));
        }
    }

    /// One text was written.
    proof fn lemma_writes_one(self, after: Self, written: Written)
        requires
            after.written() == self.written().push(written),
            after.uart_text() == match (self.uart_text(), written) {
                (Some(all), Written::Serial(text)) => Some(all.push(text)),
                _ => self.uart_text(),
            },
            after.early_text() == match written {
                Written::Early(text) => self.early_text().push(text),
                _ => self.early_text(),
            },
            after.graphic_text() == match (self.graphic_text(), written) {
                (Some(all), Written::Graphic(text)) => Some(all.push(text)),
                _ => self.graphic_text(),
            },
            after.size() == self.size(),
            after.mode() == self.mode(),
        ensures
            self.writes(after, seq![written]),
    {
        lemma_one(written);
        assert(after.written() =~= self.written() + seq![written]);
        assert(after.early_text() =~= self.early_text() + to_early(seq![written]));
        if let Some(all) = self.uart_text() {
            assert(after.uart_text()->0 =~= all + to_serial(seq![written]));
        }
        if let Some(all) = self.graphic_text() {
            assert(after.graphic_text()->0 =~= all + to_graphic(seq![written]));
        }
    }

    /// Nothing was written.
    proof fn lemma_writes_nothing(self)
        ensures
            self.writes(self, Seq::empty()),
    {
        let none = Seq::<Written>::empty();
        assert(self.written() =~= self.written() + none);
        assert(self.early_text() =~= self.early_text() + to_early(none));
        if let Some(all) = self.uart_text() {
            assert(all =~= all + to_serial(none));
        }
        if let Some(all) = self.graphic_text() {
            assert(all =~= all + to_graphic(none));
        }
    }

    /// One text was written after the other.
    proof fn lemma_writes_chain(self, mid: Self, after: Self, a: Seq<Written>, b: Seq<Written>)
        requires
            self.writes(mid, a),
            mid.writes(after, b),
        ensures
            self.writes(after, a + b),
    {
        lemma_add(a, b);
        assert(after.written() =~= self.written() + (a + b));
        assert(after.early_text() =~= self.early_text() + to_early(a + b));
        if let Some(all) = self.uart_text() {
            assert(after.uart_text()->0 =~= all + to_serial(a + b));
        }
        if let Some(all) = self.graphic_text() {
            assert(after.graphic_text()->0 =~= all + to_graphic(a + b));
        }
    }
}

/// The part of a number that a window size can hold.
pub open spec fn fitted(n: u32) -> u16 {
    (n % 0x1_0000) as u16
}

/// The screen is there: `rows` by `columns` characters, `width` by `height` pixels.
pub fn init_graphic_console<U: TextSink, E: TextSink, G: TextSink>(
    console: &mut Console<U, E, G>,
    graphic: G,
    rows: u32,
    columns: u32,
    width: u32,
    height: u32,
)
    ensures
        final(console).graphic_text() == Some(graphic.text()),
        final(console).uart_text() == old(console).uart_text(),
        final(console).early_text() == old(console).early_text(),
        final(console).mode() == old(console).mode(),
        final(console).written() == old(console).written(),
        final(console).size() == (ConsoleWinSize {
            ws_row: fitted(rows),
            ws_col: fitted(columns),
            ws_xpixel: fitted(width),
            ws_ypixel: fitted(height),
        }),
{
    console.size = ConsoleWinSize {
        ws_row: (rows % 0x1_0000) as u16,
        ws_col: (columns % 0x1_0000) as u16,
        ws_xpixel: (width % 0x1_0000) as u16,
        ws_ypixel: (height % 0x1_0000) as u16,
    };
    console.graphic = Some(graphic);
}

/// Writes to the serial port, or to what stands in for it.
pub fn serial_write_str<U: TextSink, E: TextSink, G: TextSink>(
    console: &mut Console<U, E, G>,
    s: &str,
)
    ensures
        old(console).writes(*final(console), old(console).serial(s@)),
{
    let ghost before = *console;
    let mut uart: Option<U> = None;
    std::mem::swap(&mut uart, &mut console.uart);
    match uart {
        Some(mut port) => {
            port.write_str(s);
            console.uart = Some(port);
            console.written = Ghost(console.written@.push(Written::Serial(s@)));
            proof {
                before.lemma_writes_one(*console, Written::Serial(s@));
            }
        },
        None => {
            console.write_early(s);
        },
    }
}

/// Writes a text that was formatted to the serial port.
pub fn serial_write_fmt<U: TextSink, E: TextSink, G: TextSink>(
    console: &mut Console<U, E, G>,
    text: &str,
)
    ensures
        old(console).writes(*final(console), old(console).serial(text@)),
{
    serial_write_str(console, text);
}

/// Writes without the help of any driver.
pub fn debug_write_str<U: TextSink, E: TextSink, G: TextSink>(
    console: &mut Console<U, E, G>,
    s: &str,
)
    ensures
        old(console).writes(*final(console), seq![Written::Early(s@)]),
{
    console.write_early(s);
}

/// Writes a text that was formatted without the help of any driver.
pub fn debug_write_fmt<U: TextSink, E: TextSink, G: TextSink>(
    console: &mut Console<U, E, G>,
    text: &str,
)
    ensures
        old(console).writes(*final(console), seq![Written::Early(text@)]),
{
    debug_write_str(console, text);
}

/// Writes to the screen, if there is one.
pub fn graphic_console_write_str<U: TextSink, E: TextSink, G: TextSink>(
    console: &mut Console<U, E, G>,
    s: &str,
)
    ensures
        old(console).writes(*final(console), old(console).graphic(s@)),
{
    let ghost before = *console;
    let mut graphic: Option<G> = None;
    std::mem::swap(&mut graphic, &mut console.graphic);
    match graphic {
        Some(mut screen) => {
            screen.write_str(s);
            console.graphic = Some(screen);
            console.written = Ghost(console.written@.push(Written::Graphic(s@)));
            proof {
                before.lemma_writes_one(*console, Written::Graphic(s@));
            }
        },
        None => {
            proof {
                before.lemma_writes_nothing();
            }
        },
    }
}

/// Writes a text that was formatted to the screen, if there is one.
pub fn graphic_console_write_fmt<U: TextSink, E: TextSink, G: TextSink>(
    console: &mut Console<U, E, G>,
    text: &str,
)
    ensures
        old(console).writes(*final(console), old(console).graphic(text@)),
{
    graphic_console_write_str(console, text);
}

/// Writes to the serial port, then to the screen, if there is one.
pub fn console_write_str<U: TextSink, E: TextSink, G: TextSink>(
    console: &mut Console<U, E, G>,
    s: &str,
)
    ensures
        old(console).writes(
            *final(console),
            old(console).serial(s@) + old(console).graphic(s@),
        ),
{
    let ghost before = *console;
    serial_write_str(console, s);
    let ghost mid = *console;
    graphic_console_write_str(console, s);
    proof {
        before.lemma_writes_chain(mid, *console, before.serial(s@), before.graphic(s@));
    }
}

/// Writes a text that was formatted to the serial port, then to the screen.
pub fn console_write_fmt<U: TextSink, E: TextSink, G: TextSink>(
    console: &mut Console<U, E, G>,
    text: &str,
)
    ensures
        old(console).writes(
            *final(console),
            old(console).serial(text@) + old(console).graphic(text@),
        ),
{
    let ghost before = *console;
    serial_write_fmt(console, text);
    let ghost mid = *console;
    graphic_console_write_fmt(console, text);
    proof {
        before.lemma_writes_chain(mid, *console, before.serial(text@), before.graphic(text@));
    }
}

/// Writes a message of the kernel log, whatever its priority, to the serial port.
pub fn klog_emit<U: TextSink, E: TextSink, G: TextSink>(
    console: &mut Console<U, E, G>,
    _priority: u8,
    msg: &str,
)
    ensures
        old(console).writes(*final(console), old(console).serial(msg@)),
{
    serial_write_str(console, msg);
}

pub fn set_kd_mode<U: TextSink, E: TextSink, G: TextSink>(
    console: &mut Console<U, E, G>,
    mode: u32,
)
    ensures
        final(console).mode() == mode,
        final(console).size() == old(console).size(),
        old(console).shows_the_same(*final(console)),
{
    console.mode = mode;
}

pub fn kd_mode<U: TextSink, E: TextSink, G: TextSink>(console: &Console<U, E, G>) -> (mode: u32)
    ensures
        mode == console.mode(),
{
    console.mode
}

/// There is one virtual terminal only.
pub fn active_vt() -> (vt: usize)
    ensures
        vt == 0,
{
    0
}

/// The size of the console: that of the screen, or zero if there is none.
pub fn console_win_size<U: TextSink, E: TextSink, G: TextSink>(
    console: &Console<U, E, G>,
) -> (size: ConsoleWinSize)
    ensures
        size == console.size(),
{
    console.size
}

/// What is written to the console reaches the serial port, by its driver or by what
/// stands in for it but never by both, and the screen if there is one, each as it is
/// and once.
pub proof fn law_text_reaches_port_and_screen<U: TextSink, E: TextSink, G: TextSink>(
    before: Console<U, E, G>,
    after: Console<U, E, G>,
    text: Seq<char>,
)
    requires
        before.writes(after, before.serial(text) + before.graphic(text)),
    ensures
        before.uart_text() matches Some(all) ==> after.uart_text() == Some(all.push(text))
            && after.early_text() == before.early_text(),
        before.uart_text() is None ==> after.uart_text() is None && after.early_text()
            == before.early_text().push(text),
        before.graphic_text() matches Some(all) ==> after.graphic_text() == Some(all.push(text)),
        before.graphic_text() is None ==> after.graphic_text() is None,
{
    lemma_add(before.serial(text), before.graphic(text));
    law_text_reaches_port(before, text);
    if before.graphic_text() is Some {
        lemma_one(Written::Graphic(text));
    }
    let more = before.serial(text) + before.graphic(text);
    assert(to_graphic(before.serial(text)) =~= Seq::empty());
    assert(to_serial(before.graphic(text)) =~= Seq::empty());
    assert(to_early(before.graphic(text)) =~= Seq::empty());
    assert(after.early_text() =~= before.early_text() + to_early(more));
    if let Some(all) = before.uart_text() {
        assert(all + to_serial(more) =~= all.push(text));
        assert(before.early_text() + to_early(more) =~= before.early_text());
    } else {
        assert(before.early_text() + to_early(more) =~= before.early_text().push(text));
    }
    if let Some(all) = before.graphic_text() {
        assert(all + to_graphic(more) =~= all.push(text));
    }
}

/// A text for the serial port is not shown on the screen, and does not get lost while
/// there is no driver.
pub proof fn law_text_reaches_port<U: TextSink, E: TextSink, G: TextSink>(
    before: Console<U, E, G>,
    text: Seq<char>,
)
    ensures
        to_graphic(before.serial(text)) == Seq::<Seq<char>>::empty(),
        before.has_uart() ==> to_serial(before.serial(text)) == seq![text] && to_early(
            before.serial(text),
        ) == Seq::<Seq<char>>::empty(),
        !before.has_uart() ==> to_early(before.serial(text)) == seq![text] && to_serial(
            before.serial(text),
        ) == Seq::<Seq<char>>::empty(),
{
    lemma_one(Written::Serial(text));
    lemma_one(Written::Early(text));
}

} // verus!
