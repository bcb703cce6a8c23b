//! The IO22D08 board: the display buffer, the relay shadow register, the
//! frame that each multiplex step shifts out to the three daisy-chained
//! 74HC595 registers, and the board itself, which drives them through a set
//! of pins. The pins are the board support layer's; everything above them is
//! here.
use vstd::prelude::*;

pub use crate::board_api::{BoardError, Io22d08Api};
use crate::board_api::{event, outcome, BoardCall, BoardEvent};
use crate::config::{BUTTON_COUNT, DIGIT_COUNT, INPUT_COUNT, RELAY_COUNT};

verus! {

/// Bit `n` of `x`.
pub open spec fn bit(x: u8, n: u8) -> bool {
    (x >> n) & 1u8 == 1u8
}

/// Active-low seven-segment code of decimal digit `d` (bit 0 = segment a,
/// ..., bit 6 = segment g, bit 7 = decimal point).
pub open spec fn segment_code(d: u8) -> u8 {
    if d == 0 {
        0xc0
    } else if d == 1 {
        0xf9
    } else if d == 2 {
        0xa4
    } else if d == 3 {
        0xb0
    } else if d == 4 {
        0x99
    } else if d == 5 {
        0x92
    } else if d == 6 {
        0x82
    } else if d == 7 {
        0xf8
    } else if d == 8 {
        0x80
    } else {
        0x90
    }
}

/// Active-low select code of display position `p`.
pub open spec fn position_code(p: int) -> u8 {
    if p == 0 {
        0xfe
    } else if p == 1 {
        0xfd
    } else if p == 2 {
        0xfb
    } else {
        0xf7
    }
}

/// Display position `p` (0 = leftmost) is selected by clearing exactly bit
/// `p` of the select code: the select bits of the frame for position `p`
/// (the code inverted) have exactly bit `p` set among the four.
pub proof fn lemma_position_code_selects_its_digit(p: int)
    requires
        0 <= p < DIGIT_COUNT,
    ensures
        position_code(p) == !(1u8 << (p as u8)),
        forall|k: u8| k < 4 ==> #[trigger] bit(!position_code(p), k) == (k == p as u8),
{
    let c = position_code(p);
    let q = p as u8;
    assert(c == !(1u8 << q)) by {
        if p == 0 {
            assert(0xfeu8 == !(1u8 << 0u8)) by (bit_vector);
        } else if p == 1 {
            assert(0xfdu8 == !(1u8 << 1u8)) by (bit_vector);
        } else if p == 2 {
            assert(0xfbu8 == !(1u8 << 2u8)) by (bit_vector);
        } else {
            assert(0xf7u8 == !(1u8 << 3u8)) by (bit_vector);
        }
    }
    assert(forall|k: u8| k < 4 ==> #[trigger] bit(!c, k) == (k == q)) by (bit_vector)
        requires
            q < 4,
            c == !(1u8 << q),
    ;
}

/// The three bytes of one multiplex frame, in the order they are shifted out.
#[derive(Copy, Clone, Debug, PartialEq, Eq, Structural)]
pub struct Frame {
    pub display_h: u8,
    pub display_l: u8,
    pub relay_dat: u8,
}

/// The frame wiring: how the segment code `seg` of the shown digit, the
/// (active-high) position bits `pos` and the relay port are routed to the
/// output bytes of the shift registers.
pub open spec fn frame_wiring(f: Frame, seg: u8, pos: u8, port: u8) -> bool {
    &&& !bit(f.display_l, 0)
    &&& bit(f.display_l, 1) == bit(seg, 4)
    &&& bit(f.display_l, 2) == bit(pos, 0)
    &&& bit(f.display_l, 3) == bit(seg, 3)
    &&& bit(f.display_l, 4) == bit(seg, 0)
    &&& bit(f.display_l, 5) == bit(seg, 7)
    &&& bit(f.display_l, 6) == bit(seg, 5)
    &&& bit(f.display_l, 7) == bit(seg, 2)
    &&& !bit(f.display_h, 0)
    &&& bit(f.display_h, 1) == bit(pos, 1)
    &&& bit(f.display_h, 2) == bit(pos, 2)
    &&& bit(f.display_h, 3) == bit(seg, 6)
    &&& bit(f.display_h, 4) == bit(seg, 1)
    &&& bit(f.display_h, 5) == bit(pos, 3)
    &&& !bit(f.display_h, 6)
    &&& !bit(f.display_h, 7)
    &&& bit(f.relay_dat, 0) == bit(port, 7)
    &&& forall|k: u8| 0 <= k < 7 ==> #[trigger] bit(f.relay_dat, (k + 1) as u8) == bit(port, k)
}

/// Shadow registers of the board: the four display digits, the relay port
/// (bit N = relay N) and the display position shown last.
pub struct Io22d08Registers {
    dat_buf: [u8; DIGIT_COUNT],
    relay_port: u8,
    com_num: usize,
}

impl Io22d08Registers {
    /// The display digits.
    pub closed spec fn digits(&self) -> Seq<u8> {
        self.dat_buf@
    }

    /// The relay port.
    pub closed spec fn port(&self) -> u8 {
        self.relay_port
    }

    /// The display position shown last.
    pub closed spec fn position(&self) -> int {
        self.com_num as int
    }

    /// Every digit is a decimal digit and the position is a display position.
    #[verifier::type_invariant]
    spec fn inv(self) -> bool {
        &&& forall|i: int| 0 <= i < DIGIT_COUNT ==> #[trigger] self.dat_buf@[i] <= 9
        &&& self.com_num < DIGIT_COUNT
    }

    /// All digits 0, all relays off, position 0.
    pub fn new() -> (r: Self)
        ensures
            r.digits() == seq![0u8, 0u8, 0u8, 0u8],
            r.port() == 0,
            r.position() == 0,
    {
        let r = Io22d08Registers { dat_buf: [0;DIGIT_COUNT], relay_port: 0, com_num: 0 };
        assert(r.digits() =~= seq![0u8, 0u8, 0u8, 0u8]);
        r
    }

    /// Write the four lowest decimal places of a number into the display
    /// buffer, thousands to ones (numbers up to 9999 are shown exactly).
    pub fn set_number(&mut self, value: u16)
        ensures
            final(self).digits() == seq![
                ((value / 1000) % 10) as u8,
                ((value % 1000) / 100) as u8,
                ((value % 100) / 10) as u8,
                (value % 10) as u8,
            ],
            final(self).port() == old(self).port(),
            final(self).position() == old(self).position(),
    {
        proof {
            use_type_invariant(&*self);
        }
        let d0: u16 = (value / 1000) % 10;
        let rest: u16 = value % 1000;
        let d1: u16 = rest / 100;
        let rest2: u16 = value % 100;
        let d2: u16 = rest2 / 10;
        let d3: u16 = value % 10;
        assert(d1 < 10 && d2 < 10) by (nonlinear_arith)
            requires
                rest < 1000,
                rest2 < 100,
                d1 == rest / 100,
                d2 == rest2 / 10,
        ;
        let digits: [u8; DIGIT_COUNT] = [d0 as u8, d1 as u8, d2 as u8, d3 as u8];
        self.dat_buf = digits;
        assert(self.digits() =~= seq![
            ((value / 1000) % 10) as u8,
            ((value % 1000) / 100) as u8,
            ((value % 100) / 10) as u8,
            (value % 10) as u8,
        ]);
    }

    /// Set the digit at `position` to `value % 10`; a position past the
    /// display is refused.
    pub fn show_digit(&mut self, position: usize, value: u8) -> (r: Result<(), BoardError>)
        ensures
            position >= DIGIT_COUNT ==> r == Err::<(), BoardError>(BoardError::InvalidDigitIndex)
                && *final(self) == *old(self),
            position < DIGIT_COUNT ==> r is Ok && final(self).digits() == old(self).digits().update(
                position as int,
                value % 10,
            ),
            final(self).port() == old(self).port(),
            final(self).position() == old(self).position(),
    {
        proof {
            use_type_invariant(&*self);
        }
        if position >= DIGIT_COUNT {
            return Err(BoardError::InvalidDigitIndex);
        }
        self.dat_buf[position] = value % 10;
        Ok(())
    }

    /// Set relay `relay`'s bit of the port; an index past the relays is
    /// refused.
    pub fn relay_on(&mut self, relay: usize) -> (r: Result<(), BoardError>)
        ensures
            relay >= RELAY_COUNT ==> r == Err::<(), BoardError>(BoardError::InvalidRelayIndex)
                && *final(self) == *old(self),
            relay < RELAY_COUNT ==> r is Ok && forall|k: u8|
                k < 8 ==> #[trigger] bit(final(self).port(), k) == (if k == relay {
                    true
                } else {
                    bit(old(self).port(), k)
                }),
            final(self).digits() == old(self).digits(),
            final(self).position() == old(self).position(),
    {
        proof {
            use_type_invariant(&*self);
        }
        if relay >= RELAY_COUNT {
            return Err(BoardError::InvalidRelayIndex);
        }
        let old_port = self.relay_port;
        let r = relay as u8;
        self.relay_port = old_port | (1u8 << r);
        let new_port = self.relay_port;
        assert(forall|k: u8|
            k < 8 ==> #[trigger] bit(new_port, k) == (if k == r {
                true
            } else {
                bit(old_port, k)
            })) by (bit_vector)
            requires
                r < 8,
                new_port == old_port | (1u8 << r),
        ;
        Ok(())
    }

    /// Clear relay `relay`'s bit of the port; an index past the relays is
    /// refused.
    pub fn relay_off(&mut self, relay: usize) -> (r: Result<(), BoardError>)
        ensures
            relay >= RELAY_COUNT ==> r == Err::<(), BoardError>(BoardError::InvalidRelayIndex)
                && *final(self) == *old(self),
            relay < RELAY_COUNT ==> r is Ok && forall|k: u8|
                k < 8 ==> #[trigger] bit(final(self).port(), k) == (if k == relay {
                    false
                } else {
                    bit(old(self).port(), k)
                }),
            final(self).digits() == old(self).digits(),
            final(self).position() == old(self).position(),
    {
        proof {
            use_type_invariant(&*self);
        }
        if relay >= RELAY_COUNT {
            return Err(BoardError::InvalidRelayIndex);
        }
        let old_port = self.relay_port;
        let r = relay as u8;
        self.relay_port = old_port & !(1u8 << r);
        let new_port = self.relay_port;
        assert(forall|k: u8|
            k < 8 ==> #[trigger] bit(new_port, k) == (if k == r {
                false
            } else {
                bit(old_port, k)
            })) by (bit_vector)
            requires
                r < 8,
                new_port == old_port & !(1u8 << r),
        ;
        Ok(())
    }

    /// Flip relay `relay`'s bit of the port; an index past the relays is
    /// refused.
    pub fn relay_toggle(&mut self, relay: usize) -> (r: Result<(), BoardError>)
        ensures
            relay >= RELAY_COUNT ==> r == Err::<(), BoardError>(BoardError::InvalidRelayIndex)
                && *final(self) == *old(self),
            relay < RELAY_COUNT ==> r is Ok && forall|k: u8|
                k < 8 ==> #[trigger] bit(final(self).port(), k) == (if k == relay {
                    !bit(old(self).port(), k)
                } else {
                    bit(old(self).port(), k)
                }),
            final(self).digits() == old(self).digits(),
            final(self).position() == old(self).position(),
    {
        proof {
            use_type_invariant(&*self);
        }
        if relay >= RELAY_COUNT {
            return Err(BoardError::InvalidRelayIndex);
        }
        let old_port = self.relay_port;
        let r = relay as u8;
        self.relay_port = old_port ^ (1u8 << r);
        let new_port = self.relay_port;
        assert(forall|k: u8|
            k < 8 ==> #[trigger] bit(new_port, k) == (if k == r {
                !bit(old_port, k)
            } else {
                bit(old_port, k)
            })) by (bit_vector)
            requires
                r < 8,
                new_port == old_port ^ (1u8 << r),
        ;
        Ok(())
    }

    /// Advance the multiplex to the next display position and compute the
    /// frame to shift out for it: the position's segment code, its select
    /// bits and the relay port, routed as the board is wired.
    pub fn next_frame(&mut self) -> (f: Frame)
        ensures
            final(self).position() == (old(self).position() + 1) % 4,
            final(self).digits() == old(self).digits(),
            final(self).port() == old(self).port(),
            frame_wiring(
                f,
                segment_code(old(self).digits()[final(self).position()]),
                !position_code(final(self).position()),
                old(self).port(),
            ),
    {
        proof {
            use_type_invariant(&*self);
        }
        self.com_num = (self.com_num + 1) % 4;
        let dat = self.dat_buf[self.com_num];
        let tube_dat = segment_code_of(dat);
        let bit_num = !position_code_of(self.com_num);

        let mut display_l: u8 = (tube_dat & 0x10) >> 3;
        display_l = display_l | ((bit_num & 0x01) << 2);
        display_l = display_l | (tube_dat & 0x08);
        display_l = display_l | ((tube_dat & 0x01) << 4);
        display_l = display_l | ((tube_dat & 0x80) >> 2);
        display_l = display_l | ((tube_dat & 0x20) << 1);
        display_l = display_l | ((tube_dat & 0x04) << 5);

        let mut display_h: u8 = bit_num & 0x02;
        display_h = display_h | (bit_num & 0x04);
        display_h = display_h | ((tube_dat & 0x40) >> 3);
        display_h = display_h | ((tube_dat & 0x02) << 3);
        display_h = display_h | ((bit_num & 0x08) << 2);

        let port = self.relay_port;
        let relay_dat: u8 = ((port & 0x7f) << 1) | ((port & 0x80) >> 7);
        let f = Frame { display_h, display_l, relay_dat };
        proof {
            lemma_frame_wiring(tube_dat, bit_num, port, display_l, display_h, relay_dat);
        }
        f
    }
}

/// The frame bytes, as assembled from the segment code, the position bits and
/// the relay port, follow the board's wiring.
proof fn lemma_frame_wiring(seg: u8, pos: u8, port: u8, l: u8, h: u8, rd: u8)
    requires
        l == (((((((seg & 0x10) >> 3) | ((pos & 0x01) << 2)) | (seg & 0x08)) | ((seg & 0x01) << 4))
            | ((seg & 0x80) >> 2)) | ((seg & 0x20) << 1)) | ((seg & 0x04) << 5),
        h == ((((pos & 0x02) | (pos & 0x04)) | ((seg & 0x40) >> 3)) | ((seg & 0x02) << 3)) | ((pos
            & 0x08) << 2),
        rd == ((port & 0x7f) << 1) | ((port & 0x80) >> 7),
    ensures
        frame_wiring(Frame { display_h: h, display_l: l, relay_dat: rd }, seg, pos, port),
{
    assert(!bit(l, 0) && bit(l, 1) == bit(seg, 4) && bit(l, 2) == bit(pos, 0) && bit(l, 3) == bit(
        seg,
        3,
    ) && bit(l, 4) == bit(seg, 0) && bit(l, 5) == bit(seg, 7) && bit(l, 6) == bit(seg, 5) && bit(
        l,
        7,
    ) == bit(seg, 2)) by (bit_vector)
        requires
            l == (((((((seg & 0x10) >> 3) | ((pos & 0x01) << 2)) | (seg & 0x08)) | ((seg & 0x01)
                << 4)) | ((seg & 0x80) >> 2)) | ((seg & 0x20) << 1)) | ((seg & 0x04) << 5),
    ;
    assert(!bit(h, 0) && bit(h, 1) == bit(pos, 1) && bit(h, 2) == bit(pos, 2) && bit(h, 3) == bit(
        seg,
        6,
    ) && bit(h, 4) == bit(seg, 1) && bit(h, 5) == bit(pos, 3) && !bit(h, 6) && !bit(h, 7))
        by (bit_vector)
        requires
            h == ((((pos & 0x02) | (pos & 0x04)) | ((seg & 0x40) >> 3)) | ((seg & 0x02) << 3)) | ((
            pos & 0x08) << 2),
    ;
    assert(bit(rd, 0) == bit(port, 7) && forall|k: u8|
        0 <= k < 7 ==> #[trigger] bit(rd, (k + 1) as u8) == bit(port, k)) by (bit_vector)
        requires
            rd == ((port & 0x7f) << 1) | ((port & 0x80) >> 7),
    ;
}

/// Toggling a relay twice restores the port: two ports that each differ
/// from the previous one exactly in relay `r`'s bit (as `relay_toggle`
/// leaves it) make the last equal to the first.
pub proof fn lemma_toggle_twice_restores_port(p0: u8, p1: u8, p2: u8, r: u8)
    requires
        r < 8,
        forall|k: u8| k < 8 ==> #[trigger] bit(p1, k) == (if k == r {
            !bit(p0, k)
        } else {
            bit(p0, k)
        }),
        forall|k: u8| k < 8 ==> #[trigger] bit(p2, k) == (if k == r {
            !bit(p1, k)
        } else {
            bit(p1, k)
        }),
    ensures
        p2 == p0,
{
    assert(bit(p2, 0) == bit(p0, 0) && bit(p2, 1) == bit(p0, 1) && bit(p2, 2) == bit(p0, 2) && bit(
        p2,
        3,
    ) == bit(p0, 3) && bit(p2, 4) == bit(p0, 4) && bit(p2, 5) == bit(p0, 5) && bit(p2, 6) == bit(
        p0,
        6,
    ) && bit(p2, 7) == bit(p0, 7));
    assert(p2 == p0) by (bit_vector)
        requires
            bit(p2, 0) == bit(p0, 0),
            bit(p2, 1) == bit(p0, 1),
            bit(p2, 2) == bit(p0, 2),
            bit(p2, 3) == bit(p0, 3),
            bit(p2, 4) == bit(p0, 4),
            bit(p2, 5) == bit(p0, 5),
            bit(p2, 6) == bit(p0, 6),
            bit(p2, 7) == bit(p0, 7),
    ;
}

/// Active-low seven-segment code of a decimal digit.
fn segment_code_of(d: u8) -> (c: u8)
    requires
        d <= 9,
    ensures
        c == segment_code(d),
{
    let table: [u8; 10] = [0xc0, 0xf9, 0xa4, 0xb0, 0x99, 0x92, 0x82, 0xf8, 0x80, 0x90];
    table[d as usize]
}

/// Active-low select code of a display position.
fn position_code_of(p: usize) -> (c: u8)
    requires
        p < 4,
    ensures
        c == position_code(p as int),
{
    let table: [u8; 4] = [0xfe, 0xfd, 0xfb, 0xf7];
    table[p]
}

/// The bits of `value`, most significant first: the order in which a byte is
/// clocked into a shift register.
pub fn msb_first_bits(value: u8) -> (bits: [bool; 8])
    ensures
        forall|i: int| 0 <= i < 8 ==> #[trigger] bits@[i] == bit(value, (7 - i) as u8),
{
    let mut bits = [false;8];
    let mut i: usize = 0;
    while i < 8
        invariant
            0 <= i <= 8,
            forall|j: int| 0 <= j < i ==> #[trigger] bits@[j] == bit(value, (7 - j) as u8),
        decreases 8 - i,
    {
        let shift: u8 = (7 - i) as u8;
        bits[i] = (value >> shift) & 1u8 == 1u8;
        i = i + 1;
    }
    bits
}

/// The pins of an IO22D08 board: the button and input pins (low while
/// active), and the output enable, data, clock and latch lines of the shift
/// registers. A failed pin operation returns its error.
pub trait BoardPins {
    /// Whether the pin of button `button` reads high.
    fn button_high(&mut self, button: usize) -> Result<bool, BoardError>;

    /// Whether the pin of external input `input` reads high.
    fn input_high(&mut self, input: usize) -> Result<bool, BoardError>;

    /// Drive the shift registers' output enable low, enabling their outputs.
    fn enable_outputs(&mut self) -> Result<(), BoardError>;

    /// Drive the data line.
    fn set_data(&mut self, high: bool) -> Result<(), BoardError>;

    /// Drive the clock line.
    fn set_clock(&mut self, high: bool) -> Result<(), BoardError>;

    /// Drive the latch line.
    fn set_latch(&mut self, high: bool) -> Result<(), BoardError>;
}

/// Two bytes with the same eight bits are equal.
proof fn lemma_bits_determine_byte(a: u8, b: u8)
    requires
        forall|k: u8| k < 8 ==> #[trigger] bit(a, k) == bit(b, k),
    ensures
        a == b,
{
    assert(bit(a, 0) == bit(b, 0) && bit(a, 1) == bit(b, 1) && bit(a, 2) == bit(b, 2) && bit(a, 3)
        == bit(b, 3) && bit(a, 4) == bit(b, 4) && bit(a, 5) == bit(b, 5) && bit(a, 6) == bit(b, 6)
        && bit(a, 7) == bit(b, 7));
    assert(a == b) by (bit_vector)
        requires
            bit(a, 0) == bit(b, 0),
            bit(a, 1) == bit(b, 1),
            bit(a, 2) == bit(b, 2),
            bit(a, 3) == bit(b, 3),
            bit(a, 4) == bit(b, 4),
            bit(a, 5) == bit(b, 5),
            bit(a, 6) == bit(b, 6),
            bit(a, 7) == bit(b, 7),
    ;
}

/// The wiring fixes the frame: the segment code, the select bits and the
/// relay port determine every byte shifted out.
pub proof fn lemma_frame_wiring_determines_frame(f: Frame, g: Frame, seg: u8, pos: u8, port: u8)
    requires
        frame_wiring(f, seg, pos, port),
        frame_wiring(g, seg, pos, port),
    ensures
        f == g,
{
    assert forall|k: u8| k < 8 implies #[trigger] bit(f.relay_dat, k) == bit(g.relay_dat, k) by {
        if k > 0 {
            let j = (k - 1) as u8;
            assert(bit(f.relay_dat, (j + 1) as u8) == bit(port, j));
            assert(bit(g.relay_dat, (j + 1) as u8) == bit(port, j));
        }
    }
    assert forall|k: u8| k < 8 implies #[trigger] bit(f.display_l, k) == bit(g.display_l, k) by {
        assert(k == 0 || k == 1 || k == 2 || k == 3 || k == 4 || k == 5 || k == 6 || k == 7);
    }
    assert forall|k: u8| k < 8 implies #[trigger] bit(f.display_h, k) == bit(g.display_h, k) by {
        assert(k == 0 || k == 1 || k == 2 || k == 3 || k == 4 || k == 5 || k == 6 || k == 7);
    }
    lemma_bits_determine_byte(f.relay_dat, g.relay_dat);
    lemma_bits_determine_byte(f.display_l, g.display_l);
    lemma_bits_determine_byte(f.display_h, g.display_h);
}

/// One write to a shift-register line.
pub enum PinWrite {
    Enable,
    Data(bool),
    Clock(bool),
    Latch(bool),
}

/// Write `j` (of 24) of clocking `value` into a shift register, most
/// significant bit first: each bit is put on the data line, then the clock
/// rises and falls.
pub open spec fn bit_write(value: u8, j: int) -> PinWrite {
    if j % 3 == 0 {
        PinWrite::Data(bit(value, (7 - j / 3) as u8))
    } else if j % 3 == 1 {
        PinWrite::Clock(true)
    } else {
        PinWrite::Clock(false)
    }
}

/// The writes that clock `value` into a shift register.
pub open spec fn byte_writes(value: u8) -> Seq<PinWrite> {
    Seq::new(24, |j: int| bit_write(value, j))
}

/// The writes that latch frame `f` into the register chain: latch low, the
/// bytes `display_h`, `display_l` and `relay_dat` clocked in in that order,
/// latch high.
pub open spec fn frame_writes(f: Frame) -> Seq<PinWrite> {
    seq![PinWrite::Latch(false)] + byte_writes(f.display_h) + byte_writes(f.display_l)
        + byte_writes(f.relay_dat) + seq![PinWrite::Latch(true)]
}

/// The writes of a frame: the latch goes low first and high last, and in
/// between `display_h`, then `display_l`, then `relay_dat` are clocked in,
/// each from its most significant bit down: the bit is put on the data line,
/// then the clock rises and falls.
pub proof fn lemma_frame_writes_layout(f: Frame)
    ensures
        frame_writes(f).len() == 74,
        frame_writes(f)[0] == PinWrite::Latch(false),
        frame_writes(f)[73] == PinWrite::Latch(true),
        forall|i: int|
            0 <= i < 8 ==> #[trigger] frame_writes(f)[1 + 3 * i] == PinWrite::Data(
                bit(f.display_h, (7 - i) as u8),
            ) && frame_writes(f)[25 + 3 * i] == PinWrite::Data(bit(f.display_l, (7 - i) as u8))
                && frame_writes(f)[49 + 3 * i] == PinWrite::Data(bit(f.relay_dat, (7 - i) as u8)),
        forall|j: int|
            1 <= j < 73 && (j - 1) % 3 == 1 ==> #[trigger] frame_writes(f)[j] == PinWrite::Clock(true),
        forall|j: int|
            1 <= j < 73 && (j - 1) % 3 == 2 ==> #[trigger] frame_writes(f)[j] == PinWrite::Clock(false),
{
    let w = frame_writes(f);
    let h = byte_writes(f.display_h);
    let l = byte_writes(f.display_l);
    let r = byte_writes(f.relay_dat);
    assert forall|i: int| 0 <= i < 8 implies #[trigger] w[1 + 3 * i] == PinWrite::Data(
        bit(f.display_h, (7 - i) as u8),
    ) && w[25 + 3 * i] == PinWrite::Data(bit(f.display_l, (7 - i) as u8)) && w[49 + 3 * i]
        == PinWrite::Data(bit(f.relay_dat, (7 - i) as u8)) by {
        assert(w[1 + 3 * i] == h[3 * i]);
        assert(w[25 + 3 * i] == l[3 * i]);
        assert(w[49 + 3 * i] == r[3 * i]);
        assert((3 * i) / 3 == i && (3 * i) % 3 == 0);
    }
    assert forall|j: int| 1 <= j < 73 && (j - 1) % 3 == 1 implies #[trigger] w[j] == PinWrite::Clock(
        true,
    ) by {
        if j < 25 {
            assert(w[j] == h[j - 1]);
        } else if j < 49 {
            assert(w[j] == l[j - 25]);
            assert((j - 25) % 3 == 1);
        } else {
            assert(w[j] == r[j - 49]);
            assert((j - 49) % 3 == 1);
        }
    }
    assert forall|j: int| 1 <= j < 73 && (j - 1) % 3 == 2 implies #[trigger] w[j] == PinWrite::Clock(
        false,
    ) by {
        if j < 25 {
            assert(w[j] == h[j - 1]);
        } else if j < 49 {
            assert(w[j] == l[j - 25]);
            assert((j - 25) % 3 == 2);
        } else {
            assert(w[j] == r[j - 49]);
            assert((j - 49) % 3 == 2);
        }
    }
}

/// The board's pins, with every write to the shift-register lines recorded
/// in order as it is made.
struct LoggedPins<P> where P: BoardPins {
    pins: P,
    writes: Ghost<Seq<PinWrite>>,
}

impl<P> LoggedPins<P> where P: BoardPins {
    fn button_high(&mut self, button: usize) -> (r: Result<bool, BoardError>)
        ensures
            final(self).writes == old(self).writes,
    {
        self.pins.button_high(button)
    }

    fn input_high(&mut self, input: usize) -> (r: Result<bool, BoardError>)
        ensures
            final(self).writes == old(self).writes,
    {
        self.pins.input_high(input)
    }

    fn enable_outputs(&mut self) -> (r: Result<(), BoardError>)
        ensures
            final(self).writes@ == old(self).writes@.push(PinWrite::Enable),
    {
        let r = self.pins.enable_outputs();
        proof {
            self.writes@ = self.writes@.push(PinWrite::Enable);
        }
        r
    }

    fn set_data(&mut self, high: bool) -> (r: Result<(), BoardError>)
        ensures
            final(self).writes@ == old(self).writes@.push(PinWrite::Data(high)),
    {
        let r = self.pins.set_data(high);
        proof {
            self.writes@ = self.writes@.push(PinWrite::Data(high));
        }
        r
    }

    fn set_clock(&mut self, high: bool) -> (r: Result<(), BoardError>)
        ensures
            final(self).writes@ == old(self).writes@.push(PinWrite::Clock(high)),
    {
        let r = self.pins.set_clock(high);
        proof {
            self.writes@ = self.writes@.push(PinWrite::Clock(high));
        }
        r
    }

    fn set_latch(&mut self, high: bool) -> (r: Result<(), BoardError>)
        ensures
            final(self).writes@ == old(self).writes@.push(PinWrite::Latch(high)),
    {
        let r = self.pins.set_latch(high);
        proof {
            self.writes@ = self.writes@.push(PinWrite::Latch(high));
        }
        r
    }
}

/// Clock `value` into the shift registers, most significant bit first,
/// stopping at the first failed pin operation.
fn shift_out<P: BoardPins>(pins: &mut LoggedPins<P>, value: u8) -> (r: Result<(), BoardError>)
    ensures
        r is Ok ==> final(pins).writes@ == old(pins).writes@ + byte_writes(value),
{
    let ghost w0 = pins.writes@;
    let bits = msb_first_bits(value);
    let mut i: usize = 0;
    while i < 8
        invariant
            0 <= i <= 8,
            w0 == old(pins).writes@,
            forall|j: int| 0 <= j < 8 ==> #[trigger] bits@[j] == bit(value, (7 - j) as u8),
            pins.writes@ == w0 + byte_writes(value).take(3 * i),
        decreases 8 - i,
    {
        pins.set_data(bits[i])?;
        pins.set_clock(true)?;
        pins.set_clock(false)?;
        proof {
            let bw = byte_writes(value);
            let j = 3 * i as int;
            assert(j / 3 == i && j % 3 == 0);
            assert((j + 1) % 3 == 1 && (j + 2) % 3 == 2);
            assert(bw.take(j + 3) =~= bw.take(j).push(bw[j]).push(bw[j + 1]).push(bw[j + 2]));
        }
        i = i + 1;
    }
    assert(byte_writes(value).take(24) =~= byte_writes(value));
    Ok(())
}

/// The IO22D08 board driven through `pins`: it keeps the shadow registers,
/// shifts a frame out on every tick, and records every call made on it.
pub struct Io22d08Board<P> where P: BoardPins {
    pins: LoggedPins<P>,
    registers: Io22d08Registers,
    log: Ghost<Seq<BoardEvent>>,
    written_digits: Ghost<spec_fn(int) -> u8>,
    latched: Ghost<u8>,
    ticks: Ghost<nat>,
    inputs_read: Ghost<spec_fn(int) -> bool>,
    buttons_read: Ghost<spec_fn(int) -> bool>,
}

impl<P> Io22d08Board<P> where P: BoardPins {
    /// The shadow registers.
    pub closed spec fn spec_registers(&self) -> Io22d08Registers {
        self.registers
    }

    /// Every write made to the shift-register lines, in order.
    pub closed spec fn spec_pin_writes(&self) -> Seq<PinWrite> {
        self.pins.writes@
    }

    /// Set up the shift-register lines (data low, latch high, clock low),
    /// enable the register outputs, and start with every digit 0 and every
    /// relay off. A failed pin operation here is ignored.
    pub fn new(pins: P) -> (b: Self)
        ensures
            b.log() == Seq::<BoardEvent>::empty(),
            b.tick_count() == 0,
            forall|i: int| !#[trigger] b.relay_state(i) && !b.latched_relay(i),
            forall|p: int| #[trigger] b.digit_at(p) == 0,
            b.spec_registers().digits() == seq![0u8, 0u8, 0u8, 0u8],
            b.spec_registers().port() == 0,
            b.spec_pin_writes() == seq![
                PinWrite::Data(false),
                PinWrite::Latch(true),
                PinWrite::Clock(false),
                PinWrite::Enable,
            ],
    {
        let pin_writes: Ghost<Seq<PinWrite>> = Ghost(Seq::empty());
        let mut pins = LoggedPins { pins, writes: pin_writes };
        let _ = pins.set_data(false);
        let _ = pins.set_latch(true);
        let _ = pins.set_clock(false);
        let _ = pins.enable_outputs();
        let log: Ghost<Seq<BoardEvent>> = Ghost(Seq::empty());
        let written_digits: Ghost<spec_fn(int) -> u8> = Ghost(|p: int| 0u8);
        let latched: Ghost<u8> = Ghost(0u8);
        let ticks: Ghost<nat> = Ghost(0nat);
        let inputs_read: Ghost<spec_fn(int) -> bool> = Ghost(|i: int| false);
        let buttons_read: Ghost<spec_fn(int) -> bool> = Ghost(|i: int| false);
        assert(pins.writes@ =~= seq![
            PinWrite::Data(false),
            PinWrite::Latch(true),
            PinWrite::Clock(false),
            PinWrite::Enable,
        ]);
        let b = Self {
            pins,
            registers: Io22d08Registers::new(),
            log,
            written_digits,
            latched,
            ticks,
            inputs_read,
            buttons_read,
        };
        assert forall|i: int| !#[trigger] b.relay_state(i) && !b.latched_relay(i) by {
            if 0 <= i < RELAY_COUNT {
                let k = i as u8;
                assert(!bit(0u8, k)) by (bit_vector)
                    requires
                        k < 8,
                ;
            }
        }
        b
    }
}

impl<P> Io22d08Api for Io22d08Board<P> where P: BoardPins {
    closed spec fn log(&self) -> Seq<BoardEvent> {
        self.log@
    }

    closed spec fn relay_state(&self, relay: int) -> bool {
        0 <= relay < RELAY_COUNT && bit(self.registers.port(), relay as u8)
    }

    closed spec fn latched_relay(&self, relay: int) -> bool {
        0 <= relay < RELAY_COUNT && bit(self.latched@, relay as u8)
    }

    closed spec fn digit_at(&self, position: int) -> u8 {
        if 0 <= position < DIGIT_COUNT {
            (self.written_digits@)(position)
        } else {
            0
        }
    }

    closed spec fn tick_count(&self) -> nat {
        self.ticks@
    }

    closed spec fn last_input(&self, input: int) -> bool {
        (self.inputs_read@)(input)
    }

    closed spec fn last_button(&self, button: int) -> bool {
        (self.buttons_read@)(button)
    }

    fn set_number(&mut self, value: u16) {
        self.registers.set_number(value);
        proof {
            let digits = self.registers.digits();
            self.written_digits@ = |p: int| digits[p];
        }
    }

    fn show_digit(&mut self, position: usize, value: u8) -> (r: Result<(), BoardError>) {
        let r = self.registers.show_digit(position, value);
        proof {
            if r is Ok {
                let before = self.written_digits@;
                self.written_digits@ = |p: int| if p == position {
                    value
                } else {
                    before(p)
                };
            }
            self.log@ = self.log@.push(event(BoardCall::ShowDigit(position, value), outcome(r)));
        }
        r
    }

    fn relay_on(&mut self, relay: usize) -> (r: Result<(), BoardError>) {
        let r = self.registers.relay_on(relay);
        proof {
            self.log@ = self.log@.push(event(BoardCall::RelayOn(relay), outcome(r)));
            if r is Ok {
                assert forall|i: int|
                    #[trigger] self.relay_state(i) == (if i == relay {
                        true
                    } else {
                        old(self).relay_state(i)
                    }) by {
                    if 0 <= i < RELAY_COUNT {
                        assert(bit(self.registers.port(), i as u8) == (if i as u8 == relay {
                            true
                        } else {
                            bit(old(self).registers.port(), i as u8)
                        }));
                    }
                }
            }
        }
        r
    }

    fn relay_off(&mut self, relay: usize) -> (r: Result<(), BoardError>) {
        let r = self.registers.relay_off(relay);
        proof {
            self.log@ = self.log@.push(event(BoardCall::RelayOff(relay), outcome(r)));
            if r is Ok {
                assert forall|i: int|
                    #[trigger] self.relay_state(i) == (if i == relay {
                        false
                    } else {
                        old(self).relay_state(i)
                    }) by {
                    if 0 <= i < RELAY_COUNT {
                        assert(bit(self.registers.port(), i as u8) == (if i as u8 == relay {
                            false
                        } else {
                            bit(old(self).registers.port(), i as u8)
                        }));
                    }
                }
            }
        }
        r
    }

    fn relay_toggle(&mut self, relay: usize) -> (r: Result<(), BoardError>) {
        let r = self.registers.relay_toggle(relay);
        proof {
            self.log@ = self.log@.push(event(BoardCall::RelayToggle(relay), outcome(r)));
            if r is Ok {
                assert forall|i: int|
                    #[trigger] self.relay_state(i) == (if i == relay {
                        !old(self).relay_state(i)
                    } else {
                        old(self).relay_state(i)
                    }) by {
                    if 0 <= i < RELAY_COUNT {
                        assert(bit(self.registers.port(), i as u8) == (if i as u8 == relay {
                            !bit(old(self).registers.port(), i as u8)
                        } else {
                            bit(old(self).registers.port(), i as u8)
                        }));
                    }
                }
            }
        }
        r
    }

    fn read_button(&mut self, button: usize) -> (r: Result<bool, BoardError>) {
        let r = if button < BUTTON_COUNT {
            match self.pins.button_high(button) {
                Ok(high) => Ok(!high),
                Err(e) => Err(e),
            }
        } else {
            Err(BoardError::InvalidButtonIndex)
        };
        proof {
            if let Ok(pressed) = r {
                let before = self.buttons_read@;
                self.buttons_read@ = |b: int| if b == button {
                    pressed
                } else {
                    before(b)
                };
            }
            self.log@ = self.log@.push(event(BoardCall::ReadButton(button), outcome(r)));
        }
        r
    }

    fn read_input(&mut self, input: usize) -> (r: Result<bool, BoardError>) {
        let r = if input < INPUT_COUNT {
            match self.pins.input_high(input) {
                Ok(high) => Ok(!high),
                Err(e) => Err(e),
            }
        } else {
            Err(BoardError::InvalidInputIndex)
        };
        proof {
            if let Ok(active) = r {
                let before = self.inputs_read@;
                self.inputs_read@ = |i: int| if i == input {
                    active
                } else {
                    before(i)
                };
            }
            self.log@ = self.log@.push(event(BoardCall::ReadInput(input), outcome(r)));
        }
        r
    }

    /// Advance the multiplex and latch the frame of the next display
    /// position: on success the pins received exactly that frame's writes.
    fn tick(&mut self) -> (r: Result<(), BoardError>)
        ensures
            r is Ok ==> exists|f: Frame|
                {
                    let regs = old(self).spec_registers();
                    let p = (regs.position() + 1) % 4;
                    &&& frame_wiring(f, segment_code(regs.digits()[p]), !position_code(p), regs.port())
                    &&& #[trigger] frame_writes(f) == final(self).spec_pin_writes().skip(
                        old(self).spec_pin_writes().len() as int,
                    )
                    &&& final(self).spec_pin_writes().take(old(self).spec_pin_writes().len() as int)
                        == old(self).spec_pin_writes()
                },
    {
        let frame = self.registers.next_frame();
        let ghost w0 = self.pins.writes@;
        let r = self.shift_frame(frame);
        proof {
            if r is Ok {
                assert(frame_writes(frame) =~= self.pins.writes@.skip(w0.len() as int));
                assert(self.pins.writes@.take(w0.len() as int) =~= w0);
                self.latched@ = self.registers.port();
                self.ticks@ = self.ticks@ + 1;
            }
            self.log@ = self.log@.push(event(BoardCall::Tick, outcome(r)));
        }
        r
    }
}

impl<P> Io22d08Board<P> where P: BoardPins {
    /// Latch low, shift the frame's three bytes out, latch high.
    fn shift_frame(&mut self, frame: Frame) -> (r: Result<(), BoardError>)
        ensures
            final(self).registers == old(self).registers,
            final(self).log == old(self).log,
            final(self).written_digits == old(self).written_digits,
            final(self).latched == old(self).latched,
            final(self).ticks == old(self).ticks,
            final(self).inputs_read == old(self).inputs_read,
            final(self).buttons_read == old(self).buttons_read,
            r is Ok ==> final(self).spec_pin_writes() == old(self).spec_pin_writes() + frame_writes(
                frame,
            ),
    {
        let ghost w0 = self.pins.writes@;
        self.pins.set_latch(false)?;
        shift_out(&mut self.pins, frame.display_h)?;
        shift_out(&mut self.pins, frame.display_l)?;
        shift_out(&mut self.pins, frame.relay_dat)?;
        self.pins.set_latch(true)?;
        assert(self.pins.writes@ =~= w0 + frame_writes(frame));
        Ok(())
    }
}

} // verus!
