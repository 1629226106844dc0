//! The bytes that drive a 16x2 character display through an I2C backpack
//! in 4-bit mode. Writing them to the bus, and the pauses between them,
//! are the caller's.
use vstd::prelude::*;
use crate::text::chars_of;

verus! {

/// A byte is an instruction.
pub const LCD_CMD: u8 = 0;
/// A byte is a character to show.
pub const LCD_CHR: u8 = 1;
/// Instruction that moves to the start of the first line.
pub const LCD_LINE_1: u8 = 0x80;
/// Instruction that moves to the start of the second line.
pub const LCD_LINE_2: u8 = 0xC0;
/// The backlight bit, always set.
pub const LCD_BACKLIGHT: u8 = 0x08;
/// The enable bit that latches a nibble.
pub const ENABLE: u8 = 0b00000100;
/// Instruction that clears the display.
pub const LCD_CLEAR: u8 = 0x01;

/// The bus byte that carries the high nibble of `bits`.
pub open spec fn high_nibble(bits: u8, mode: u8) -> u8 {
    mode | (bits & 0xF0) | LCD_BACKLIGHT
}

/// The bus byte that carries the low nibble of `bits`.
pub open spec fn low_nibble(bits: u8, mode: u8) -> u8 {
    mode | ((bits << 4u8) & 0xF0) | LCD_BACKLIGHT
}

/// The two bus bytes of one display byte: high nibble first.
pub fn nibbles(bits: u8, mode: u8) -> (r: (u8, u8))
    ensures
        r.0 == high_nibble(bits, mode),
        r.1 == low_nibble(bits, mode),
        r.0 & LCD_BACKLIGHT == LCD_BACKLIGHT,
        r.1 & LCD_BACKLIGHT == LCD_BACKLIGHT,
        mode <= 1 ==> r.0 & 0xF0 == bits & 0xF0 && r.1 & 0xF0 == (bits & 0x0F) << 4u8 && r.0 & 0x0F == mode
            | LCD_BACKLIGHT && r.1 & 0x0F == mode | LCD_BACKLIGHT,
{
    let high = mode | (bits & 0xF0) | LCD_BACKLIGHT;
    let low = mode | ((bits << 4u8) & 0xF0) | LCD_BACKLIGHT;
    assert(high & 0x08 == 0x08 && low & 0x08 == 0x08 && (mode <= 1 ==> high & 0xF0 == bits & 0xF0 && low & 0xF0
        == (bits & 0x0F) << 4u8 && high & 0x0F == mode | 0x08 && low & 0x0F == mode | 0x08)) by (bit_vector)
        requires
            high == mode | (bits & 0xF0) | 0x08u8,
            low == mode | ((bits << 4u8) & 0xF0) | 0x08u8,
    ;
    (high, low)
}

/// The display puts the two nibbles back together: the high halves of the
/// two bus bytes are the byte, and their low halves carry the mode.
pub proof fn lemma_nibbles_rebuild_byte(bits: u8, mode: u8)
    requires
        mode <= 1,
    ensures
        (high_nibble(bits, mode) & 0xF0) | ((low_nibble(bits, mode) & 0xF0) >> 4u8) == bits,
        high_nibble(bits, mode) & 0x01 == mode,
        low_nibble(bits, mode) & 0x01 == mode,
{
    assert((((mode | (bits & 0xF0) | 0x08u8) & 0xF0) | (((mode | ((bits << 4u8) & 0xF0) | 0x08u8) & 0xF0) >> 4u8)) == bits
        && (mode | (bits & 0xF0) | 0x08u8) & 0x01 == mode && (mode | ((bits << 4u8) & 0xF0) | 0x08u8) & 0x01 == mode)
        by (bit_vector)
        requires
            mode <= 1,
    ;
}

/// The enable pulse around a bus byte: first with the enable bit set, then
/// with it cleared; the other bits are kept.
pub fn pulse(data: u8) -> (r: (u8, u8))
    ensures
        r.0 == data | ENABLE,
        r.1 == data & !ENABLE,
        r.0 & !ENABLE == data & !ENABLE,
        r.0 & ENABLE == ENABLE,
        r.1 & ENABLE == 0,
{
    let on = data | ENABLE;
    let off = data & !ENABLE;
    assert(on & !0x04u8 == data & !0x04u8 && on & 0x04 == 0x04 && off & 0x04 == 0) by (bit_vector)
        requires
            on == data | 0x04u8,
            off == data & !0x04u8,
    ;
    (on, off)
}

/// The instructions that set the display up: initialise, 4-bit mode,
/// cursor direction, cursor off, two lines, clear.
pub open spec fn init_sequence() -> Seq<u8> {
    seq![0x33u8, 0x32u8, 0x06u8, 0x0Cu8, 0x28u8, 0x01u8]
}

pub fn init_commands() -> (r: Vec<u8>)
    ensures
        r@ == init_sequence(),
{
    let r: Vec<u8> = vec![0x33, 0x32, 0x06, 0x0C, 0x28, 0x01];
    assert(r@ =~= init_sequence());
    r
}

/// A character as the display's byte: its code point truncated to 8 bits.
pub open spec fn char_byte(c: char) -> u8 {
    ((c as u32) % 256) as u8
}

/// The display bytes that show `text` from the start of `line`: the
/// line's instruction, then each character's byte.
pub open spec fn display_sequence(text: Seq<char>, line: u8) -> Seq<(u8, u8)> {
    seq![(line, LCD_CMD)] + text.map_values(|c: char| (char_byte(c), LCD_CHR))
}

fn char_to_byte(c: char) -> (r: u8)
    ensures
        r == char_byte(c),
{
    let v: u32 = c as u32;
    (v % 256) as u8
}

/// The (byte, mode) pairs that show `text` from the start of `line`.
pub fn display_bytes(text: &str, line: u8) -> (r: Vec<(u8, u8)>)
    ensures
        r@ == display_sequence(text@, line),
{
    let v = chars_of(text);
    let mut out: Vec<(u8, u8)> = Vec::new();
    out.push((line, LCD_CMD));
    let mut i: usize = 0;
    while i < v.len()
        invariant
            i <= v@.len(),
            v@ == text@,
            out@ == seq![(line, LCD_CMD)] + v@.take(i as int).map_values(|c: char| (char_byte(c), LCD_CHR)),
        decreases v@.len() - i,
    {
        out.push((char_to_byte(v[i]), LCD_CHR));
        proof {
            assert(v@.take(i + 1) == v@.take(i as int).push(v@[i as int]));
            assert(v@.take(i + 1).map_values(|c: char| (char_byte(c), LCD_CHR)) == v@.take(i as int).map_values(
                |c: char| (char_byte(c), LCD_CHR),
            ).push((char_byte(v@[i as int]), LCD_CHR)));
        }
        i = i + 1;
    }
    assert(v@.take(v@.len() as int) == v@);
    out
}

} // verus!
