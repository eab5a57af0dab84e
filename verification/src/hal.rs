//! Board support for the ATmega328P (Arduino Uno): which I/O registers serve a pin and
//! the value each register is to take. Reading and writing the memory-mapped registers
//! is left to the caller.
use vstd::prelude::*;

verus! {

/// Direction of a digital pin.
#[derive(Debug, Clone, Copy, PartialEq, Eq, Structural)]
pub enum PinMode {
    Output,
    Input,
}

// ── register addresses ──────────────────────────────────────────────────────

pub const PORTB: usize = 0x25;
pub const DDRB: usize = 0x24;
pub const PINB: usize = 0x23;

pub const PORTC: usize = 0x28;
pub const DDRC: usize = 0x27;
pub const PINC: usize = 0x26;

pub const PORTD: usize = 0x2B;
pub const DDRD: usize = 0x2A;
pub const PIND: usize = 0x29;

/// ADC multiplexer selection.
pub const ADMUX: usize = 0x7C;
/// ADC control and status A.
pub const ADCSRA: usize = 0x7A;
/// ADC result, low byte.
pub const ADCL: usize = 0x78;
/// ADC result, high byte.
pub const ADCH: usize = 0x79;

/// ADCSRA value that enables the converter and starts a conversion, prescaler 128.
pub const ADC_START: u8 = 0xC7;

// ── pins ────────────────────────────────────────────────────────────────────

/// The registers that serve a digital pin and the pin's bit in them.
#[derive(Debug, Clone, Copy, PartialEq, Eq, Structural)]
pub struct PinRegs {
    /// Data direction register.
    pub ddr: usize,
    /// Output register.
    pub port: usize,
    /// Input register.
    pub pin: usize,
    pub bit: u8,
}

/// Arduino pins 0–7 are port D, 8–13 port B, 14–19 (A0–A5) port C; any other pin
/// falls back to bit 0 of port D.
pub open spec fn pin_regs_spec(pin: u8) -> PinRegs {
    if pin <= 7 {
        PinRegs { ddr: DDRD, port: PORTD, pin: PIND, bit: pin }
    } else if pin <= 13 {
        PinRegs { ddr: DDRB, port: PORTB, pin: PINB, bit: (pin - 8) as u8 }
    } else if pin <= 19 {
        PinRegs { ddr: DDRC, port: PORTC, pin: PINC, bit: (pin - 14) as u8 }
    } else {
        PinRegs { ddr: DDRD, port: PORTD, pin: PIND, bit: 0 }
    }
}

/// The registers of an Arduino pin.
pub fn pin_regs(pin: u8) -> (r: PinRegs)
    ensures
        r == pin_regs_spec(pin),
        r.bit < 8,
{
    if pin <= 7 {
        PinRegs { ddr: DDRD, port: PORTD, pin: PIND, bit: pin }
    } else if pin <= 13 {
        PinRegs { ddr: DDRB, port: PORTB, pin: PINB, bit: pin - 8 }
    } else if pin <= 19 {
        PinRegs { ddr: DDRC, port: PORTC, pin: PINC, bit: pin - 14 }
    } else {
        PinRegs { ddr: DDRD, port: PORTD, pin: PIND, bit: 0 }
    }
}

/// Bit `bit` of `value`.
pub open spec fn bit_of(value: u8, bit: u8) -> bool {
    (value >> bit) & 1u8 == 1u8
}

/// `value` with bit `bit` set to `on`.
pub open spec fn with_bit(value: u8, bit: u8, on: bool) -> u8 {
    if on { value | (1u8 << bit) } else { value & !(1u8 << bit) }
}

/// `value` with bit `bit` set to `on`; every other bit kept.
pub fn update_bit(value: u8, bit: u8, on: bool) -> (r: u8)
    requires
        bit < 8,
    ensures
        r == with_bit(value, bit, on),
        bit_of(r, bit) == on,
        forall|j: u8| j < 8 && j != bit ==> bit_of(r, j) == bit_of(value, j),
{
    let r = if on { value | (1u8 << bit) } else { value & !(1u8 << bit) };
    proof {
        if on {
            assert(bit_of(value | (1u8 << bit), bit)) by (bit_vector)
                requires
                    bit < 8,
            ;
            assert(forall|j: u8| j < 8 && j != bit ==> bit_of(value | (1u8 << bit), j) == bit_of(value, j))
                by (bit_vector)
                requires
                    bit < 8,
            ;
        } else {
            assert(!bit_of(value & !(1u8 << bit), bit)) by (bit_vector)
                requires
                    bit < 8,
            ;
            assert(forall|j: u8| j < 8 && j != bit ==> bit_of(value & !(1u8 << bit), j) == bit_of(value, j))
                by (bit_vector)
                requires
                    bit < 8,
            ;
        }
    }
    r
}

/// The data direction register after `pin_mode`: the pin's bit set for output,
/// cleared for input.
pub fn mode_register_value(ddr: u8, bit: u8, mode: PinMode) -> (r: u8)
    requires
        bit < 8,
    ensures
        r == with_bit(ddr, bit, mode == PinMode::Output),
        bit_of(r, bit) == (mode == PinMode::Output),
        forall|j: u8| j < 8 && j != bit ==> bit_of(r, j) == bit_of(ddr, j),
{
    update_bit(ddr, bit, mode == PinMode::Output)
}

/// The output register after `digital_write`: the pin's bit set to `val`.
pub fn port_register_value(port: u8, bit: u8, val: bool) -> (r: u8)
    requires
        bit < 8,
    ensures
        r == with_bit(port, bit, val),
        bit_of(r, bit) == val,
        forall|j: u8| j < 8 && j != bit ==> bit_of(r, j) == bit_of(port, j),
{
    update_bit(port, bit, val)
}

/// What `digital_read` answers for an input register: whether the pin's bit is set.
pub fn pin_is_high(pin_reg: u8, bit: u8) -> (r: bool)
    requires
        bit < 8,
    ensures
        r == bit_of(pin_reg, bit),
{
    let r = (pin_reg & (1u8 << bit)) != 0;
    assert(((pin_reg & (1u8 << bit)) != 0) == bit_of(pin_reg, bit)) by (bit_vector)
        requires
            bit < 8,
    ;
    r
}

// ── analog input ────────────────────────────────────────────────────────────

/// The ADC channel of an analog pin: A0–A5 may be given as 14–19 or as 0–5.
pub open spec fn adc_channel_spec(pin: u8) -> u8 {
    if pin >= 14 { (pin - 14) as u8 } else { pin }
}

pub fn adc_channel(pin: u8) -> (r: u8)
    ensures
        r == adc_channel_spec(pin),
{
    if pin >= 14 { pin - 14 } else { pin }
}

/// ADMUX for a conversion on `channel` (its low three bits) against AVcc.
pub fn admux_value(channel: u8) -> (r: u8)
    ensures
        r == 0x40u8 | (channel & 0x07u8),
        r & 0x07u8 == channel % 8,
        r & 0xF8u8 == 0x40u8,
{
    let r = 0x40u8 | (channel & 0x07u8);
    assert(r & 0x07u8 == channel % 8 && r & 0xF8u8 == 0x40u8) by (bit_vector)
        requires
            r == 0x40u8 | (channel & 0x07u8),
    ;
    r
}

/// Whether a conversion is still running: the ADSC bit (6) of ADCSRA.
pub fn conversion_running(adcsra: u8) -> (r: bool)
    ensures
        r == bit_of(adcsra, 6),
{
    let r = (adcsra & (1u8 << 6u8)) != 0;
    assert(((adcsra & (1u8 << 6u8)) != 0) == bit_of(adcsra, 6)) by (bit_vector);
    r
}

/// The 10-bit conversion result from its two bytes.
pub fn adc_result(low: u8, high: u8) -> (r: u16)
    ensures
        r == high as int * 256 + low as int,
{
    let h = high as u16;
    let l = low as u16;
    let r = (h << 8u16) | l;
    assert(r == h * 256 + l) by (bit_vector)
        requires
            h < 256,
            l < 256,
            r == (h << 8u16) | l,
    ;
    r
}

// ── PWM output ──────────────────────────────────────────────────────────────

/// The compare register that sets the duty cycle of a PWM pin, if the pin has one:
/// 5 → OCR0B, 6 → OCR0A, 9 → OCR1AL, 10 → OCR1BL, 11 → OCR2A, 3 → OCR2B.
pub open spec fn pwm_register_spec(pin: u8) -> Option<usize> {
    if pin == 5 {
        Some(0x48)
    } else if pin == 6 {
        Some(0x47)
    } else if pin == 9 {
        Some(0x88)
    } else if pin == 10 {
        Some(0x86)
    } else if pin == 11 {
        Some(0x84)
    } else if pin == 3 {
        Some(0x83)
    } else {
        None
    }
}

/// The compare register of a PWM pin; `None` for a pin without PWM, which
/// `analog_write` leaves alone.
pub fn pwm_register(pin: u8) -> (r: Option<usize>)
    ensures
        r == pwm_register_spec(pin),
{
    match pin {
        5 => Some(0x48),
        6 => Some(0x47),
        9 => Some(0x88),
        10 => Some(0x86),
        11 => Some(0x84),
        3 => Some(0x83),
        _ => None,
    }
}

} // verus!
