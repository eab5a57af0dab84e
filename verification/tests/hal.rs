use tinylua::hal::{
    adc_channel, adc_result, admux_value, conversion_running, mode_register_value, pin_is_high, pin_regs,
    port_register_value, pwm_register, update_bit, PinMode, PinRegs, DDRB, DDRC, DDRD, PINB, PINC, PIND, PORTB,
    PORTC, PORTD,
};

#[test]
fn digital_pins_map_to_their_ports() {
    assert_eq!(pin_regs(0), PinRegs { ddr: DDRD, port: PORTD, pin: PIND, bit: 0 });
    assert_eq!(pin_regs(7), PinRegs { ddr: DDRD, port: PORTD, pin: PIND, bit: 7 });
    assert_eq!(pin_regs(8), PinRegs { ddr: DDRB, port: PORTB, pin: PINB, bit: 0 });
    assert_eq!(pin_regs(13), PinRegs { ddr: DDRB, port: PORTB, pin: PINB, bit: 5 });
    assert_eq!(pin_regs(14), PinRegs { ddr: DDRC, port: PORTC, pin: PINC, bit: 0 });
    assert_eq!(pin_regs(19), PinRegs { ddr: DDRC, port: PORTC, pin: PINC, bit: 5 });
}

#[test]
fn unknown_pins_fall_back_to_bit_zero_of_port_d() {
    for pin in [20u8, 100, 255] {
        assert_eq!(pin_regs(pin), PinRegs { ddr: 0x2A, port: 0x2B, pin: 0x29, bit: 0 });
    }
}

#[test]
fn register_addresses() {
    assert_eq!((DDRB, PORTB, PINB), (0x24, 0x25, 0x23));
    assert_eq!((DDRC, PORTC, PINC), (0x27, 0x28, 0x26));
    assert_eq!((DDRD, PORTD, PIND), (0x2A, 0x2B, 0x29));
}

#[test]
fn pin_mode_sets_or_clears_only_its_bit() {
    assert_eq!(mode_register_value(0b0000_0000, 5, PinMode::Output), 0b0010_0000);
    assert_eq!(mode_register_value(0b1111_1111, 5, PinMode::Input), 0b1101_1111);
    assert_eq!(mode_register_value(0b1010_0000, 5, PinMode::Output), 0b1010_0000);
    assert_eq!(mode_register_value(0b0000_0001, 0, PinMode::Input), 0);
}

#[test]
fn digital_write_sets_or_clears_only_its_bit() {
    assert_eq!(port_register_value(0b0100_0000, 7, true), 0b1100_0000);
    assert_eq!(port_register_value(0b1100_0000, 7, false), 0b0100_0000);
    for v in 0..=255u8 {
        for bit in 0..8u8 {
            let on = update_bit(v, bit, true);
            let off = update_bit(v, bit, false);
            assert_eq!(on, v | (1 << bit));
            assert_eq!(off, v & !(1 << bit));
        }
    }
}

#[test]
fn digital_read_tests_its_bit() {
    assert!(pin_is_high(0b0000_0100, 2));
    assert!(!pin_is_high(0b1111_1011, 2));
    assert!(pin_is_high(0b1000_0000, 7));
}

#[test]
fn analog_channels_and_admux() {
    assert_eq!(adc_channel(0), 0);
    assert_eq!(adc_channel(5), 5);
    assert_eq!(adc_channel(14), 0);
    assert_eq!(adc_channel(19), 5);
    assert_eq!(admux_value(3), 0x43);
    assert_eq!(admux_value(0xFF), 0x47);
}

#[test]
fn conversion_flag_is_bit_six() {
    assert!(conversion_running(0xC7));
    assert!(!conversion_running(0x87));
}

#[test]
fn adc_result_combines_the_two_bytes() {
    assert_eq!(adc_result(0x34, 0x02), 0x0234);
    assert_eq!(adc_result(0xFF, 0x03), 1023);
    assert_eq!(adc_result(0, 0), 0);
}

#[test]
fn pwm_pins_and_others() {
    assert_eq!(pwm_register(5), Some(0x48));
    assert_eq!(pwm_register(6), Some(0x47));
    assert_eq!(pwm_register(9), Some(0x88));
    assert_eq!(pwm_register(10), Some(0x86));
    assert_eq!(pwm_register(11), Some(0x84));
    assert_eq!(pwm_register(3), Some(0x83));
    assert_eq!(pwm_register(13), None);
    assert_eq!(pwm_register(0), None);
}
