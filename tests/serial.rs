use serial_brain::serial::{serial_settings, DataBitsSetting, ParitySetting, StopBitsSetting};

#[test]
fn serial_settings_known_values() {
    let s = serial_settings(2, "even", 7);
    assert_eq!(s.stop_bits, StopBitsSetting::Two);
    assert_eq!(s.parity, ParitySetting::Even);
    assert_eq!(s.data_bits, DataBitsSetting::Seven);
    let s = serial_settings(1, "odd", 5);
    assert_eq!(s.stop_bits, StopBitsSetting::One);
    assert_eq!(s.parity, ParitySetting::Odd);
    assert_eq!(s.data_bits, DataBitsSetting::Five);
}

#[test]
fn serial_settings_fall_back_to_defaults() {
    let s = serial_settings(3, "mark", 9);
    assert_eq!(s.stop_bits, StopBitsSetting::One);
    assert_eq!(s.parity, ParitySetting::NoParity);
    assert_eq!(s.data_bits, DataBitsSetting::Eight);
    assert_eq!(serial_settings(1, "none", 6).data_bits, DataBitsSetting::Six);
    assert_eq!(serial_settings(1, "ODD", 8).parity, ParitySetting::NoParity);
}
