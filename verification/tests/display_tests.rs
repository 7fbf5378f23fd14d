use beacon_register::display::{
    command_transfer, data_transfer, startup_transfer, COMMAND_PREFIX, DATA_PREFIX,
    DISPLAY_ADDRESS, STARTUP_COMMANDS, STARTUP_STEPS, WRITE_PREAMBLE,
};

#[test]
fn the_display_constants() {
    assert_eq!(DISPLAY_ADDRESS, 0x3c);
    assert_eq!(COMMAND_PREFIX, 0);
    assert_eq!(DATA_PREFIX, 32);
    assert_eq!(STARTUP_STEPS, 28);
    assert_eq!(WRITE_PREAMBLE, [0, 0, 0, 0xb0, 0, 0, 0, 0x10]);
}

#[test]
fn the_startup_commands_in_order() {
    assert_eq!(
        STARTUP_COMMANDS.to_vec(),
        vec![
            0xAE, 0x20, 0x00, 0xB0, 0xC8, 0x00, 0x10, 0x40, 0x81, 0xFF, 0xA1, 0xA6, 0xA8, 0x3F,
            0xA4, 0xD3, 0x00, 0xD5, 0xF0, 0xD9, 0x22, 0xDA, 0x12, 0xDB, 0x20, 0x8D, 0x14, 0xAF
        ]
    );
}

#[test]
fn a_command_transfer_is_prefix_and_command() {
    assert_eq!(command_transfer(0xAE), [0, 0xAE]);
    assert_eq!(command_transfer(0x00), [0, 0x00]);
}

#[test]
fn a_data_transfer_is_prefix_and_byte() {
    assert_eq!(data_transfer(255), [32, 255]);
    assert_eq!(data_transfer(0), [32, 0]);
}

#[test]
fn the_startup_has_28_transfers() {
    assert_eq!(startup_transfer(0), Some([0, 0xAE]));
    assert_eq!(startup_transfer(1), Some([0, 0x20]));
    assert_eq!(startup_transfer(27), Some([0, 0xAF]));
    assert_eq!(startup_transfer(28), None);
    assert_eq!(startup_transfer(usize::MAX), None);
    for step in 0..STARTUP_STEPS {
        assert_eq!(startup_transfer(step), Some([0, STARTUP_COMMANDS[step]]));
    }
}
