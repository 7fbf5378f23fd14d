//! The byte transfers that bring the bitmap display up and write to it.
//! The display is optional: the register works the same with or without it.

use vstd::prelude::*;

verus! {

/// The bus address at which the display answers.
pub const DISPLAY_ADDRESS: u8 = 0x3c;

/// The byte that goes before a command.
pub const COMMAND_PREFIX: u8 = 0;

/// The byte that goes before a byte of bitmap data.
pub const DATA_PREFIX: u8 = 32;

/// The number of commands that bring the display up.
pub const STARTUP_STEPS: usize = 28;

/// The commands that bring the display up, in the order in which they are
/// sent, each of them once.
pub const STARTUP_COMMANDS: [u8; 28] = [
    0xAE, 0x20, 0x00, 0xB0, 0xC8, 0x00, 0x10, 0x40, 0x81, 0xFF, 0xA1, 0xA6, 0xA8, 0x3F, 0xA4,
    0xD3, 0x00, 0xD5, 0xF0, 0xD9, 0x22, 0xDA, 0x12, 0xDB, 0x20, 0x8D, 0x14, 0xAF,
];

/// The transfer that goes before the bitmap data: it sets the page and the
/// column at which the data begins.
pub const WRITE_PREAMBLE: [u8; 8] = [0, 0, 0, 0xb0, 0, 0, 0, 0x10];

/// The transfer that carries one command.
pub open spec fn command_bytes(command: u8) -> Seq<u8> {
    seq![COMMAND_PREFIX, command]
}

/// The transfer that carries one byte of bitmap data.
pub open spec fn data_bytes(byte: u8) -> Seq<u8> {
    seq![DATA_PREFIX, byte]
}

/// The transfer of step `step` of the startup, where there is such a step.
pub open spec fn startup_bytes(step: int) -> Option<Seq<u8>> {
    if 0 <= step < STARTUP_STEPS {
        Some(command_bytes(STARTUP_COMMANDS@[step]))
    } else {
        None
    }
}

/// The transfer that carries `command`.
pub fn command_transfer(command: u8) -> (bytes: [u8; 2])
    ensures
        bytes@ == command_bytes(command),
{
    let bytes: [u8; 2] = [COMMAND_PREFIX, command];
    assert(bytes@ =~= command_bytes(command));
    bytes
}

/// The transfer that carries the bitmap byte `byte`.
pub fn data_transfer(byte: u8) -> (bytes: [u8; 2])
    ensures
        bytes@ == data_bytes(byte),
{
    let bytes: [u8; 2] = [DATA_PREFIX, byte];
    assert(bytes@ =~= data_bytes(byte));
    bytes
}

/// The transfer of step `step` of the startup, and nothing once the
/// startup is through.
pub fn startup_transfer(step: usize) -> (bytes: Option<[u8; 2]>)
    ensures
        bytes is Some <==> step < STARTUP_STEPS,
        match bytes {
            Some(b) => startup_bytes(step as int) == Some(b@),
            None => startup_bytes(step as int) is None,
        },
{
    if step < STARTUP_STEPS {
        Some(command_transfer(STARTUP_COMMANDS[step]))
    } else {
        None
    }
}

} // verus!
