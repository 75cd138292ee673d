//! The controller's protocol opcodes: a closed set of commands, each with a
//! fixed one-byte code. Pure data, internal to the driver.
use vstd::prelude::*;

verus! {

/// A protocol command of the controller.
#[derive(Clone, Copy, Debug)]
pub(crate) enum Command {
    SoftwareReset,
    SleepModeOn,
    SleepModeOff,
    InvertOff,
    InvertOn,
    DisplayOff,
    DisplayOn,
    ColumnAddressSet,
    PageAddressSet,
    MemoryWrite,
    PixelFormatSet,
    VerticalScrollDefine,
    MemoryAccessControl,
    VerticalScrollAddr,
    IdleModeOff,
    IdleModeOn,
    SetBrightness,
    ContentAdaptiveBrightness,
    RgbInterface,
    FrameControl,
    IdleModeFrameRate,
    DisplayFunctionControl,
    PowerControl1,
    PowerControl2,
    ExtendedCommandSet,
    GammaControlPos1,
    GammaControlNeg1,
    InterfaceControl,
}

impl Command {
    /// The command's fixed opcode byte.
    pub(crate) open spec fn spec_code(self) -> u8 {
        match self {
            Command::SoftwareReset => 0x01,
            Command::SleepModeOn => 0x10,
            Command::SleepModeOff => 0x11,
            Command::InvertOff => 0x20,
            Command::InvertOn => 0x21,
            Command::DisplayOff => 0x28,
            Command::DisplayOn => 0x29,
            Command::ColumnAddressSet => 0x2a,
            Command::PageAddressSet => 0x2b,
            Command::MemoryWrite => 0x2c,
            Command::PixelFormatSet => 0x3a,
            Command::VerticalScrollDefine => 0x33,
            Command::MemoryAccessControl => 0x36,
            Command::VerticalScrollAddr => 0x37,
            Command::IdleModeOff => 0x38,
            Command::IdleModeOn => 0x39,
            Command::SetBrightness => 0x51,
            Command::ContentAdaptiveBrightness => 0x55,
            Command::RgbInterface => 0xb0,
            Command::FrameControl => 0xb1,
            Command::IdleModeFrameRate => 0xb2,
            Command::DisplayFunctionControl => 0xb6,
            Command::PowerControl1 => 0xc0,
            Command::PowerControl2 => 0xc1,
            Command::ExtendedCommandSet => 0xc8,
            Command::GammaControlPos1 => 0xe0,
            Command::GammaControlNeg1 => 0xe1,
            Command::InterfaceControl => 0xf6,
        }
    }

    /// The command's fixed opcode byte.
    pub(crate) fn code(self) -> (r: u8)
        ensures
            r == self.spec_code(),
    {
        match self {
            Command::SoftwareReset => 0x01,
            Command::SleepModeOn => 0x10,
            Command::SleepModeOff => 0x11,
            Command::InvertOff => 0x20,
            Command::InvertOn => 0x21,
            Command::DisplayOff => 0x28,
            Command::DisplayOn => 0x29,
            Command::ColumnAddressSet => 0x2a,
            Command::PageAddressSet => 0x2b,
            Command::MemoryWrite => 0x2c,
            Command::PixelFormatSet => 0x3a,
            Command::VerticalScrollDefine => 0x33,
            Command::MemoryAccessControl => 0x36,
            Command::VerticalScrollAddr => 0x37,
            Command::IdleModeOff => 0x38,
            Command::IdleModeOn => 0x39,
            Command::SetBrightness => 0x51,
            Command::ContentAdaptiveBrightness => 0x55,
            Command::RgbInterface => 0xb0,
            Command::FrameControl => 0xb1,
            Command::IdleModeFrameRate => 0xb2,
            Command::DisplayFunctionControl => 0xb6,
            Command::PowerControl1 => 0xc0,
            Command::PowerControl2 => 0xc1,
            Command::ExtendedCommandSet => 0xc8,
            Command::GammaControlPos1 => 0xe0,
            Command::GammaControlNeg1 => 0xe1,
            Command::InterfaceControl => 0xf6,
        }
    }
}

} // verus!
