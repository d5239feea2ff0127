//! Capability traits shared by peripheral drivers, and the error they
//! report. Concrete drivers sit with the hardware access code and implement
//! these traits there; the traits give their callers one vocabulary for
//! initializing, reading, writing and shutting peripherals down.

use vstd::prelude::*;

verus! {

/// Basic error a peripheral operation can report.
#[derive(Clone, Copy, Debug, PartialEq, Eq, Structural)]
pub enum PeripheralError {
    InitializationFailed,
    ReadError,
    WriteError,
    UnsupportedOperation,
}

/// A peripheral that must be initialized before use.
pub trait Peripheral {
    fn initialize(&mut self) -> Result<(), PeripheralError>;
}

/// A peripheral that can be explicitly shut down or deactivated.
pub trait Shutdown {
    fn shutdown(&mut self) -> Result<(), PeripheralError>;
}

/// A peripheral that produces data.
pub trait Readable {
    type Output;

    fn read(&self) -> Result<Self::Output, PeripheralError>;
}

/// A peripheral that accepts data.
pub trait Writable {
    type Input;

    fn write(&mut self, data: Self::Input) -> Result<(), PeripheralError>;
}

} // verus!
