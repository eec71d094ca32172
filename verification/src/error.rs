//! The error taxonomy of the rewriting core.  Every failure is fatal and
//! carries enough context to tell which structural assumption broke.

use vstd::prelude::*;
use vstd::string::*;

verus! {

pub enum Error {
    /// The device-descriptor blob is shorter than its fixed header.
    DescriptorTooSmall,
    /// The descriptor's string-table lookup for the device name failed.
    DeviceNameNotFound,
    /// The descriptor's flash size is not a power of two.
    FlashSizeNotPowerOfTwo,
    /// The device-info note record has the wrong note type.
    NoteWrongType,
    /// The device-info note record has the wrong note name.
    NoteWrongName,
    /// No device-info note record was present at all.
    NoteMissing,
    /// A section header names a section other than the supported one.
    UnsupportedSection(String),
    /// A symbol header appeared before any section header; carries the name.
    SymbolOutsideSection(String),
    /// An instruction line appeared before any section header; carries its text.
    InsnOutsideSection(String),
    /// An instruction line appeared before any symbol header; carries its text.
    InsnOutsidePart(String),
    /// An instruction address failed to parse as a 16-bit hexadecimal value.
    BadInsnAddress(String),
    /// A relative-offset operand's numeral does not fit a 32-bit signed value.
    BadRelOffset(String),
    /// A relative branch targets an address with no instruction; carries the operand.
    RelTargetNotFound(String),
    /// No device descriptor is present where one is needed.
    NoDevice,
    /// The flash mask does not fit the 16-bit word address space.
    FlashMaskTooWide,
    /// No code section is present where one is needed.
    NoTextSection,
    /// The data-copy routine is missing from the code section.
    CopyDataNotFound,
    /// The data-copy routine holds no recognizable load-address pair.
    NoDataLoadAddr,
    /// The interrupt vector table part is missing.
    VectorTableNotFound,
    /// The generic unhandled-interrupt handler part is missing.
    BadInterruptNotFound,
    /// The runtime entry-point part is missing.
    EntryNotFound,
    /// The C-runtime call site into `main` is missing.
    CEntryNotFound,
    /// The part literally named `main` is missing.
    CMainNotFound,
    /// A requested pipeline step name is not in the registry.
    UnknownStep(String),
    /// A pipeline step failed; carries the step name and its error.
    InStep(String, Box<Error>),
}

impl Error {
    /// A human-readable description of the failure.
    pub fn message(&self) -> String
        decreases self,
    {
        match self {
            Error::DescriptorTooSmall => String::from_str(
                "device-info descriptor is too small",
            ),
            Error::DeviceNameNotFound => String::from_str(
                "device-info descriptor: device name lookup failed",
            ),
            Error::FlashSizeNotPowerOfTwo => String::from_str(
                "device-info descriptor: flash size is not a power of two",
            ),
            Error::NoteWrongType => String::from_str("device-info note type is not 1"),
            Error::NoteWrongName => String::from_str("device-info note name is not 'AVR'"),
            Error::NoteMissing => String::from_str("device-info note not found"),
            Error::UnsupportedSection(n) => String::from_str(
                "the disassembled section is not '.text' but '",
            ).concat(n.as_str()).concat("'"),
            Error::SymbolOutsideSection(n) => String::from_str("got part '").concat(
                n.as_str(),
            ).concat("' but we are not in a section"),
            Error::InsnOutsideSection(t) => String::from_str("got instruction '").concat(
                t.as_str(),
            ).concat("' but we are not in a section"),
            Error::InsnOutsidePart(t) => String::from_str("got instruction '").concat(
                t.as_str(),
            ).concat("' but we are not in a function"),
            Error::BadInsnAddress(t) => String::from_str("failed to parse address of '").concat(
                t.as_str(),
            ).concat("'"),
            Error::BadRelOffset(t) => String::from_str("relative offset '").concat(
                t.as_str(),
            ).concat("' is not a 32-bit value"),
            Error::RelTargetNotFound(t) => String::from_str("relative offset '").concat(
                t.as_str(),
            ).concat("' target not found"),
            Error::NoDevice => String::from_str("no device info"),
            Error::FlashMaskTooWide => String::from_str(
                "flash mask does not fit 16 bits",
            ),
            Error::NoTextSection => String::from_str("no .text section"),
            Error::CopyDataNotFound => String::from_str(
                "function '__do_copy_data' not found in .text section",
            ),
            Error::NoDataLoadAddr => String::from_str(
                "__do_copy_data: flash load address not found",
            ),
            Error::VectorTableNotFound => String::from_str("interrupt vector table not found"),
            Error::BadInterruptNotFound => String::from_str("__bad_interrupt not found"),
            Error::EntryNotFound => String::from_str("runtime entry function not found"),
            Error::CEntryNotFound => String::from_str("C-rt entry function not found"),
            Error::CMainNotFound => String::from_str("C main function not found"),
            Error::UnknownStep(n) => String::from_str("unknown optimization step: ").concat(
                n.as_str(),
            ),
            Error::InStep(n, inner) => {
                let head = String::from_str("step '").concat(n.as_str()).concat("' failed: ");
                head.concat(inner.message().as_str())
            },
        }
    }
}

} // verus!
