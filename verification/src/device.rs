//! The device descriptor: immutable memory-layout facts decoded from the
//! fixed-format binary blob found in the firmware's device-info note record.

use vstd::prelude::*;
use vstd::bytes::{spec_u32_from_le_bytes, u32_from_le_bytes};
use vstd::slice::slice_subrange;
use vstd::string::*;
use crate::error::Error;
use crate::text::str_eq;

verus! {

/// Memory-layout facts of the target device.  `flash_size` is used as an
/// address mask via `flash_size - 1`, so a well-formed descriptor has a
/// power-of-two flash size.
pub struct AvrDeviceInfoDesc {
    pub flash_start: u32,
    pub flash_size: u32,
    pub sram_start: u32,
    pub sram_size: u32,
    pub eeprom_start: u32,
    pub eeprom_size: u32,
    pub device_name: String,
}

pub open spec fn is_pow2_u32(x: u32) -> bool {
    x != 0 && x & ((x - 1) as u32) == 0
}

impl AvrDeviceInfoDesc {
    /// The descriptor invariant: the flash size can serve as an address mask.
    pub open spec fn wf(&self) -> bool {
        is_pow2_u32(self.flash_size)
    }
}

/// The string the descriptor's trailing string table holds at `offset`:
/// the NUL-terminated UTF-8 entry starting there, or nothing when the
/// offset is out of range, unterminated, or not valid UTF-8.
pub uninterp spec fn strtab_string_at(data: Seq<u8>, offset: int) -> Option<Seq<char>>;

/// Relies on elf::string_table::StringTable::get: reads the NUL-terminated
/// UTF-8 string that starts at `offset`; any offset at or past the end of
/// the table is rejected.
#[verifier::external_body]
fn strtab_get(data: &[u8], offset: usize) -> (r: Option<String>)
    ensures
        r is Some <==> strtab_string_at(data@, offset as int) is Some,
        r is Some ==> r->0@ == strtab_string_at(data@, offset as int)->0,
        offset >= data@.len() ==> r is None,
{
    match elf::string_table::StringTable::new(data).get(offset) {
        Ok(s) => Some(s.to_string()),
        Err(_) => None,
    }
}

/// The six little-endian 32-bit layout fields, in blob order.
pub open spec fn spec_desc_field(data: Seq<u8>, idx: int) -> u32 {
    spec_u32_from_le_bytes(data.subrange(idx * 4, idx * 4 + 4))
}

/// Whether a descriptor blob decodes successfully.
pub open spec fn spec_desc_ok(data: Seq<u8>) -> bool {
    &&& data.len() >= 32
    &&& is_pow2_u32(spec_desc_field(data, 1))
    &&& strtab_string_at(
        data.subrange(32, data.len() as int),
        spec_desc_field(data, 7) as int,
    ) is Some
}

impl AvrDeviceInfoDesc {
    /// Decodes the fixed-format descriptor blob: six layout fields, an
    /// ignored table-size field, one string-table offset, then the string
    /// table holding the device name.
    pub fn from_bytes(data: &[u8]) -> (r: Result<Self, Error>)
        ensures
            r is Ok <==> spec_desc_ok(data@),
            r matches Ok(d) ==> {
                &&& d.flash_start == spec_desc_field(data@, 0)
                &&& d.flash_size == spec_desc_field(data@, 1)
                &&& d.sram_start == spec_desc_field(data@, 2)
                &&& d.sram_size == spec_desc_field(data@, 3)
                &&& d.eeprom_start == spec_desc_field(data@, 4)
                &&& d.eeprom_size == spec_desc_field(data@, 5)
                &&& Some(d.device_name@) == strtab_string_at(
                    data@.subrange(32, data@.len() as int),
                    spec_desc_field(data@, 7) as int,
                )
                &&& d.wf()
            },
            r matches Err(e) ==> {
                ||| (e is DescriptorTooSmall && data@.len() < 32)
                ||| (e is FlashSizeNotPowerOfTwo && data@.len() >= 32 && !is_pow2_u32(
                    spec_desc_field(data@, 1),
                ))
                ||| (e is DeviceNameNotFound && data@.len() >= 32 && is_pow2_u32(
                    spec_desc_field(data@, 1),
                ) && strtab_string_at(
                    data@.subrange(32, data@.len() as int),
                    spec_desc_field(data@, 7) as int,
                ) is None)
            },
    {
        if data.len() < 32 {
            return Err(Error::DescriptorTooSmall);
        }
        let flash_start = u32_from_le_bytes(slice_subrange(data, 0, 4));
        let flash_size = u32_from_le_bytes(slice_subrange(data, 4, 8));
        let sram_start = u32_from_le_bytes(slice_subrange(data, 8, 12));
        let sram_size = u32_from_le_bytes(slice_subrange(data, 12, 16));
        let eeprom_start = u32_from_le_bytes(slice_subrange(data, 16, 20));
        let eeprom_size = u32_from_le_bytes(slice_subrange(data, 20, 24));
        // The table-size field at bytes 24..28 is unreliable in practice and
        // is deliberately ignored: the table is assumed to hold one entry.
        let offset_0 = u32_from_le_bytes(slice_subrange(data, 28, 32));
        if !(flash_size != 0 && flash_size & (flash_size - 1) == 0) {
            return Err(Error::FlashSizeNotPowerOfTwo);
        }
        let table = slice_subrange(data, 32, data.len());
        let name = strtab_get(table, offset_0 as usize);
        match name {
            Some(device_name) => Ok(AvrDeviceInfoDesc {
                flash_start,
                flash_size,
                sram_start,
                sram_size,
                eeprom_start,
                eeprom_size,
                device_name,
            }),
            None => Err(Error::DeviceNameNotFound),
        }
    }
}

/// Decodes the descriptor out of a device-info note record, after checking
/// the record is of the expected note type and note name.
pub fn deviceinfo_from_note(n_type: u64, name: &str, desc: &[u8]) -> (r: Result<
    AvrDeviceInfoDesc,
    Error,
>)
    ensures
        n_type != 1 ==> (r matches Err(e) && e is NoteWrongType),
        n_type == 1 && name@ != "AVR"@ ==> (r matches Err(e) && e is NoteWrongName),
        n_type == 1 && name@ == "AVR"@ ==> (r is Ok <==> spec_desc_ok(desc@)),
        r matches Ok(d) ==> {
            &&& d.flash_start == spec_desc_field(desc@, 0)
            &&& d.flash_size == spec_desc_field(desc@, 1)
            &&& d.sram_start == spec_desc_field(desc@, 2)
            &&& d.sram_size == spec_desc_field(desc@, 3)
            &&& d.eeprom_start == spec_desc_field(desc@, 4)
            &&& d.eeprom_size == spec_desc_field(desc@, 5)
            &&& Some(d.device_name@) == strtab_string_at(
                desc@.subrange(32, desc@.len() as int),
                spec_desc_field(desc@, 7) as int,
            )
            &&& d.wf()
        },
{
    if n_type != 1 {
        return Err(Error::NoteWrongType);
    }
    if !str_eq(name, "AVR") {
        return Err(Error::NoteWrongName);
    }
    AvrDeviceInfoDesc::from_bytes(desc)
}

} // verus!
