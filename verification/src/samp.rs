//! Version resolver and per-build offset table for the host's network
//! client library.
//!
//! A build is fingerprinted by the entry-point field of its executable
//! header: it is cheap to read, stable, and differs across builds even
//! where other offsets coincide. Resolution matches by exact equality and
//! never guesses; an unknown entry point fails closed.

use vstd::prelude::*;

verus! {

/// The known builds of the network client.
#[derive(Debug, Clone, Copy, PartialEq, Eq, Structural)]
pub enum Version {
    V037R1,
    V037R2,
    V037R3,
    V037R3_1,
    V037R4,
    V037R4_2,
    V037R5,
    V03DLR1,
}

/// The (entry point -> build) table of the version resolver.
pub open spec fn spec_version_of_entry_point(entry_point: u32) -> Option<Version> {
    if entry_point == 0x31DF13 {
        Some(Version::V037R1)
    } else if entry_point == 0x3195DD {
        Some(Version::V037R2)
    } else if entry_point == 0xCC490 {
        Some(Version::V037R3)
    } else if entry_point == 0xCC4D0 {
        Some(Version::V037R3_1)
    } else if entry_point == 0xCBCD0 {
        Some(Version::V037R4)
    } else if entry_point == 0xCBCB0 {
        Some(Version::V037R4_2)
    } else if entry_point == 0xCBC90 {
        Some(Version::V037R5)
    } else if entry_point == 0xFDB60 {
        Some(Version::V03DLR1)
    } else {
        None
    }
}

/// Resolve the running build from the library's entry point, or `None`
/// when the entry point matches no known build.
pub fn get_version(entry_point: u32) -> (r: Option<Version>)
    ensures
        r == spec_version_of_entry_point(entry_point),
{
    match entry_point {
        0x31DF13 => Some(Version::V037R1),
        0x3195DD => Some(Version::V037R2),
        0xCC490 => Some(Version::V037R3),
        0xCC4D0 => Some(Version::V037R3_1),
        0xCBCD0 => Some(Version::V037R4),
        0xCBCB0 => Some(Version::V037R4_2),
        0xCBC90 => Some(Version::V037R5),
        0xFDB60 => Some(Version::V03DLR1),
        _ => None,
    }
}

/// Base-relative address of the chat input object pointer, per build.
pub fn get_input_offset(version: Version) -> (r: u32)
    ensures
        r == spec_input_offset(version),
{
    match version {
        Version::V037R1 => 0x21A0E8,
        Version::V037R2 => 0x21A0F0,
        Version::V037R3 | Version::V037R3_1 => 0x26E8CC,
        Version::V037R4 | Version::V037R4_2 => 0x26E9FC,
        Version::V037R5 => 0x26EB84,
        Version::V03DLR1 => 0x2ACA14,
    }
}

pub open spec fn spec_input_offset(version: Version) -> u32 {
    match version {
        Version::V037R1 => 0x21A0E8,
        Version::V037R2 => 0x21A0F0,
        Version::V037R3 | Version::V037R3_1 => 0x26E8CC,
        Version::V037R4 | Version::V037R4_2 => 0x26E9FC,
        Version::V037R5 => 0x26EB84,
        Version::V03DLR1 => 0x2ACA14,
    }
}

/// Base-relative address of the edit box's text getter, per build.
pub fn get_offset_of_dxut_edit_box_get_text(version: Version) -> (r: u32)
    ensures
        r == spec_offset_of_dxut_edit_box_get_text(version),
{
    match version {
        Version::V037R1 => 0x81030,
        Version::V037R2 => 0x810D0,
        Version::V037R3 | Version::V037R3_1 => 0x84F40,
        Version::V037R4 => 0x85680,
        Version::V037R4_2 => 0x856B0,
        Version::V037R5 => 0x85650,
        Version::V03DLR1 => 0x850D0,
    }
}

pub open spec fn spec_offset_of_dxut_edit_box_get_text(version: Version) -> u32 {
    match version {
        Version::V037R1 => 0x81030,
        Version::V037R2 => 0x810D0,
        Version::V037R3 | Version::V037R3_1 => 0x84F40,
        Version::V037R4 => 0x85680,
        Version::V037R4_2 => 0x856B0,
        Version::V037R5 => 0x85650,
        Version::V03DLR1 => 0x850D0,
    }
}

/// Base-relative address of the edit box's text setter, per build.
pub fn get_offset_of_dxut_edit_box_set_text(version: Version) -> (r: u32)
    ensures
        r == spec_offset_of_dxut_edit_box_set_text(version),
{
    match version {
        Version::V037R1 => 0x80F60,
        Version::V037R2 => 0x81000,
        Version::V037R3 | Version::V037R3_1 => 0x84E70,
        Version::V037R4 => 0x855B0,
        Version::V037R4_2 => 0x855E0,
        Version::V037R5 => 0x85580,
        Version::V03DLR1 => 0x85000,
    }
}

pub open spec fn spec_offset_of_dxut_edit_box_set_text(version: Version) -> u32 {
    match version {
        Version::V037R1 => 0x80F60,
        Version::V037R2 => 0x81000,
        Version::V037R3 | Version::V037R3_1 => 0x84E70,
        Version::V037R4 => 0x855B0,
        Version::V037R4_2 => 0x855E0,
        Version::V037R5 => 0x85580,
        Version::V03DLR1 => 0x85000,
    }
}

/// Capacity of the host's native command table.
pub const MAX_CLIENT_CMDS: usize = 144;

/// Size of one fixed command-name buffer, without its terminating null.
pub const MAX_CMD_LENGTH: usize = 32;

/// Capacity of the chat input line.
pub const MAX_CHAT_INPUT: usize = 128;

/// Number of remembered chat inputs.
pub const MAX_RECALL_HISTORY: usize = 10;

/// Layout of the host's chat edit box that this system reads: screen
/// position and extent. Its text accessors live in host code, reached
/// through the per-build offsets above.
pub struct DXUTEditBox {
    pub position: [i32; 2],
    pub width: i32,
    pub height: i32,
}

} // verus!