use samp_cmd_helper::errors::Error;
use samp_cmd_helper::moonloader;
use samp_cmd_helper::plugin::plan_initialization;
use samp_cmd_helper::samp;
use samp_cmd_helper::utils::{call_displacement, extract_call_target_address, get_entry_point, read_le_u32};

#[test]
fn samp_version_table_resolves_every_known_entry_point() {
    assert_eq!(samp::get_version(0x31DF13), Some(samp::Version::V037R1));
    assert_eq!(samp::get_version(0x3195DD), Some(samp::Version::V037R2));
    assert_eq!(samp::get_version(0xCC490), Some(samp::Version::V037R3));
    assert_eq!(samp::get_version(0xCC4D0), Some(samp::Version::V037R3_1));
    assert_eq!(samp::get_version(0xCBCD0), Some(samp::Version::V037R4));
    assert_eq!(samp::get_version(0xCBCB0), Some(samp::Version::V037R4_2));
    assert_eq!(samp::get_version(0xCBC90), Some(samp::Version::V037R5));
    assert_eq!(samp::get_version(0xFDB60), Some(samp::Version::V03DLR1));
}

#[test]
fn samp_version_unknown_entry_point_fails_closed() {
    assert_eq!(samp::get_version(0), None);
    assert_eq!(samp::get_version(0x31DF14), None);
    assert_eq!(samp::get_version(u32::MAX), None);
}

#[test]
fn moonloader_version_table_resolves_every_known_entry_point() {
    assert!(matches!(
        moonloader::get_version(0x13D2CF),
        Ok(moonloader::Version::V0265BetaArchive)
    ));
    assert!(matches!(
        moonloader::get_version(0x13C2EE),
        Ok(moonloader::Version::V0265BetaInstaller)
    ));
    assert!(matches!(
        moonloader::get_version(0x13F632),
        Ok(moonloader::Version::V0270Preview3)
    ));
}

#[test]
fn moonloader_version_unknown_entry_point_reports_it() {
    assert!(matches!(
        moonloader::get_version(0xABCDEF),
        Err(Error::IncompatibleMoonLoaderVersion(0xABCDEF))
    ));
}

#[test]
fn initialization_plan_accepts_known_build_behind_intact_call_site() {
    assert!(matches!(
        plan_initialization(0xE8, 0x31DF13),
        Ok(samp::Version::V037R1)
    ));
}

#[test]
fn initialization_plan_rejects_foreign_opcode_at_patch_site() {
    assert!(matches!(
        plan_initialization(0x90, 0x31DF13),
        Err(Error::MaybeInvalidGameOrPluginConflicting)
    ));
}

#[test]
fn initialization_plan_rejects_unknown_host_build() {
    assert!(matches!(
        plan_initialization(0xE8, 0x1234),
        Err(Error::IncompatibleSampVersion)
    ));
}

#[test]
fn little_endian_read_has_exact_value() {
    let bytes = vec![0x78, 0x56, 0x34, 0x12];
    assert_eq!(read_le_u32(&bytes, 0), 0x12345678);
}

#[test]
fn entry_point_walk_reads_header_then_extended_header() {
    let mut bytes = vec![0u8; 0x70];
    // extended-header offset 0x40 stored at 0x3C
    bytes[0x3C] = 0x40;
    // entry point 0xCC490 stored at 0x40 + 40
    bytes[0x68] = 0x90;
    bytes[0x69] = 0xC4;
    bytes[0x6A] = 0x0C;
    assert_eq!(get_entry_point(&bytes), Some(0xCC490));
}

#[test]
fn entry_point_walk_rejects_short_buffers() {
    assert_eq!(get_entry_point(&vec![0u8; 0x10]), None);
    let mut bytes = vec![0u8; 0x40];
    bytes[0x3C] = 0x40; // walk would leave the buffer
    assert_eq!(get_entry_point(&bytes), None);
}

#[test]
fn call_target_decodes_relative_displacement() {
    assert_eq!(extract_call_target_address(100, 20), 125);
    // wraps around the 32-bit address space
    assert_eq!(extract_call_target_address(0xFFFF_FFFF, 0), 4);
}

#[test]
fn call_displacement_round_trips_through_target_extraction() {
    let site = 0x0053_EA8E;
    let target = 0x0012_3456;
    let rel = call_displacement(site, target);
    assert_eq!(rel, target.wrapping_sub(site).wrapping_sub(5));
    assert_eq!(extract_call_target_address(site, rel), target);
}

#[test]
fn error_messages_name_each_failure() {
    assert_eq!(Error::WinApiError(5).message(), "WinAPI error");
    assert_eq!(
        Error::FunctionNotFound("getChatCommands".to_string()).message(),
        "GetProcAddress failed for symbol: getChatCommands"
    );
    assert_eq!(
        Error::MaybeInvalidGameOrPluginConflicting.message(),
        "Maybe invalid game or conflicting plugin"
    );
    assert_eq!(
        Error::SampNotLoaded(2).message(),
        "Library 'samp.dll' not found"
    );
    assert_eq!(
        Error::IncompatibleSampVersion.message(),
        "Incompatible SA-MP version"
    );
    assert_eq!(
        Error::IncompatibleMoonLoaderVersion(7).message(),
        "Incompatible MoonLoader version"
    );
}

#[test]
fn samp_offsets_match_the_build_table() {
    assert_eq!(samp::get_input_offset(samp::Version::V037R1), 0x21A0E8);
    assert_eq!(samp::get_input_offset(samp::Version::V03DLR1), 0x2ACA14);
    assert_eq!(
        samp::get_offset_of_dxut_edit_box_get_text(samp::Version::V037R3),
        0x84F40
    );
    assert_eq!(
        samp::get_offset_of_dxut_edit_box_set_text(samp::Version::V037R5),
        0x85580
    );
}

#[test]
fn moonloader_offsets_match_the_build_table() {
    assert_eq!(
        moonloader::name_offset(moonloader::Version::V0265BetaArchive),
        0x18
    );
    assert_eq!(
        moonloader::name_offset(moonloader::Version::V0270Preview3),
        0x34
    );
    assert_eq!(
        moonloader::register_site_offset(moonloader::Version::V0265BetaArchive),
        0xF443C
    );
    assert_eq!(
        moonloader::unregister_site_offset(moonloader::Version::V0265BetaArchive),
        0xF4502
    );
    assert_eq!(
        moonloader::register_site_offset(moonloader::Version::V0270Preview3),
        0xDF0A5
    );
}

#[test]
fn moonloader_hooks_record_captured_originals() {
    let h = moonloader::MoonLoaderHooks::new(moonloader::Version::V0270Preview3, 0x111, 0x222);
    assert_eq!(h.name_offset, 0x34);
    assert_eq!(h.orig_samp_register_chat_command, 0x111);
    assert_eq!(h.orig_samp_unregister_chat_command, 0x222);
}

#[test]
fn script_name_takes_file_name_component_of_path() {
    assert_eq!(
        moonloader::script_name_from_path("C:\\Games\\moonloader\\script.lua"),
        "script.lua"
    );
    assert_eq!(moonloader::script_name_from_path("/a/b/c.lua"), "c.lua");
    assert_eq!(moonloader::script_name_from_path("bare.lua"), "bare.lua");
    assert_eq!(moonloader::script_name_from_path(""), "unknown");
    assert_eq!(moonloader::script_name_from_path("a/.."), "unknown");
}

#[test]
fn script_name_passes_over_trailing_separators_and_dots() {
    // as the standard path parsing has it: a trailing separator or a
    // trailing current-directory component still yields the name before
    assert_eq!(moonloader::script_name_from_path("/usr/bin/"), "bin");
    assert_eq!(moonloader::script_name_from_path("dir\\"), "dir");
    assert_eq!(moonloader::script_name_from_path("foo.txt/."), "foo.txt");
    assert_eq!(moonloader::script_name_from_path("."), "unknown");
}

#[test]
fn script_name_drops_a_drive_prefix() {
    assert_eq!(moonloader::script_name_from_path("C:x.lua"), "x.lua");
    assert_eq!(moonloader::script_name_from_path("C:"), "unknown");
}
