//! Version resolver, patch-site table and script-name logic for the
//! optional scripting loader.
//!
//! The loader registers and unregisters chat commands through two native
//! entry points. Both call sites are redirected at startup so every event
//! flows into the per-script command map; the loader's own build is
//! resolved by its entry point, independently of the host's version table.

use vstd::prelude::*;
use crate::errors::Error;

verus! {

/// The known builds of the scripting loader.
#[derive(Debug, Clone, Copy, PartialEq, Eq, Structural)]
pub enum Version {
    V0265BetaArchive,
    V0265BetaInstaller,
    V0270Preview3,
}

/// The (entry point -> build) table of the loader's version resolver.
pub open spec fn spec_version_of_entry_point(entry_point: u32) -> Option<Version> {
    if entry_point == 0x13D2CF {
        Some(Version::V0265BetaArchive)
    } else if entry_point == 0x13C2EE {
        Some(Version::V0265BetaInstaller)
    } else if entry_point == 0x13F632 {
        Some(Version::V0270Preview3)
    } else {
        None
    }
}

/// Resolve the loader's build from its entry point; an unknown entry
/// point fails closed with the unrecognized value.
pub fn get_version(entry_point: u32) -> (r: Result<Version, Error>)
    ensures
        match spec_version_of_entry_point(entry_point) {
            Some(v) => r == Ok::<Version, Error>(v),
            None => r == Err::<Version, Error>(Error::IncompatibleMoonLoaderVersion(entry_point)),
        },
{
    match entry_point {
        0x13D2CF => Ok(Version::V0265BetaArchive),
        0x13C2EE => Ok(Version::V0265BetaInstaller),
        0x13F632 => Ok(Version::V0270Preview3),
        ep => Err(Error::IncompatibleMoonLoaderVersion(ep)),
    }
}

/// Base-relative address of the patched operand inside the loader's
/// register-command call site, per build.
pub fn register_site_offset(version: Version) -> (r: u32)
    ensures
        r == spec_register_site_offset(version),
{
    match version {
        Version::V0265BetaArchive => 0xF4438 + 0x4,
        Version::V0265BetaInstaller => 0xF3918 + 0x4,
        Version::V0270Preview3 => 0xDF0A4 + 0x1,
    }
}

pub open spec fn spec_register_site_offset(version: Version) -> u32 {
    match version {
        Version::V0265BetaArchive => 0xF443C,
        Version::V0265BetaInstaller => 0xF391C,
        Version::V0270Preview3 => 0xDF0A5,
    }
}

/// Base-relative address of the patched operand inside the loader's
/// unregister-command call site, per build.
pub fn unregister_site_offset(version: Version) -> (r: u32)
    ensures
        r == spec_unregister_site_offset(version),
{
    match version {
        Version::V0265BetaArchive => 0xF44FE + 0x4,
        Version::V0265BetaInstaller => 0xF39DE + 0x4,
        Version::V0270Preview3 => 0xDF14C + 0x1,
    }
}

pub open spec fn spec_unregister_site_offset(version: Version) -> u32 {
    match version {
        Version::V0265BetaArchive => 0xF4502,
        Version::V0265BetaInstaller => 0xF39E2,
        Version::V0270Preview3 => 0xDF14D,
    }
}

/// Byte offset of the script-path pointer inside a script's user-data
/// block, per build.
pub fn name_offset(version: Version) -> (r: u32)
    ensures
        r == spec_name_offset(version),
{
    match version {
        Version::V0265BetaArchive => 0x18,
        Version::V0265BetaInstaller => 0x18,
        Version::V0270Preview3 => 0x34,
    }
}

pub open spec fn spec_name_offset(version: Version) -> u32 {
    match version {
        Version::V0265BetaArchive => 0x18,
        Version::V0265BetaInstaller => 0x18,
        Version::V0270Preview3 => 0x34,
    }
}

/// The loader-interception state once installed: where a script's name is
/// found, and the two original entry points captured for chaining.
pub struct MoonLoaderHooks {
    pub name_offset: u32,
    pub orig_samp_register_chat_command: u32,
    pub orig_samp_unregister_chat_command: u32,
}

impl MoonLoaderHooks {
    /// Record the captured original entry points together with the
    /// resolved build's name-field offset.
    pub fn new(version: Version, orig_register: u32, orig_unregister: u32) -> (r: MoonLoaderHooks)
        ensures
            r.name_offset == spec_name_offset(version),
            r.orig_samp_register_chat_command == orig_register,
            r.orig_samp_unregister_chat_command == orig_unregister,
    {
        MoonLoaderHooks {
            name_offset: name_offset(version),
            orig_samp_register_chat_command: orig_register,
            orig_samp_unregister_chat_command: orig_unregister,
        }
    }
}

/// A path separator of either convention.
pub open spec fn is_sep(c: char) -> bool {
    c == '/' || c == '\\'
}

/// The characters after the last path separator (the whole path when no
/// separator occurs).
pub open spec fn path_file_name(s: Seq<char>) -> Seq<char>
    decreases s.len(),
{
    if s.len() == 0 {
        s
    } else if is_sep(s.last()) {
        Seq::empty()
    } else {
        path_file_name(s.drop_last()).push(s.last())
    }
}

/// An ASCII letter, as a drive prefix names one.
pub open spec fn is_ascii_letter(c: char) -> bool {
    (97 <= c as int <= 122) || (65 <= c as int <= 90)
}

/// Whether the path begins with a drive prefix of the form `X:`.
pub open spec fn has_drive_prefix(s: Seq<char>) -> bool {
    s.len() >= 2 && s[1] == ':' && is_ascii_letter(s[0])
}

/// The path without its drive prefix, if it carries one.
pub open spec fn strip_drive(s: Seq<char>) -> Seq<char> {
    if has_drive_prefix(s) {
        s.skip(2)
    } else {
        s
    }
}

/// The final path component worth naming: trailing separators and
/// trailing current-directory components are passed over; empty when
/// nothing is left. A final parent-directory component is handed through
/// and rejected by the caller.
pub open spec fn spec_file_name(s: Seq<char>) -> Seq<char>
    decreases s.len(),
{
    if s.len() == 0 {
        s
    } else if is_sep(s.last()) {
        spec_file_name(s.drop_last())
    } else if path_file_name(s) == seq!['.'] {
        spec_file_name(s.drop_last())
    } else {
        path_file_name(s)
    }
}

/// The display name a script path yields: its file-name component after
/// any drive prefix is dropped, or the placeholder when the path has
/// none.
pub open spec fn spec_script_name(s: Seq<char>) -> Seq<char> {
    let f = spec_file_name(strip_drive(s));
    if f.len() == 0 || f == seq!['.', '.'] {
        "unknown"@
    } else {
        f
    }
}

/// When positions from `start` on hold no separator and `start` follows
/// one (or is the path's start), the file-name portion is the suffix from
/// `start`.
proof fn lemma_path_file_name_at(s: Seq<char>, start: int)
    requires
        0 <= start <= s.len(),
        forall|j: int| start <= j < s.len() ==> !is_sep(#[trigger] s[j]),
        start > 0 ==> is_sep(s[start - 1]),
    ensures
        path_file_name(s) == s.subrange(start, s.len() as int),
    decreases s.len(),
{
    if start == s.len() {
        if s.len() > 0 {
            assert(is_sep(s.last()));
        }
        assert(s.subrange(start, s.len() as int) =~= Seq::<char>::empty());
        if s.len() == 0 {
            assert(path_file_name(s) =~= s.subrange(start, s.len() as int));
        }
    } else {
        assert(!is_sep(s.last()));
        let t = s.drop_last();
        assert forall|j: int| start <= j < t.len() implies !is_sep(#[trigger] t[j]) by {
            assert(t[j] == s[j]);
        }
        if start > 0 {
            assert(t[start - 1] == s[start - 1]);
        }
        lemma_path_file_name_at(t, start);
        assert(s.subrange(start, s.len() as int) =~= t.subrange(start, t.len() as int).push(
            s.last(),
        ));
    }
}

/// The file-name component of a script's path, `"unknown"` when the path
/// has none worth showing.
pub fn script_name_from_path(path: &str) -> (r: String)
    ensures
        r@ == spec_script_name(path@),
{
    let n = path.unicode_len();
    let has_drive = n >= 2 && path.get_char(1) == ':' && {
        let c0 = path.get_char(0) as u32;
        (97 <= c0 && c0 <= 122) || (65 <= c0 && c0 <= 90)
    };
    let start: usize = if has_drive {
        2
    } else {
        0
    };
    let ghost t = path@.subrange(start as int, n as int);
    proof {
        assert(t =~= strip_drive(path@));
    }
    let mut end: usize = n;
    proof {
        assert(t.subrange(0, (end - start) as int) =~= t);
    }
    loop
        invariant
            n == path@.len(),
            t == path@.subrange(start as int, n as int),
            t == strip_drive(path@),
            start <= end <= n,
            spec_file_name(t) == spec_file_name(t.subrange(0, (end - start) as int)),
        decreases end,
    {
        if end == start {
            proof {
                assert(t.subrange(0, 0) =~= Seq::<char>::empty());
            }
            return String::from_str("unknown");
        }
        let ghost cur = t.subrange(0, (end - start) as int);
        proof {
            assert(cur.last() == path@[end - 1]);
        }
        let c = path.get_char(end - 1);
        if c == '/' || c == '\\' {
            // pass over a trailing separator
            proof {
                assert(cur.drop_last() =~= t.subrange(0, (end - 1 - start) as int));
            }
            end = end - 1;
        } else {
            // delimit the trailing component
            let mut cs: usize = end;
            loop
                invariant
                    n == path@.len(),
                    start <= cs <= end <= n,
                    forall|j: int| cs <= j < end ==> !is_sep(#[trigger] path@[j]),
                ensures
                    start <= cs <= end,
                    forall|j: int| cs <= j < end ==> !is_sep(#[trigger] path@[j]),
                    cs == start || is_sep(path@[cs - 1]),
                decreases cs,
            {
                if cs == start {
                    break;
                }
                let d = path.get_char(cs - 1);
                if d == '/' || d == '\\' {
                    break;
                }
                cs = cs - 1;
            }
            proof {
                assert forall|j: int| (cs - start) <= j < cur.len() implies !is_sep(
                #[trigger] cur[j]) by {
                    assert(cur[j] == path@[start + j]);
                }
                if cs > start {
                    assert(cur[(cs - start - 1) as int] == path@[cs - 1]);
                }
                lemma_path_file_name_at(cur, (cs - start) as int);
                assert(path_file_name(cur) =~= path@.subrange(cs as int, end as int));
            }
            if end - cs == 1 && path.get_char(cs) == '.' {
                // pass over a trailing current-directory component
                proof {
                    assert(path_file_name(cur) =~= seq!['.']);
                    assert(cur.drop_last() =~= t.subrange(0, (end - 1 - start) as int));
                }
                end = end - 1;
            } else {
                proof {
                    if end - cs == 1 {
                        assert(path@.subrange(cs as int, end as int)[0] == path@[cs as int]);
                        assert(path_file_name(cur) != seq!['.']);
                    } else {
                        assert(path_file_name(cur).len() != 1);
                    }
                    assert(spec_file_name(t) == path_file_name(cur));
                }
                let f = path.substring_char(cs, end);
                if end - cs == 2 && path.get_char(cs) == '.' && path.get_char(cs + 1) == '.' {
                    proof {
                        assert(f@ =~= seq!['.', '.']);
                    }
                    return String::from_str("unknown");
                } else {
                    proof {
                        if f@.len() == 2 && f@ == seq!['.', '.'] {
                            assert(f@[0] == '.' && f@[1] == '.');
                        }
                    }
                    return String::from_str(f);
                }
            }
        }
    }
}

} // verus!