//! Shared helpers: executable-header parsing, call-site displacement
//! arithmetic, and address-to-module resolution.
//!
//! Whoever reads or writes the host's memory works on the addresses and
//! values computed here; nothing in this module touches memory itself.

use vstd::prelude::*;

verus! {

/// The little-endian 32-bit value stored at `off`.
pub open spec fn spec_le_u32_at(bytes: Seq<u8>, off: int) -> int {
    bytes[off] + bytes[off + 1] * 0x100 + bytes[off + 2] * 0x10000 + bytes[off + 3] * 0x1000000
}

/// Read a little-endian 32-bit value out of a byte buffer.
pub fn read_le_u32(bytes: &Vec<u8>, off: usize) -> (r: u32)
    requires
        off + 4 <= bytes@.len(),
    ensures
        r == spec_le_u32_at(bytes@, off as int),
{
    let n = bytes.len();
    proof {
        assert(off + 4 <= n);
    }
    let b0 = bytes[off] as u32;
    let b1 = bytes[off + 1] as u32;
    let b2 = bytes[off + 2] as u32;
    let b3 = bytes[off + 3] as u32;
    b0 + b1 * 0x100 + b2 * 0x10000 + b3 * 0x1000000
}

/// Byte offset of the extended-header offset field in the executable
/// header.
pub const DOS_LFANEW_OFFSET: usize = 0x3C;

/// Byte offset of the entry-point field inside the extended header:
/// signature (4), file header (20), then 16 bytes into the optional
/// header.
pub const NT_ENTRY_POINT_OFFSET: usize = 40;

/// The entry-point field a header walk finds in `bytes`, when the buffer
/// covers both fields of the fixed-offset walk.
pub open spec fn spec_entry_point(bytes: Seq<u8>) -> Option<u32> {
    if bytes.len() >= DOS_LFANEW_OFFSET + 4 {
        let lfanew = spec_le_u32_at(bytes, DOS_LFANEW_OFFSET as int);
        if lfanew + NT_ENTRY_POINT_OFFSET + 4 <= bytes.len() {
            Some(spec_le_u32_at(bytes, lfanew + NT_ENTRY_POINT_OFFSET) as u32)
        } else {
            None
        }
    } else {
        None
    }
}

/// Walk a module's executable header: the header's extended-header offset,
/// then the entry-point field of the extended header. `bytes` are the
/// module's leading bytes; `None` when the buffer is too short for the
/// walk.
pub fn get_entry_point(bytes: &Vec<u8>) -> (r: Option<u32>)
    ensures
        r == spec_entry_point(bytes@),
{
    if bytes.len() < DOS_LFANEW_OFFSET + 4 {
        return None;
    }
    let lfanew = read_le_u32(bytes, DOS_LFANEW_OFFSET);
    if lfanew as u64 + NT_ENTRY_POINT_OFFSET as u64 + 4 <= bytes.len() as u64 {
        proof {
            assert(spec_le_u32_at(bytes@, lfanew as int + NT_ENTRY_POINT_OFFSET) < 0x1_0000_0000);
        }
        Some(read_le_u32(bytes, lfanew as usize + NT_ENTRY_POINT_OFFSET))
    } else {
        None
    }
}

/// Adding whole 32-bit wraparounds does not change a residue already in
/// range.
proof fn lemma_u32_mod_vanish(x: int, k: int)
    requires
        0 <= x < 0x1_0000_0000,
    ensures
        (x + k * 0x1_0000_0000) % 0x1_0000_0000 == x,
{
    vstd::arithmetic::div_mod::lemma_mod_multiples_vanish(k, x, 0x1_0000_0000);
    vstd::arithmetic::div_mod::lemma_small_mod(x as nat, 0x1_0000_0000nat);
}

/// Target of a direct relative call instruction at `site`: the
/// displacement that follows the opcode, taken relative to the address
/// after the five-byte instruction, with 32-bit wraparound.
pub fn extract_call_target_address(site: u32, relative: u32) -> (target: u32)
    ensures
        target == (site + relative + 5) % 0x1_0000_0000,
{
    let t1 = site.wrapping_add(relative);
    let target = t1.wrapping_add(5);
    proof {
        let a: int = if site + relative > u32::MAX {
            1
        } else {
            0
        };
        let b: int = if t1 + 5 > u32::MAX {
            1
        } else {
            0
        };
        assert(site + relative + 5 == target + (a + b) * 0x1_0000_0000);
        lemma_u32_mod_vanish(target as int, a + b);
    }
    target
}

/// Displacement that makes the call instruction at `site` reach `target`:
/// the inverse of `extract_call_target_address`, written at `site + 1`.
pub fn call_displacement(site: u32, target: u32) -> (relative: u32)
    ensures
        (site + relative + 5) % 0x1_0000_0000 == target,
{
    let d = target.wrapping_sub(site);
    let r = d.wrapping_sub(5);
    proof {
        let a: int = if target - site < 0 {
            1
        } else {
            0
        };
        let b: int = if d - 5 < 0 {
            1
        } else {
            0
        };
        assert(site + r + 5 == target + (a + b) * 0x1_0000_0000);
        lemma_u32_mod_vanish(target as int, a + b);
    }
    r
}

/// The call opcode expected at a patch site; any other byte there means a
/// wrong host build or a conflicting patch.
pub const CALL_OPCODE: u8 = 0xE8;

/// One row of the process-wide module snapshot: display name and the
/// address range the module occupies.
pub struct ModuleEntry {
    pub name: String,
    pub base: u32,
    pub size: u32,
}

/// Whether `addr` falls in the module's address range `[base, base + size)`.
pub open spec fn spec_module_owns(m: ModuleEntry, addr: u32) -> bool {
    m.base <= addr < m.base + m.size
}

/// The first snapshot row whose range contains `addr`, if any.
pub open spec fn spec_module_owner(modules: Seq<ModuleEntry>, addr: u32) -> Option<Seq<char>>
    decreases modules.len(),
{
    if modules.len() == 0 {
        None
    } else if spec_module_owns(modules[0], addr) {
        Some(modules[0].name@)
    } else {
        spec_module_owner(modules.drop_first(), addr)
    }
}

/// Skipping rows that do not own `addr` does not change the owner.
proof fn lemma_module_owner_skip(modules: Seq<ModuleEntry>, addr: u32, j: int)
    requires
        0 <= j <= modules.len(),
        forall|i: int| 0 <= i < j ==> !spec_module_owns(#[trigger] modules[i], addr),
    ensures
        spec_module_owner(modules, addr) == spec_module_owner(modules.skip(j), addr),
    decreases j,
{
    if j > 0 {
        assert(!spec_module_owns(modules[0], addr));
        let t = modules.drop_first();
        assert forall|i: int| 0 <= i < j - 1 implies !spec_module_owns(#[trigger] t[i], addr) by {
            assert(t[i] == modules[i + 1]);
        }
        lemma_module_owner_skip(t, addr, j - 1);
        assert(t.skip(j - 1) =~= modules.skip(j));
    } else {
        assert(modules.skip(0) =~= modules);
    }
}

/// Resolve the owner of one address against the snapshot.
fn resolve_owner(modules: &Vec<ModuleEntry>, addr: u32) -> (r: Option<String>)
    ensures
        match r {
            Some(name) => spec_module_owner(modules@, addr) == Some(name@),
            None => spec_module_owner(modules@, addr) is None,
        },
{
    let mut j: usize = 0;
    while j < modules.len()
        invariant
            j <= modules@.len(),
            forall|i: int| 0 <= i < j ==> !spec_module_owns(#[trigger] modules@[i], addr),
        decreases modules@.len() - j,
    {
        let m = &modules[j];
        if addr >= m.base && addr - m.base < m.size {
            proof {
                lemma_module_owner_skip(modules@, addr, j as int);
                assert(modules@.skip(j as int)[0] == modules@[j as int]);
            }
            return Some(m.name.clone());
        }
        j = j + 1;
    }
    proof {
        lemma_module_owner_skip(modules@, addr, j as int);
        assert(modules@.skip(j as int) =~= Seq::<ModuleEntry>::empty());
    }
    None
}

/// View of an optional owned name.
pub open spec fn spec_opt_text(o: Option<String>) -> Option<Seq<char>> {
    match o {
        Some(s) => Some(s@),
        None => None,
    }
}

/// For each address, the name of the first snapshot row whose range
/// contains it, or `None` for an address no module owns.
pub fn find_module_name_that_owns_address_list(
    addresses: &Vec<u32>,
    modules: &Vec<ModuleEntry>,
) -> (r: Vec<Option<String>>)
    ensures
        r@.len() == addresses@.len(),
        forall|i: int|
            0 <= i < r@.len() ==> spec_opt_text(#[trigger] r@[i]) == spec_module_owner(
                modules@,
                addresses@[i],
            ),
{
    let mut r: Vec<Option<String>> = Vec::new();
    let mut i: usize = 0;
    while i < addresses.len()
        invariant
            i <= addresses@.len(),
            r@.len() == i,
            forall|k: int|
                0 <= k < i ==> spec_opt_text(#[trigger] r@[k]) == spec_module_owner(
                    modules@,
                    addresses@[k],
                ),
        decreases addresses@.len() - i,
    {
        r.push(resolve_owner(modules, addresses[i]));
        i = i + 1;
    }
    r
}

/// The text that `str::trim_end` leaves: the argument without its trailing
/// whitespace. It is a function of the characters alone and a prefix of
/// them.
pub uninterp spec fn trim_end_of(s: Seq<char>) -> Seq<char>;

/// Relies on `str::trim_end`: returns the input with trailing whitespace
/// removed, hence a prefix of it, depending on the characters alone.
#[verifier::external_body]
pub(crate) fn trim_end(s: &str) -> (r: String)
    ensures
        r@ == trim_end_of(s@),
        r@.len() <= s@.len(),
        r@ =~= s@.subrange(0, r@.len() as int),
{
    s.trim_end().to_string()
}

} // verus!