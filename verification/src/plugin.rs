//! The process-scoped core: command aggregation and the initialization
//! state machine.
//!
//! One `Plugin` value is built at attach time and handed to every hook
//! callback. A repeated host callback drives its state machine: one tick
//! of deliberate delay, then hook installation, then a fixed settling
//! window, then a single aggregation pass that publishes the categorized
//! command snapshot.

use vstd::prelude::*;
use crate::cmd_storage::{
    assoc_find, assoc_keys_unique, assoc_to_map, cmd_with_prefix, lemma_assoc_to_map_dom,
    lemma_assoc_to_map_push, lemma_assoc_to_map_update, lemma_assoc_to_map_value,
    map_add_command, map_insert_if_absent, map_remove_command, prefixed, Categories, Category,
    CategoryKey, CommandMap, ModuleMap,
};
use crate::cppstd::{
    bytes_before_nul, contains_nul, lemma_contains_nul_iff, lossy_string, lossy_text_of,
    prefix_before_nul,
};
use crate::errors::Error;
use crate::samp;
use crate::sampfuncs::{CmdOwner, CommandInfo, CommandType};
use crate::utils::{
    find_module_name_that_owns_address_list, spec_module_owner, spec_opt_text, trim_end,
    trim_end_of, ModuleEntry, CALL_OPCODE,
};

verus! {

/// One registered command as seen in the host's native table: the
/// handler procedure's address and the fixed-size name buffer. The host
/// owns the original; this is the value read out of it.
pub struct CommandSlot {
    pub name: Vec<u8>,
    pub handler: u32,
}

/// The text a fixed name buffer denotes: its bytes before the first
/// null, decoded lossily, or the placeholder when no null terminates it.
pub open spec fn spec_slot_text(name: Seq<u8>) -> Seq<char> {
    if contains_nul(name) {
        lossy_text_of(bytes_before_nul(name))
    } else {
        "unknown"@
    }
}

/// Decode a slot's name buffer, degrading to the placeholder rather than
/// failing on foreign memory.
fn decode_slot_name(name: &Vec<u8>) -> (r: String)
    ensures
        r@ == spec_slot_text(name@),
{
    proof {
        lemma_contains_nul_iff(name@);
    }
    let p = prefix_before_nul(name);
    if p.len() < name.len() {
        lossy_string(&p)
    } else {
        String::from_str("unknown")
    }
}

/// The module label a handler address resolves to: the owning module's
/// name, or the placeholder for an address no module owns.
pub open spec fn spec_owner_label(modules: Seq<ModuleEntry>, handler: u32) -> Seq<char> {
    match spec_module_owner(modules, handler) {
        Some(n) => n,
        None => "unknown"@,
    }
}

/// The native table grouped by owning module: per module label, the
/// decoded command texts in table order.
pub open spec fn spec_group_samp(slots: Seq<CommandSlot>, modules: Seq<ModuleEntry>) -> Map<
    Seq<char>,
    Seq<Seq<char>>,
>
    decreases slots.len(),
{
    if slots.len() == 0 {
        Map::empty()
    } else {
        let m = spec_group_samp(slots.drop_last(), modules);
        let key = spec_owner_label(modules, slots.last().handler);
        let cmd = spec_slot_text(slots.last().name@);
        if m.dom().contains(key) {
            m.insert(key, m[key].push(cmd))
        } else {
            m.insert(key, seq![cmd])
        }
    }
}

/// The views of a list of owned strings.
pub open spec fn texts_of(v: Seq<String>) -> Seq<Seq<char>> {
    v.map_values(|s: String| s@)
}

/// View of grouped commands: module label to command texts.
pub open spec fn samp_groups_view(s: Seq<(String, Vec<String>)>) -> Seq<
    (Seq<char>, Seq<Seq<char>>),
> {
    s.map_values(|e: (String, Vec<String>)| (e.0@, texts_of(e.1@)))
}

/// Read the host's native command table into per-module groups: each
/// slot's name is decoded and filed under the module whose address range
/// holds the slot's handler, in table order.
pub fn get_samp_commands_grouped_by_module(
    slots: &Vec<CommandSlot>,
    modules: &Vec<ModuleEntry>,
) -> (r: Vec<(String, Vec<String>)>)
    ensures
        assoc_keys_unique(samp_groups_view(r@)),
        assoc_to_map(samp_groups_view(r@)) == spec_group_samp(slots@, modules@),
{
    let mut handlers: Vec<u32> = Vec::new();
    let mut i: usize = 0;
    while i < slots.len()
        invariant
            i <= slots@.len(),
            handlers@.len() == i,
            forall|k: int| 0 <= k < i ==> handlers@[k] == slots@[k].handler,
        decreases slots@.len() - i,
    {
        handlers.push(slots[i].handler);
        i = i + 1;
    }
    let names = find_module_name_that_owns_address_list(&handlers, modules);

    let mut groups: Vec<(String, Vec<String>)> = Vec::new();
    let mut i: usize = 0;
    while i < slots.len()
        invariant
            i <= slots@.len(),
            names@.len() == slots@.len(),
            forall|k: int|
                0 <= k < slots@.len() ==> spec_opt_text(#[trigger] names@[k]) == spec_module_owner(
                    modules@,
                    slots@[k].handler,
                ),
            assoc_keys_unique(samp_groups_view(groups@)),
            assoc_to_map(samp_groups_view(groups@)) == spec_group_samp(slots@.take(i as int), modules@),
        decreases slots@.len() - i,
    {
        let label = match &names[i] {
            Some(n) => n.clone(),
            None => String::from_str("unknown"),
        };
        proof {
            assert(label@ == spec_owner_label(modules@, slots@[i as int].handler));
        }
        let cmd = decode_slot_name(&slots[i].name);
        let ghost gkv = samp_groups_view(groups@);
        let ghost m = assoc_to_map(gkv);
        let ghost key = label@;
        let found = assoc_find(&groups, &label);
        match found {
            Some(j) => {
                proof {
                    assert(gkv[j as int].0 == key);
                    lemma_assoc_to_map_value(gkv, j as int);
                    lemma_assoc_to_map_dom(gkv, key);
                    lemma_assoc_to_map_update(gkv, j as int, m[key].push(cmd@));
                }
                let ghost old_entries = groups@;
                let mut pair = groups.remove(j);
                pair.1.push(cmd);
                groups.insert(j, pair);
                proof {
                    assert(groups@ =~= old_entries.update(j as int, groups@[j as int]));
                    assert(texts_of(groups@[j as int].1@) =~= m[key].push(cmd@));
                    assert(samp_groups_view(groups@) =~~= gkv.update(
                        j as int,
                        (key, m[key].push(cmd@)),
                    ));
                }
            },
            None => {
                proof {
                    assert forall|k: int| 0 <= k < gkv.len() implies (#[trigger] gkv[k]).0
                        != key by {
                        assert(groups@[k].0@ != key);
                    }
                    lemma_assoc_to_map_dom(gkv, key);
                    lemma_assoc_to_map_push(gkv, key, seq![cmd@]);
                }
                let mut cmds: Vec<String> = Vec::new();
                cmds.push(cmd);
                groups.push((label, cmds));
                proof {
                    assert(texts_of(groups@[groups@.len() - 1].1@) =~= seq![cmd@]);
                    assert(samp_groups_view(groups@) =~~= gkv.push((key, seq![cmd@])));
                }
            },
        }
        proof {
            assert(slots@.take(i + 1).drop_last() =~= slots@.take(i as int));
            assert(slots@.take(i + 1).last() == slots@[i as int]);
        }
        i = i + 1;
    }
    proof {
        assert(slots@.take(slots@.len() as int) =~= slots@);
    }
    groups
}

/// The display name a command record's owner yields: nobody becomes the
/// placeholder, a script its trimmed thread name with the script-file
/// extension, a plugin its declared name.
pub open spec fn spec_owner_name(o: CmdOwner) -> Seq<char> {
    match o {
        CmdOwner::Nope => "unknown"@,
        CmdOwner::Script(s) => trim_end_of(s.spec_thread_name()) + ".cs"@,
        CmdOwner::Plugin(p) => p.spec_plugin_name(),
    }
}

/// The companion library's records grouped by owner display name: per
/// owner, the owner kind of its first record and the command texts in
/// record order.
pub open spec fn spec_group_sf(cmds: Seq<CommandInfo>) -> Map<
    Seq<char>,
    (CommandType, Seq<Seq<char>>),
>
    decreases cmds.len(),
{
    if cmds.len() == 0 {
        Map::empty()
    } else {
        let m = spec_group_sf(cmds.drop_last());
        let c = cmds.last();
        let key = spec_owner_name(c.owner);
        let text = c.name.text();
        if m.dom().contains(key) {
            m.insert(key, (m[key].0, m[key].1.push(text)))
        } else {
            m.insert(key, (c.owner.spec_owner_type(), seq![text]))
        }
    }
}

/// View of grouped companion commands: owner name to kind and texts.
pub open spec fn sf_groups_view(s: Seq<(String, (CommandType, Vec<String>))>) -> Seq<
    (Seq<char>, (CommandType, Seq<Seq<char>>)),
> {
    s.map_values(|e: (String, (CommandType, Vec<String>))| (e.0@, (e.1.0, texts_of(e.1.1@))))
}

/// Group the companion library's command records by their owner's display
/// name, keeping the owner kind of the first record seen per owner.
pub fn get_sampfuncs_commands_grouped(cmds: &Vec<CommandInfo>) -> (r: Vec<
    (String, (CommandType, Vec<String>)),
>)
    ensures
        assoc_keys_unique(sf_groups_view(r@)),
        assoc_to_map(sf_groups_view(r@)) == spec_group_sf(cmds@),
{
    let mut groups: Vec<(String, (CommandType, Vec<String>))> = Vec::new();
    let mut i: usize = 0;
    while i < cmds.len()
        invariant
            i <= cmds@.len(),
            assoc_keys_unique(sf_groups_view(groups@)),
            assoc_to_map(sf_groups_view(groups@)) == spec_group_sf(cmds@.take(i as int)),
        decreases cmds@.len() - i,
    {
        let c = &cmds[i];
        let owner_name = match c.owner() {
            CmdOwner::Nope => String::from_str("unknown"),
            CmdOwner::Script(s) => {
                let name = s.thread_name();
                let trimmed = trim_end(name.as_str());
                trimmed.concat(".cs")
            },
            CmdOwner::Plugin(p) => p.plugin_name(),
        };
        let owner_type = c.owner_type();
        let text = c.name.to_string();
        proof {
            assert(owner_name@ == spec_owner_name(cmds@[i as int].owner));
        }
        let ghost gkv = sf_groups_view(groups@);
        let ghost m = assoc_to_map(gkv);
        let ghost key = owner_name@;
        match assoc_find(&groups, &owner_name) {
            Some(j) => {
                proof {
                    assert(gkv[j as int].0 == key);
                    lemma_assoc_to_map_value(gkv, j as int);
                    lemma_assoc_to_map_dom(gkv, key);
                    lemma_assoc_to_map_update(gkv, j as int, (m[key].0, m[key].1.push(text@)));
                }
                let ghost old_entries = groups@;
                let mut pair = groups.remove(j);
                pair.1.1.push(text);
                groups.insert(j, pair);
                proof {
                    assert(groups@ =~= old_entries.update(j as int, groups@[j as int]));
                    assert(texts_of(groups@[j as int].1.1@) =~= m[key].1.push(text@));
                    assert(sf_groups_view(groups@) =~~= gkv.update(
                        j as int,
                        (key, (m[key].0, m[key].1.push(text@))),
                    ));
                }
            },
            None => {
                proof {
                    assert forall|k: int| 0 <= k < gkv.len() implies (#[trigger] gkv[k]).0
                        != key by {
                        assert(groups@[k].0@ != key);
                    }
                    lemma_assoc_to_map_dom(gkv, key);
                    lemma_assoc_to_map_push(gkv, key, (owner_type, seq![text@]));
                }
                let mut list: Vec<String> = Vec::new();
                list.push(text);
                groups.push((owner_name, (owner_type, list)));
                proof {
                    assert(texts_of(groups@[groups@.len() - 1].1.1@) =~= seq![text@]);
                    assert(sf_groups_view(groups@) =~~= gkv.push((key, (owner_type, seq![text@]))));
                }
            },
        }
        proof {
            assert(cmds@.take(i + 1).drop_last() =~= cmds@.take(i as int));
            assert(cmds@.take(i + 1).last() == cmds@[i as int]);
        }
        i = i + 1;
    }
    proof {
        assert(cmds@.take(cmds@.len() as int) =~= cmds@);
    }
    groups
}

/// The command map a list of raw command texts yields: each text gets the
/// command marker and an empty description; a duplicate keeps its first
/// binding.
pub open spec fn spec_prefixed_cmdmap(cmds: Seq<Seq<char>>) -> Map<Seq<char>, Seq<char>>
    decreases cmds.len(),
{
    if cmds.len() == 0 {
        Map::empty()
    } else {
        map_insert_if_absent(
            spec_prefixed_cmdmap(cmds.drop_last()),
            prefixed(cmds.last()),
            Seq::empty(),
        )
    }
}

/// Build the command map of one module from its raw command list.
fn build_cmdmap(cmds: &Vec<String>) -> (r: CommandMap)
    ensures
        r.wf(),
        r@ == spec_prefixed_cmdmap(texts_of(cmds@)),
{
    let mut r = CommandMap::new();
    let mut i: usize = 0;
    while i < cmds.len()
        invariant
            i <= cmds@.len(),
            r.wf(),
            r@ == spec_prefixed_cmdmap(texts_of(cmds@.take(i as int))),
        decreases cmds@.len() - i,
    {
        let c = cmd_with_prefix(cmds[i].as_str());
        r.insert_if_absent(c, String::new());
        proof {
            assert(texts_of(cmds@.take(i + 1)).drop_last() =~= texts_of(cmds@.take(i as int)));
            assert(texts_of(cmds@.take(i + 1)).last() == cmds@[i as int]@);
        }
        i = i + 1;
    }
    proof {
        assert(cmds@.take(cmds@.len() as int) =~= cmds@);
    }
    r
}

/// Each group's raw command list turned into a prefixed command map.
pub open spec fn map_image(g: Map<Seq<char>, Seq<Seq<char>>>) -> Map<
    Seq<char>,
    Map<Seq<char>, Seq<char>>,
> {
    Map::new(|k: Seq<char>| g.dom().contains(k), |k: Seq<char>| spec_prefixed_cmdmap(g[k]))
}

/// What the baseline category's module map holds after an aggregation
/// pass over the given table and module snapshot.
pub open spec fn spec_samp_modules(slots: Seq<CommandSlot>, modules: Seq<ModuleEntry>) -> Map<
    Seq<char>,
    Map<Seq<char>, Seq<char>>,
> {
    map_image(spec_group_samp(slots, modules))
}

/// Turn the grouped native table into the baseline category's module map.
fn build_samp_modules(groups: &Vec<(String, Vec<String>)>) -> (r: ModuleMap)
    requires
        assoc_keys_unique(samp_groups_view(groups@)),
    ensures
        r.wf(),
        r@ == map_image(assoc_to_map(samp_groups_view(groups@))),
{
    let ghost gkv = samp_groups_view(groups@);
    let mut r = ModuleMap::new();
    let mut i: usize = 0;
    proof {
        assert(r@ =~= map_image(assoc_to_map(gkv.take(0))));
    }
    while i < groups.len()
        invariant
            i <= groups@.len(),
            gkv == samp_groups_view(groups@),
            assoc_keys_unique(gkv),
            r.wf(),
            r@ == map_image(assoc_to_map(gkv.take(i as int))),
        decreases groups@.len() - i,
    {
        let cm = build_cmdmap(&groups[i].1);
        let name = groups[i].0.clone();
        proof {
            let ghost pre = assoc_to_map(gkv.take(i as int));
            assert(gkv.take(i + 1).drop_last() =~= gkv.take(i as int));
            assert(gkv.take(i + 1).last() == gkv[i as int]);
            lemma_assoc_to_map_dom(gkv.take(i as int), gkv[i as int].0);
            assert forall|k: int|
                0 <= k < i implies (#[trigger] gkv.take(i as int)[k]).0
                != gkv[i as int].0 by {
                assert(gkv.take(i as int)[k] == gkv[k]);
            }
            assert(!pre.dom().contains(gkv[i as int].0));
            assert(map_image(assoc_to_map(gkv.take(i + 1))) =~= map_image(pre).insert(
                gkv[i as int].0,
                spec_prefixed_cmdmap(gkv[i as int].1),
            ));
        }
        r.insert_if_absent(name, cm);
        i = i + 1;
    }
    proof {
        assert(gkv.take(gkv.len() as int) =~= gkv);
    }
    r
}

/// The owners of one kind, each with its prefixed command map: how the
/// grouped companion records split into the two optional categories.
pub open spec fn spec_partition(
    g: Map<Seq<char>, (CommandType, Seq<Seq<char>>)>,
    t: CommandType,
) -> Map<Seq<char>, Map<Seq<char>, Seq<char>>> {
    Map::new(
        |k: Seq<char>| g.dom().contains(k) && g[k].0 == t,
        |k: Seq<char>| spec_prefixed_cmdmap(g[k].1),
    )
}

/// Split the grouped companion records into the plugin-owned and
/// script-owned module maps.
fn build_sf_partitions(groups: &Vec<(String, (CommandType, Vec<String>))>) -> (r: (
    ModuleMap,
    ModuleMap,
))
    requires
        assoc_keys_unique(sf_groups_view(groups@)),
    ensures
        r.0.wf(),
        r.1.wf(),
        r.0@ == spec_partition(assoc_to_map(sf_groups_view(groups@)), CommandType::PLUGIN),
        r.1@ == spec_partition(assoc_to_map(sf_groups_view(groups@)), CommandType::SCRIPT),
{
    let ghost gkv = sf_groups_view(groups@);
    let mut sf = ModuleMap::new();
    let mut cleo = ModuleMap::new();
    let mut i: usize = 0;
    proof {
        assert(sf@ =~= spec_partition(assoc_to_map(gkv.take(0)), CommandType::PLUGIN));
        assert(cleo@ =~= spec_partition(assoc_to_map(gkv.take(0)), CommandType::SCRIPT));
    }
    while i < groups.len()
        invariant
            i <= groups@.len(),
            gkv == sf_groups_view(groups@),
            assoc_keys_unique(gkv),
            sf.wf(),
            cleo.wf(),
            sf@ == spec_partition(assoc_to_map(gkv.take(i as int)), CommandType::PLUGIN),
            cleo@ == spec_partition(assoc_to_map(gkv.take(i as int)), CommandType::SCRIPT),
        decreases groups@.len() - i,
    {
        proof {
            let ghost pre = assoc_to_map(gkv.take(i as int));
            assert(gkv.take(i + 1).drop_last() =~= gkv.take(i as int));
            assert(gkv.take(i + 1).last() == gkv[i as int]);
            lemma_assoc_to_map_dom(gkv.take(i as int), gkv[i as int].0);
            assert forall|k: int|
                0 <= k < i implies (#[trigger] gkv.take(i as int)[k]).0
                != gkv[i as int].0 by {
                assert(gkv.take(i as int)[k] == gkv[k]);
            }
            assert(!pre.dom().contains(gkv[i as int].0));
            if gkv[i as int].1.0 == CommandType::PLUGIN {
                assert(spec_partition(assoc_to_map(gkv.take(i + 1)), CommandType::PLUGIN)
                    =~= spec_partition(pre, CommandType::PLUGIN).insert(
                    gkv[i as int].0,
                    spec_prefixed_cmdmap(gkv[i as int].1.1),
                ));
                assert(spec_partition(assoc_to_map(gkv.take(i + 1)), CommandType::SCRIPT)
                    =~= spec_partition(pre, CommandType::SCRIPT));
            } else if gkv[i as int].1.0 == CommandType::SCRIPT {
                assert(spec_partition(assoc_to_map(gkv.take(i + 1)), CommandType::SCRIPT)
                    =~= spec_partition(pre, CommandType::SCRIPT).insert(
                    gkv[i as int].0,
                    spec_prefixed_cmdmap(gkv[i as int].1.1),
                ));
                assert(spec_partition(assoc_to_map(gkv.take(i + 1)), CommandType::PLUGIN)
                    =~= spec_partition(pre, CommandType::PLUGIN));
            } else {
                assert(spec_partition(assoc_to_map(gkv.take(i + 1)), CommandType::PLUGIN)
                    =~= spec_partition(pre, CommandType::PLUGIN));
                assert(spec_partition(assoc_to_map(gkv.take(i + 1)), CommandType::SCRIPT)
                    =~= spec_partition(pre, CommandType::SCRIPT));
            }
        }
        let entry = &groups[i];
        match entry.1.0 {
            CommandType::PLUGIN => {
                let cm = build_cmdmap(&entry.1.1);
                sf.insert_if_absent(entry.0.clone(), cm);
            },
            CommandType::SCRIPT => {
                let cm = build_cmdmap(&entry.1.1);
                cleo.insert_if_absent(entry.0.clone(), cm);
            },
            CommandType::NOPE => {},
        }
        i = i + 1;
    }
    proof {
        assert(gkv.take(gkv.len() as int) =~= gkv);
    }
    (sf, cleo)
}

/// Address of the direct call instruction inside the host's idle routine
/// that is redirected to drive the state machine.
pub const ADDRESS_OF_CALL_DEFINED_STATE_IN_IDLE: u32 = 0x53EA8E;

/// The settling window between hook installation and the one-shot
/// aggregation, letting other components finish registering first.
pub const SETTLE_DELAY_MS: u64 = 3000;

/// Where the startup sequence stands; advanced once per host tick.
#[derive(Debug, Clone, Copy, PartialEq, Eq, Structural)]
pub enum InitState {
    /// The host has not yet set up its own subsystems: wait one tick.
    BeforeSampInit,
    /// Hooks can be installed now.
    AfterSampInit,
    /// Hooks are installed; waiting out the settling window that started
    /// at the recorded time.
    Initialized { since_ms: u64 },
    /// Aggregation has run; nothing is left to do.
    Nothing,
}

/// What the caller of a tick has to carry out.
#[derive(Debug, Clone, Copy, PartialEq, Eq, Structural)]
pub enum TickAction {
    /// Nothing this tick.
    Idle,
    /// Install the hooks and optional interceptions now.
    Install,
    /// Run the one-shot aggregation now.
    Aggregate,
}

/// One step of the initialization state machine at the given time.
pub open spec fn spec_tick(s: InitState, now_ms: u64) -> (InitState, TickAction) {
    match s {
        InitState::BeforeSampInit => (InitState::AfterSampInit, TickAction::Idle),
        InitState::AfterSampInit => (
            InitState::Initialized { since_ms: now_ms },
            TickAction::Install,
        ),
        InitState::Initialized { since_ms } => if now_ms > since_ms + SETTLE_DELAY_MS {
            (InitState::Nothing, TickAction::Aggregate)
        } else {
            (s, TickAction::Idle)
        },
        InitState::Nothing => (s, TickAction::Idle),
    }
}

/// Decide whether initialization may proceed: the patch site must still
/// hold the expected call opcode (anything else means a wrong host build
/// or a conflicting patch), and the network client's entry point must
/// resolve to a known build. On failure nothing gets installed.
pub fn plan_initialization(call_site_byte: u8, samp_entry_point: u32) -> (r: Result<
    samp::Version,
    Error,
>)
    ensures
        call_site_byte != CALL_OPCODE ==> r == Err::<samp::Version, Error>(
            Error::MaybeInvalidGameOrPluginConflicting,
        ),
        call_site_byte == CALL_OPCODE ==> match samp::spec_version_of_entry_point(
            samp_entry_point,
        ) {
            Some(v) => r == Ok::<samp::Version, Error>(v),
            None => r == Err::<samp::Version, Error>(Error::IncompatibleSampVersion),
        },
{
    if call_site_byte != CALL_OPCODE {
        return Err(Error::MaybeInvalidGameOrPluginConflicting);
    }
    match samp::get_version(samp_entry_point) {
        Some(v) => Ok(v),
        None => Err(Error::IncompatibleSampVersion),
    }
}

/// Message code of a left-button press in the host's window.
pub const WM_LBUTTONDOWN: u32 = 0x0201;

/// Whether the window hook keeps a message to itself instead of chaining
/// it: a left click that the overlay wants stays with the overlay, so
/// clicking a command does not close the chat.
pub fn swallow_message(msg: u32, overlay_wants_pointer: bool) -> (r: bool)
    ensures
        r == (msg == WM_LBUTTONDOWN && overlay_wants_pointer),
{
    msg == WM_LBUTTONDOWN && overlay_wants_pointer
}

/// The process-scoped context: the resolved host build, the published
/// command snapshot, and the state machine that sequences startup.
pub struct Plugin {
    commands: Categories,
    samp_base_address: u32,
    samp_version: samp::Version,
    state: InitState,
}

impl Plugin {
    /// The published snapshot.
    pub closed spec fn spec_commands(&self) -> Categories {
        self.commands
    }

    /// Where the startup sequence stands.
    pub closed spec fn spec_state(&self) -> InitState {
        self.state
    }

    pub closed spec fn spec_samp_version(&self) -> samp::Version {
        self.samp_version
    }

    pub closed spec fn spec_samp_base_address(&self) -> u32 {
        self.samp_base_address
    }

    /// The stored module maps are well formed.
    pub open spec fn wf(&self) -> bool {
        self.spec_commands().wf()
    }

    /// A fresh context: all four categories empty and hidden, the state
    /// machine at its first state.
    pub fn new(samp_base_address: u32, samp_version: samp::Version) -> (r: Plugin)
        ensures
            r.wf(),
            r.spec_samp_base_address() == samp_base_address,
            r.spec_samp_version() == samp_version,
            r.spec_state() == InitState::BeforeSampInit,
            r.spec_commands().order@ == seq![
                CategoryKey::Samp,
                CategoryKey::SfPlugin,
                CategoryKey::Cleo,
                CategoryKey::Lua,
            ],
            r.spec_commands().samp.name@ == "SA-MP"@,
            r.spec_commands().sf.name@ == "SF"@,
            r.spec_commands().cleo.name@ == "CLEO"@,
            r.spec_commands().lua.name@ == "Lua"@,
            !r.spec_commands().samp.is_visible,
            !r.spec_commands().sf.is_visible,
            !r.spec_commands().cleo.is_visible,
            !r.spec_commands().lua.is_visible,
            r.spec_commands().samp.modules@ == Map::<Seq<char>, Map<Seq<char>, Seq<char>>>::empty(),
            r.spec_commands().sf.modules@ == Map::<Seq<char>, Map<Seq<char>, Seq<char>>>::empty(),
            r.spec_commands().cleo.modules@ == Map::<Seq<char>, Map<Seq<char>, Seq<char>>>::empty(),
            r.spec_commands().lua.modules@ == Map::<Seq<char>, Map<Seq<char>, Seq<char>>>::empty(),
    {
        let order = [CategoryKey::Samp, CategoryKey::SfPlugin, CategoryKey::Cleo, CategoryKey::Lua];
        let commands = Categories {
            order,
            samp: Category::new(String::from_str("SA-MP")),
            sf: Category::new(String::from_str("SF")),
            cleo: Category::new(String::from_str("CLEO")),
            lua: Category::new(String::from_str("Lua")),
        };
        proof {
            assert(order@ =~= seq![
                CategoryKey::Samp,
                CategoryKey::SfPlugin,
                CategoryKey::Cleo,
                CategoryKey::Lua,
            ]);
        }
        Plugin { commands, samp_base_address, samp_version, state: InitState::BeforeSampInit }
    }

    /// The current snapshot, for the presentation boundary.
    pub fn commands(&self) -> (r: &Categories)
        ensures
            *r == self.spec_commands(),
    {
        &self.commands
    }

    /// One step of the startup sequence, driven by the host's repeated
    /// callback; the snapshot is untouched.
    pub fn tick(&mut self, now_ms: u64) -> (a: TickAction)
        ensures
            final(self).spec_state() == spec_tick(old(self).spec_state(), now_ms).0,
            a == spec_tick(old(self).spec_state(), now_ms).1,
            final(self).spec_commands() == old(self).spec_commands(),
            final(self).spec_samp_version() == old(self).spec_samp_version(),
            final(self).spec_samp_base_address() == old(self).spec_samp_base_address(),
    {
        match self.state {
            InitState::BeforeSampInit => {
                self.state = InitState::AfterSampInit;
                TickAction::Idle
            },
            InitState::AfterSampInit => {
                self.state = InitState::Initialized { since_ms: now_ms };
                TickAction::Install
            },
            InitState::Initialized { since_ms } => {
                if now_ms > since_ms && now_ms - since_ms > SETTLE_DELAY_MS {
                    self.state = InitState::Nothing;
                    TickAction::Aggregate
                } else {
                    TickAction::Idle
                }
            },
            InitState::Nothing => TickAction::Idle,
        }
    }

    /// One aggregation pass over both snapshot sources.
    ///
    /// The baseline category is rebuilt from the host's native table and
    /// made visible unconditionally, even when empty. When the companion
    /// library contributed records, each optional category is replaced
    /// and shown only if its share is non-empty, and is otherwise left as
    /// it was. The live script category is not touched here.
    pub fn parse_commands(
        &mut self,
        slots: &Vec<CommandSlot>,
        modules: &Vec<ModuleEntry>,
        sf_cmds: Option<&Vec<CommandInfo>>,
    )
        requires
            old(self).wf(),
        ensures
            final(self).wf(),
            final(self).spec_commands().samp.modules@ == spec_samp_modules(slots@, modules@),
            final(self).spec_commands().samp.is_visible,
            final(self).spec_commands().samp.name == old(self).spec_commands().samp.name,
            final(self).spec_commands().order == old(self).spec_commands().order,
            final(self).spec_commands().lua == old(self).spec_commands().lua,
            final(self).spec_state() == old(self).spec_state(),
            final(self).spec_samp_version() == old(self).spec_samp_version(),
            final(self).spec_samp_base_address() == old(self).spec_samp_base_address(),
            match sf_cmds {
                None => final(self).spec_commands().sf == old(self).spec_commands().sf && final(self).spec_commands().cleo == old(self).spec_commands().cleo,
                Some(v) => {
                    let g = spec_group_sf(v@);
                    let sf_part = spec_partition(g, CommandType::PLUGIN);
                    let cleo_part = spec_partition(g, CommandType::SCRIPT);
                    &&& if sf_part.dom() =~= Set::<Seq<char>>::empty() {
                        final(self).spec_commands().sf == old(self).spec_commands().sf
                    } else {
                        final(self).spec_commands().sf.modules@ == sf_part && final(self).spec_commands().sf.is_visible && final(self).spec_commands().sf.name
                            == old(self).spec_commands().sf.name
                    }
                    &&& if cleo_part.dom() =~= Set::<Seq<char>>::empty() {
                        final(self).spec_commands().cleo == old(self).spec_commands().cleo
                    } else {
                        final(self).spec_commands().cleo.modules@ == cleo_part && final(self).spec_commands().cleo.is_visible && final(self).spec_commands().cleo.name
                            == old(self).spec_commands().cleo.name
                    }
                },
            },
    {
        let samp_groups = get_samp_commands_grouped_by_module(slots, modules);
        let samp_modules = build_samp_modules(&samp_groups);
        self.commands.samp.modules = samp_modules;
        self.commands.samp.is_visible = true;

        if let Some(cmds) = sf_cmds {
            let sf_groups = get_sampfuncs_commands_grouped(cmds);
            let (sf_modules, cleo_modules) = build_sf_partitions(&sf_groups);

            if !sf_modules.is_empty() {
                self.commands.sf.modules = sf_modules;
                self.commands.sf.is_visible = true;
            }
            if !cleo_modules.is_empty() {
                self.commands.cleo.modules = cleo_modules;
                self.commands.cleo.is_visible = true;
            }
        }
    }

    /// Record one command the scripting loader registered live, under the
    /// registering script's display name; the category shows itself as
    /// soon as it holds anything.
    pub fn add_lua_command(&mut self, script_name: String, cmd: &str)
        requires
            old(self).wf(),
        ensures
            final(self).wf(),
            final(self).spec_commands().lua.modules@ == map_add_command(
                old(self).spec_commands().lua.modules@,
                script_name@,
                prefixed(cmd@),
            ),
            final(self).spec_commands().lua.is_visible,
            final(self).spec_commands().lua.name == old(self).spec_commands().lua.name,
            final(self).spec_commands().samp == old(self).spec_commands().samp,
            final(self).spec_commands().sf == old(self).spec_commands().sf,
            final(self).spec_commands().cleo == old(self).spec_commands().cleo,
            final(self).spec_commands().order == old(self).spec_commands().order,
            final(self).spec_state() == old(self).spec_state(),
            final(self).spec_samp_version() == old(self).spec_samp_version(),
            final(self).spec_samp_base_address() == old(self).spec_samp_base_address(),
    {
        let c = cmd_with_prefix(cmd);
        self.commands.lua.modules.add_command(script_name, c);
        proof {
            assert(self.commands.lua.modules@.dom().contains(script_name@));
        }
        self.commands.lua.is_visible = true;
    }

    /// Forget one command the scripting loader unregistered live; the
    /// category hides itself with its last command.
    pub fn remove_lua_command(&mut self, script_name: &String, cmd: &str)
        requires
            old(self).wf(),
        ensures
            final(self).wf(),
            final(self).spec_commands().lua.modules@ == map_remove_command(
                old(self).spec_commands().lua.modules@,
                script_name@,
                prefixed(cmd@),
            ),
            final(self).spec_commands().lua.is_visible <==> !(final(self).spec_commands().lua.modules@.dom() =~= Set::<Seq<char>>::empty()),
            final(self).spec_commands().lua.name == old(self).spec_commands().lua.name,
            final(self).spec_commands().samp == old(self).spec_commands().samp,
            final(self).spec_commands().sf == old(self).spec_commands().sf,
            final(self).spec_commands().cleo == old(self).spec_commands().cleo,
            final(self).spec_commands().order == old(self).spec_commands().order,
            final(self).spec_state() == old(self).spec_state(),
            final(self).spec_samp_version() == old(self).spec_samp_version(),
            final(self).spec_samp_base_address() == old(self).spec_samp_base_address(),
    {
        let c = cmd_with_prefix(cmd);
        self.commands.lua.modules.remove_command(script_name, &c);
        self.commands.lua.is_visible = !self.commands.lua.modules.is_empty();
    }
}

/// A raw command text that does not itself start with the marker.
pub open spec fn no_leading_marker(c: Seq<char>) -> bool {
    c.len() == 0 || c[0] != '/'
}

/// A published command text that carries the marker exactly once.
pub open spec fn marker_exactly_once(c: Seq<char>) -> bool {
    c.len() >= 1 && c[0] == '/' && (c.len() > 1 ==> c[1] != '/')
}

/// Every raw text of the list is free of a leading marker.
pub open spec fn cmds_unmarked(s: Seq<Seq<char>>) -> bool {
    forall|j: int| 0 <= j < s.len() ==> no_leading_marker(#[trigger] s[j])
}

/// Prefixing a list of unmarked texts yields keys that carry the marker
/// exactly once.
proof fn lemma_prefixed_cmdmap_marker(cmds: Seq<Seq<char>>)
    requires
        cmds_unmarked(cmds),
    ensures
        forall|c: Seq<char>|
            #[trigger] spec_prefixed_cmdmap(cmds).dom().contains(c) ==> marker_exactly_once(c),
    decreases cmds.len(),
{
    if cmds.len() > 0 {
        assert(cmds_unmarked(cmds.drop_last())) by {
            assert forall|j: int|
                0 <= j < cmds.drop_last().len() implies no_leading_marker(
                #[trigger] cmds.drop_last()[j]) by {
                assert(cmds.drop_last()[j] == cmds[j]);
            }
        }
        lemma_prefixed_cmdmap_marker(cmds.drop_last());
        assert(no_leading_marker(cmds.last()));
        assert(marker_exactly_once(prefixed(cmds.last())));
        assert forall|c: Seq<char>|
            #[trigger] spec_prefixed_cmdmap(cmds).dom().contains(c) implies marker_exactly_once(
            c,
        ) by {
            if c != prefixed(cmds.last()) {
                assert(spec_prefixed_cmdmap(cmds.drop_last()).dom().contains(c));
            }
        }
    }
}

/// Every command list the native-table grouping stores holds only texts
/// of the table's slots.
proof fn lemma_group_samp_unmarked(slots: Seq<CommandSlot>, modules: Seq<ModuleEntry>)
    requires
        forall|i: int|
            0 <= i < slots.len() ==> no_leading_marker(spec_slot_text(#[trigger] slots[i].name@)),
    ensures
        forall|m: Seq<char>|
            #[trigger] spec_group_samp(slots, modules).dom().contains(m) ==> cmds_unmarked(
                spec_group_samp(slots, modules)[m],
            ),
    decreases slots.len(),
{
    if slots.len() > 0 {
        let prev = slots.drop_last();
        assert forall|i: int|
            0 <= i < prev.len() implies no_leading_marker(
            spec_slot_text(#[trigger] prev[i].name@)) by {
            assert(prev[i] == slots[i]);
        }
        lemma_group_samp_unmarked(prev, modules);
        let g0 = spec_group_samp(prev, modules);
        let key = spec_owner_label(modules, slots.last().handler);
        let cmd = spec_slot_text(slots.last().name@);
        assert(slots[slots.len() - 1] == slots.last());
        assert(no_leading_marker(cmd));
        let g = spec_group_samp(slots, modules);
        assert forall|m: Seq<char>| #[trigger] g.dom().contains(m) implies cmds_unmarked(
            g[m],
        ) by {
            if m == key {
                if g0.dom().contains(key) {
                    assert(g[m] == g0[key].push(cmd));
                    assert forall|j: int| 0 <= j < g[m].len() implies no_leading_marker(
                    #[trigger] g[m][j]) by {
                        if j < g[m].len() - 1 {
                            assert(g[m][j] == g0[key][j]);
                        }
                    }
                } else {
                    assert(g[m] =~= seq![cmd]);
                }
            } else {
                assert(g[m] == g0[m]);
            }
        }
    }
}

/// Every command list the companion grouping stores holds only texts of
/// its records.
proof fn lemma_group_sf_unmarked(cmds: Seq<CommandInfo>)
    requires
        forall|i: int| 0 <= i < cmds.len() ==> no_leading_marker((#[trigger] cmds[i]).name.text()),
    ensures
        forall|m: Seq<char>|
            #[trigger] spec_group_sf(cmds).dom().contains(m) ==> cmds_unmarked(
                spec_group_sf(cmds)[m].1,
            ),
    decreases cmds.len(),
{
    if cmds.len() > 0 {
        let prev = cmds.drop_last();
        assert forall|i: int|
            0 <= i < prev.len() implies no_leading_marker((#[trigger] prev[i]).name.text()) by {
            assert(prev[i] == cmds[i]);
        }
        lemma_group_sf_unmarked(prev);
        let g0 = spec_group_sf(prev);
        let c = cmds.last();
        let key = spec_owner_name(c.owner);
        let text = c.name.text();
        assert(cmds[cmds.len() - 1] == c);
        assert(no_leading_marker(text));
        let g = spec_group_sf(cmds);
        assert forall|m: Seq<char>| #[trigger] g.dom().contains(m) implies cmds_unmarked(
            g[m].1,
        ) by {
            if m == key {
                if g0.dom().contains(key) {
                    assert(g[m].1 == g0[key].1.push(text));
                    assert forall|j: int| 0 <= j < g[m].1.len() implies no_leading_marker(
                    #[trigger] g[m].1[j]) by {
                        if j < g[m].1.len() - 1 {
                            assert(g[m].1[j] == g0[key].1[j]);
                        }
                    }
                } else {
                    assert(g[m].1 =~= seq![text]);
                }
            } else {
                assert(g[m] == g0[m]);
            }
        }
    }
}

/// Law: an aggregation pass never publishes a command without the marker,
/// and never with it twice, as long as no source text already starts
/// with the marker. (A source command that itself begins with the marker
/// would be published with two.) Publishing a command at most once per
/// module is the key uniqueness that every command map carries by
/// construction.
pub proof fn lemma_aggregation_marker_exactly_once(
    slots: Seq<CommandSlot>,
    modules: Seq<ModuleEntry>,
    cmds: Seq<CommandInfo>,
)
    requires
        forall|i: int|
            0 <= i < slots.len() ==> no_leading_marker(spec_slot_text(#[trigger] slots[i].name@)),
        forall|i: int| 0 <= i < cmds.len() ==> no_leading_marker((#[trigger] cmds[i]).name.text()),
    ensures
        forall|m: Seq<char>, c: Seq<char>|
            #![trigger spec_samp_modules(slots, modules)[m].dom().contains(c)]
            spec_samp_modules(slots, modules).dom().contains(m) && spec_samp_modules(
                slots,
                modules,
            )[m].dom().contains(c) ==> marker_exactly_once(c),
        forall|t: CommandType, m: Seq<char>, c: Seq<char>|
            #![trigger spec_partition(spec_group_sf(cmds), t)[m].dom().contains(c)]
            spec_partition(spec_group_sf(cmds), t).dom().contains(m) && spec_partition(
                spec_group_sf(cmds),
                t,
            )[m].dom().contains(c) ==> marker_exactly_once(c),
{
    lemma_group_samp_unmarked(slots, modules);
    let g = spec_group_samp(slots, modules);
    assert forall|m: Seq<char>, c: Seq<char>|
        spec_samp_modules(slots, modules).dom().contains(m) && #[trigger] spec_samp_modules(
            slots,
            modules,
        )[m].dom().contains(c) implies marker_exactly_once(c) by {
        assert(g.dom().contains(m));
        lemma_prefixed_cmdmap_marker(g[m]);
    }
    lemma_group_sf_unmarked(cmds);
    let gs = spec_group_sf(cmds);
    assert forall|t: CommandType, m: Seq<char>, c: Seq<char>|
        spec_partition(gs, t).dom().contains(m) && #[trigger] spec_partition(gs, t)[m].dom()
            .contains(c) implies marker_exactly_once(c) by {
        assert(gs.dom().contains(m));
        lemma_prefixed_cmdmap_marker(gs[m].1);
    }
}

/// Every command key of every module of the map carries the marker
/// exactly once.
pub open spec fn all_keys_marked(m: Map<Seq<char>, Map<Seq<char>, Seq<char>>>) -> bool {
    forall|module: Seq<char>, c: Seq<char>|
        m.dom().contains(module) && #[trigger] m[module].dom().contains(c) ==> marker_exactly_once(
            c,
        )
}

/// Law: after the one-shot aggregation pass, every command key of every
/// category carries the marker exactly once — provided no source text
/// does already, and whatever the pass left in place was marked before,
/// as the empty categories at the machine's single pass are. The
/// hypotheses on `new_cats` are clauses of what `parse_commands`
/// ensures.
pub proof fn lemma_aggregation_pass_markers(
    old_cats: Categories,
    new_cats: Categories,
    slots: Seq<CommandSlot>,
    modules: Seq<ModuleEntry>,
    cmds: Seq<CommandInfo>,
)
    requires
        forall|i: int|
            0 <= i < slots.len() ==> no_leading_marker(spec_slot_text(#[trigger] slots[i].name@)),
        forall|i: int| 0 <= i < cmds.len() ==> no_leading_marker((#[trigger] cmds[i]).name.text()),
        all_keys_marked(old_cats.sf.modules@),
        all_keys_marked(old_cats.cleo.modules@),
        all_keys_marked(old_cats.lua.modules@),
        new_cats.samp.modules@ == spec_samp_modules(slots, modules),
        new_cats.sf.modules@ == old_cats.sf.modules@ || new_cats.sf.modules@ == spec_partition(
            spec_group_sf(cmds),
            CommandType::PLUGIN,
        ),
        new_cats.cleo.modules@ == old_cats.cleo.modules@ || new_cats.cleo.modules@
            == spec_partition(spec_group_sf(cmds), CommandType::SCRIPT),
        new_cats.lua.modules@ == old_cats.lua.modules@,
    ensures
        all_keys_marked(new_cats.samp.modules@),
        all_keys_marked(new_cats.sf.modules@),
        all_keys_marked(new_cats.cleo.modules@),
        all_keys_marked(new_cats.lua.modules@),
{
    lemma_aggregation_marker_exactly_once(slots, modules, cmds);
}

/// Law: the live script path keeps every published key marked. Adding a
/// command stores it behind the marker; removing one never adds keys.
pub proof fn lemma_live_commands_marked(
    m: Map<Seq<char>, Map<Seq<char>, Seq<char>>>,
    script: Seq<char>,
    cmd: Seq<char>,
)
    requires
        all_keys_marked(m),
        no_leading_marker(cmd),
    ensures
        all_keys_marked(map_add_command(m, script, prefixed(cmd))),
        forall|c: Seq<char>| all_keys_marked(#[trigger] map_remove_command(m, script, c)),
{
    let added = map_add_command(m, script, prefixed(cmd));
    assert(marker_exactly_once(prefixed(cmd)));
    assert forall|module: Seq<char>, c: Seq<char>|
        added.dom().contains(module) && #[trigger] added[module].dom().contains(
            c,
        ) implies marker_exactly_once(c) by {
        if module == script {
            if c != prefixed(cmd) {
                assert(m.dom().contains(script) && m[script].dom().contains(c));
            }
        } else {
            assert(m.dom().contains(module) && m[module].dom().contains(c));
        }
    }
    assert forall|rc: Seq<char>| all_keys_marked(#[trigger] map_remove_command(m, script, rc)) by {
        let removed = map_remove_command(m, script, rc);
        assert forall|module: Seq<char>, c: Seq<char>|
            removed.dom().contains(module) && #[trigger] removed[module].dom().contains(
                c,
            ) implies marker_exactly_once(c) by {
            assert(m.dom().contains(module) && m[module].dom().contains(c));
        }
    }
}

/// Law: after an aggregation pass that started from a fresh, hidden
/// category, an optional category is visible exactly when its module map
/// is non-empty. The hypothesis is the clause `parse_commands` ensures
/// for that category when companion records were supplied.
pub proof fn lemma_optional_visibility(
    g: Map<Seq<char>, (CommandType, Seq<Seq<char>>)>,
    old_cat: Category,
    new_cat: Category,
    t: CommandType,
)
    requires
        old_cat.modules@.dom() =~= Set::<Seq<char>>::empty(),
        !old_cat.is_visible,
        if spec_partition(g, t).dom() =~= Set::<Seq<char>>::empty() {
            new_cat == old_cat
        } else {
            new_cat.modules@ == spec_partition(g, t) && new_cat.is_visible
        },
    ensures
        new_cat.is_visible <==> !(new_cat.modules@.dom() =~= Set::<Seq<char>>::empty()),
{
}

/// The run of the state machine over a sequence of tick times.
pub open spec fn spec_run(s: InitState, times: Seq<u64>) -> InitState
    decreases times.len(),
{
    if times.len() == 0 {
        s
    } else {
        spec_run(spec_tick(s, times[0]).0, times.drop_first())
    }
}

/// How many ticks of the run aggregate.
pub open spec fn spec_aggregation_count(s: InitState, times: Seq<u64>) -> nat
    decreases times.len(),
{
    if times.len() == 0 {
        0
    } else {
        (if spec_tick(s, times[0]).1 == TickAction::Aggregate {
            1nat
        } else {
            0nat
        }) + spec_aggregation_count(spec_tick(s, times[0]).0, times.drop_first())
    }
}

/// Law: no tick aggregates before the settling window has passed since
/// the settling state was entered.
pub proof fn lemma_no_early_aggregation(s: InitState, now_ms: u64)
    ensures
        spec_tick(s, now_ms).1 == TickAction::Aggregate ==> s is Initialized && now_ms
            > s->since_ms + SETTLE_DELAY_MS,
        spec_tick(s, now_ms).1 == TickAction::Aggregate ==> spec_tick(s, now_ms).0
            == InitState::Nothing,
{
}

/// The terminal state neither acts nor moves.
proof fn lemma_nothing_quiescent(times: Seq<u64>)
    ensures
        spec_run(InitState::Nothing, times) == InitState::Nothing,
        spec_aggregation_count(InitState::Nothing, times) == 0,
    decreases times.len(),
{
    if times.len() > 0 {
        lemma_nothing_quiescent(times.drop_first());
    }
}

/// Law: however the ticks fall, a run aggregates at most once.
pub proof fn lemma_aggregation_at_most_once(s: InitState, times: Seq<u64>)
    ensures
        spec_aggregation_count(s, times) <= 1,
    decreases times.len(),
{
    if times.len() > 0 {
        let (s1, a) = spec_tick(s, times[0]);
        if a == TickAction::Aggregate {
            assert(s1 == InitState::Nothing);
            lemma_nothing_quiescent(times.drop_first());
        } else {
            lemma_aggregation_at_most_once(s1, times.drop_first());
        }
    }
}

/// Law: once settling has started, a run that reaches past the settling
/// window aggregates exactly once.
pub proof fn lemma_aggregation_exactly_once(since_ms: u64, times: Seq<u64>)
    requires
        exists|i: int| 0 <= i < times.len() && times[i] > since_ms + SETTLE_DELAY_MS,
    ensures
        spec_aggregation_count(InitState::Initialized { since_ms }, times) == 1,
    decreases times.len(),
{
    let s = InitState::Initialized { since_ms };
    if times[0] > since_ms + SETTLE_DELAY_MS {
        lemma_nothing_quiescent(times.drop_first());
    } else {
        let i = choose|i: int| 0 <= i < times.len() && times[i] > since_ms + SETTLE_DELAY_MS;
        assert(times.drop_first()[i - 1] == times[i]);
        assert(spec_tick(s, times[0]).0 == s);
        lemma_aggregation_exactly_once(since_ms, times.drop_first());
    }
}

} // verus!