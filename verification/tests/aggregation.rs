use samp_cmd_helper::cmd_storage::{cmd_with_prefix, Categories, Category, CommandMap, ModuleMap};
use samp_cmd_helper::cppstd::{StdString, StdStringData};
use samp_cmd_helper::plugin::{
    get_samp_commands_grouped_by_module, get_sampfuncs_commands_grouped, CommandSlot, Plugin,
};
use samp_cmd_helper::samp;
use samp_cmd_helper::sampfuncs::{CmdOwner, CommandInfo, CommandType, ScmThread, SfPluginInfo};
use samp_cmd_helper::utils::{find_module_name_that_owns_address_list, ModuleEntry};

fn inline_string(text: &[u8]) -> StdString {
    assert!(text.len() < 16);
    let mut buf = vec![0u8; 16];
    buf[..text.len()].copy_from_slice(text);
    StdString {
        data: StdStringData::Inline { buf },
        size: text.len() as u32,
        capacity: 15,
    }
}

fn slot(name: &[u8], handler: u32) -> CommandSlot {
    let mut buf = vec![0u8; 33];
    buf[..name.len()].copy_from_slice(name);
    CommandSlot { name: buf, handler }
}

fn module(name: &str, base: u32, size: u32) -> ModuleEntry {
    ModuleEntry {
        name: name.to_string(),
        base,
        size,
    }
}

fn core_module() -> Vec<ModuleEntry> {
    vec![module("core", 0x4000, 0x2000)]
}

fn commands_of<'a>(cat: &'a Category, module_name: &str) -> &'a CommandMap {
    let mm: &ModuleMap = &cat.modules;
    for i in 0..mm.len() {
        if mm.name_at(i) == module_name {
            return mm.commands_at(i);
        }
    }
    panic!("module {} not listed", module_name);
}

fn keys_of(cm: &CommandMap) -> Vec<String> {
    let mut r = Vec::new();
    for i in 0..cm.len() {
        r.push(cm.key_at(i).clone());
    }
    r
}

#[test]
fn prefix_is_prepended_exactly_once() {
    assert_eq!(cmd_with_prefix("cmd1"), "/cmd1");
    assert_eq!(cmd_with_prefix(""), "/");
}

#[test]
fn two_slots_of_one_module_aggregate_under_it() {
    let mut p = Plugin::new(0x400000, samp::Version::V037R1);
    let slots = vec![slot(b"cmd1", 0x5000), slot(b"cmd2", 0x5004)];
    p.parse_commands(&slots, &core_module(), None);

    let cats: &Categories = p.commands();
    assert!(cats.samp.is_visible);
    assert_eq!(cats.samp.modules.len(), 1);
    assert_eq!(cats.samp.modules.name_at(0), "core");
    let cm = commands_of(&cats.samp, "core");
    assert_eq!(keys_of(cm), vec!["/cmd1".to_string(), "/cmd2".to_string()]);
    assert_eq!(cm.value_at(0), "");
    assert_eq!(cm.value_at(1), "");
}

#[test]
fn without_companion_library_only_baseline_is_populated() {
    let mut p = Plugin::new(0x400000, samp::Version::V037R1);
    let slots = vec![slot(b"cmd1", 0x5000)];
    p.parse_commands(&slots, &core_module(), None);

    let cats = p.commands();
    assert!(cats.samp.is_visible);
    assert!(!cats.sf.is_visible);
    assert!(cats.sf.modules.is_empty());
    assert!(!cats.cleo.is_visible);
    assert!(cats.cleo.modules.is_empty());
    assert!(!cats.lua.is_visible);
    assert!(cats.lua.modules.is_empty());
}

#[test]
fn baseline_visibility_is_fixed_true_even_when_empty() {
    // Deliberate asymmetry of the baseline source: its header renders even
    // with no modules, unlike the optional categories. Candidate for
    // revision; this asserts the behavior as it stands.
    let mut p = Plugin::new(0x400000, samp::Version::V037R1);
    p.parse_commands(&Vec::new(), &core_module(), None);
    let cats = p.commands();
    assert!(cats.samp.is_visible);
    assert!(cats.samp.modules.is_empty());
}

#[test]
fn duplicate_registrations_emit_one_command_per_module() {
    let mut p = Plugin::new(0x400000, samp::Version::V037R1);
    let slots = vec![slot(b"same", 0x5000), slot(b"same", 0x5004)];
    p.parse_commands(&slots, &core_module(), None);
    let cm = commands_of(&p.commands().samp, "core");
    assert_eq!(keys_of(cm), vec!["/same".to_string()]);
}

#[test]
fn unowned_handler_files_under_the_placeholder() {
    let mut p = Plugin::new(0x400000, samp::Version::V037R1);
    let slots = vec![slot(b"stray", 0x9999)];
    p.parse_commands(&slots, &core_module(), None);
    let cm = commands_of(&p.commands().samp, "unknown");
    assert_eq!(keys_of(cm), vec!["/stray".to_string()]);
}

#[test]
fn slot_name_without_null_decodes_to_placeholder() {
    let name = [b'x'; 33];
    let slots = vec![CommandSlot {
        name: name.to_vec(),
        handler: 0x5000,
    }];
    let groups = get_samp_commands_grouped_by_module(&slots, &core_module());
    assert_eq!(groups.len(), 1);
    assert_eq!(groups[0].1, vec!["unknown".to_string()]);
}

#[test]
fn module_range_contains_its_base_and_excludes_its_end() {
    let modules = core_module();
    let addresses = vec![0x3FFF, 0x4000, 0x5FFF, 0x6000];
    let names = find_module_name_that_owns_address_list(&addresses, &modules);
    assert_eq!(names[0], None);
    assert_eq!(names[1], Some("core".to_string()));
    assert_eq!(names[2], Some("core".to_string()));
    assert_eq!(names[3], None);
}

#[test]
fn first_listed_module_wins_overlapping_ranges() {
    let modules = vec![module("first", 0x4000, 0x2000), module("second", 0x4000, 0x2000)];
    let names = find_module_name_that_owns_address_list(&vec![0x5000], &modules);
    assert_eq!(names[0], Some("first".to_string()));
}

fn script_owned(cmd: &[u8], thread: &[u8; 8]) -> CommandInfo {
    CommandInfo {
        name: inline_string(cmd),
        owner: CmdOwner::Script(ScmThread {
            next: 0,
            prev: 0,
            thread_name: thread.to_vec(),
        }),
    }
}

fn plugin_owned(cmd: &[u8], plugin: &[u8]) -> CommandInfo {
    CommandInfo {
        name: inline_string(cmd),
        owner: CmdOwner::Plugin(SfPluginInfo {
            handle: 1,
            name: inline_string(plugin),
        }),
    }
}

#[test]
fn companion_records_partition_by_owner_kind() {
    let mut p = Plugin::new(0x400000, samp::Version::V037R1);
    let records = vec![
        plugin_owned(b"pcmd", b"MyPlug"),
        script_owned(b"scmd", b"abc \0\0\0\0"),
        CommandInfo {
            name: inline_string(b"ownerless"),
            owner: CmdOwner::Nope,
        },
    ];
    p.parse_commands(&Vec::new(), &core_module(), Some(&records));

    let cats = p.commands();
    assert!(cats.sf.is_visible);
    assert_eq!(cats.sf.modules.len(), 1);
    assert_eq!(cats.sf.modules.name_at(0), "MyPlug");
    assert_eq!(keys_of(commands_of(&cats.sf, "MyPlug")), vec!["/pcmd".to_string()]);

    assert!(cats.cleo.is_visible);
    assert_eq!(cats.cleo.modules.len(), 1);
    // trailing whitespace of the thread name is trimmed before the
    // script-file extension is attached
    assert_eq!(cats.cleo.modules.name_at(0), "abc.cs");
    assert_eq!(keys_of(commands_of(&cats.cleo, "abc.cs")), vec!["/scmd".to_string()]);
}

#[test]
fn optional_category_visible_iff_nonempty() {
    let mut p = Plugin::new(0x400000, samp::Version::V037R1);
    let records = vec![plugin_owned(b"pcmd", b"MyPlug")];
    p.parse_commands(&Vec::new(), &core_module(), Some(&records));

    let cats = p.commands();
    assert_eq!(cats.sf.is_visible, !cats.sf.modules.is_empty());
    assert_eq!(cats.cleo.is_visible, !cats.cleo.modules.is_empty());
    assert!(cats.sf.is_visible);
    assert!(!cats.cleo.is_visible);
}

#[test]
fn owner_kind_of_first_record_wins_per_owner_name() {
    let records = vec![plugin_owned(b"one", b"Dual"), plugin_owned(b"two", b"Dual")];
    let groups = get_sampfuncs_commands_grouped(&records);
    assert_eq!(groups.len(), 1);
    assert_eq!(groups[0].0, "Dual");
    assert_eq!(groups[0].1 .0, CommandType::PLUGIN);
    assert_eq!(groups[0].1 .1, vec!["one".to_string(), "two".to_string()]);
}

#[test]
fn live_script_commands_come_and_go_with_visibility() {
    let mut p = Plugin::new(0x400000, samp::Version::V037R1);
    p.add_lua_command("script.lua".to_string(), "hi");
    p.add_lua_command("script.lua".to_string(), "hi");
    p.add_lua_command("script.lua".to_string(), "bye");

    let cats = p.commands();
    assert!(cats.lua.is_visible);
    assert_eq!(cats.lua.modules.len(), 1);
    let cm = commands_of(&cats.lua, "script.lua");
    assert_eq!(keys_of(cm), vec!["/hi".to_string(), "/bye".to_string()]);

    p.remove_lua_command(&"script.lua".to_string(), "hi");
    p.remove_lua_command(&"script.lua".to_string(), "bye");
    let cats = p.commands();
    assert!(cats.lua.modules.is_empty());
    assert!(!cats.lua.is_visible);
}

#[test]
fn categories_iterate_in_display_order() {
    let p = Plugin::new(0x400000, samp::Version::V037R1);
    let mut it = p.commands().iter();
    let names: Vec<String> = {
        let mut v = Vec::new();
        while let Some(cat) = it.next() {
            v.push(cat.name.clone());
        }
        v
    };
    assert_eq!(
        names,
        vec![
            "SA-MP".to_string(),
            "SF".to_string(),
            "CLEO".to_string(),
            "Lua".to_string()
        ]
    );
}

#[test]
fn fresh_categories_are_empty_and_named() {
    let p = Plugin::new(0x400000, samp::Version::V037R1);
    let cats = p.commands();
    assert!(cats.is_empty());
    let c = Category::new("fresh".to_string());
    assert!(!c.is_visible);
    assert_eq!(c.name, "fresh");
    assert!(c.modules.is_empty());
}

#[test]
fn command_map_keeps_first_binding_and_removes_cleanly() {
    let mut cm = CommandMap::new();
    assert!(cm.is_empty());
    cm.insert_if_absent("/a".to_string(), "first".to_string());
    cm.insert_if_absent("/a".to_string(), "second".to_string());
    cm.insert_if_absent("/b".to_string(), String::new());
    assert_eq!(cm.len(), 2);
    assert!(cm.contains_key(&"/a".to_string()));
    assert_eq!(cm.value_at(0), "first");
    cm.remove(&"/a".to_string());
    assert_eq!(cm.len(), 1);
    assert!(!cm.contains_key(&"/a".to_string()));
    cm.remove(&"/missing".to_string());
    assert_eq!(cm.len(), 1);
}
