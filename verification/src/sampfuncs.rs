//! Data model of the companion library's command source.
//!
//! The companion library exposes its registered chat commands as a foreign
//! vector of command records. Each record names its command and its owner:
//! nobody, a script thread, or a plugin. The records are decoded into the
//! types here by whoever walks the foreign memory; all reading of names
//! goes through the C++ string decoder.

use vstd::prelude::*;
use crate::cppstd::{bytes_before_nul, lossy_text_of, lossy_string, prefix_before_nul, StdString};

verus! {

/// The owner kind stored in a command record.
#[derive(Debug, Clone, Copy, PartialEq, Eq, Structural)]
pub enum CommandType {
    NOPE,
    SCRIPT,
    PLUGIN,
}

/// One script thread of the game's scripting runtime, as laid out in the
/// host: two sibling pointers, then the fixed eight-byte thread name.
pub struct ScmThread {
    pub next: u32,
    pub prev: u32,
    pub thread_name: Vec<u8>,
}

impl ScmThread {
    /// The stored name buffer has its fixed eight bytes.
    pub open spec fn wf(&self) -> bool {
        self.thread_name@.len() == 8
    }

    /// The text of the thread's name field, up to its terminating null.
    pub open spec fn spec_thread_name(&self) -> Seq<char> {
        lossy_text_of(bytes_before_nul(self.thread_name@))
    }

    /// Decode the thread's name field: the companion library names a
    /// script thread by exactly this field of the thread record.
    pub fn thread_name(&self) -> (r: String)
        ensures
            r@ == self.spec_thread_name(),
    {
        let bytes = prefix_before_nul(&self.thread_name);
        lossy_string(&bytes)
    }
}

/// One plugin record of the companion library: its module handle and its
/// declared name.
pub struct SfPluginInfo {
    pub handle: u32,
    pub name: StdString,
}

impl SfPluginInfo {
    /// The text of the plugin's declared name.
    pub open spec fn spec_plugin_name(&self) -> Seq<char> {
        self.name.text()
    }

    /// Decode the plugin's declared name.
    pub fn plugin_name(&self) -> (r: String)
        ensures
            r@ == self.spec_plugin_name(),
    {
        self.name.to_string()
    }
}

/// The owner a command record points at, decoded per the record's tag: a
/// tagged union, not inheritance.
pub enum CmdOwner {
    Nope,
    Script(ScmThread),
    Plugin(SfPluginInfo),
}

impl CmdOwner {
    /// The tag this owner decodes from.
    pub open spec fn spec_owner_type(&self) -> CommandType {
        match self {
            CmdOwner::Nope => CommandType::NOPE,
            CmdOwner::Script(_) => CommandType::SCRIPT,
            CmdOwner::Plugin(_) => CommandType::PLUGIN,
        }
    }
}

/// One registered command as the companion library lists it: the command
/// text and its decoded owner.
pub struct CommandInfo {
    pub name: StdString,
    pub owner: CmdOwner,
}

impl CommandInfo {
    /// The stored owner tag.
    pub fn owner_type(&self) -> (r: CommandType)
        ensures
            r == self.owner.spec_owner_type(),
    {
        match &self.owner {
            CmdOwner::Nope => CommandType::NOPE,
            CmdOwner::Script(_) => CommandType::SCRIPT,
            CmdOwner::Plugin(_) => CommandType::PLUGIN,
        }
    }

    /// The command's owner, as the stored tag determines it.
    pub fn owner(&self) -> (r: &CmdOwner)
        ensures
            *r == self.owner,
    {
        &self.owner
    }
}

} // verus!