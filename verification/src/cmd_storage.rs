//! Command storage: categorized, deduplicated maps of chat commands.
//!
//! Commands are grouped by the module, script or plugin that registered
//! them. Each map is an association list with unique keys; its mathematical
//! view is a `Map` from key characters to the stored value, so the contracts
//! speak the language of finite maps while the code stays a plain vector.

use vstd::prelude::*;

verus! {

/// Marker prepended to every command shown in the overlay.
pub const CMD_PREFIX: &'static str = "/";

/// View of a command string once the command marker has been prepended.
pub open spec fn prefixed(cmd: Seq<char>) -> Seq<char> {
    seq!['/'] + cmd
}

/// Insert-if-absent on a mathematical map: an existing binding wins.
pub open spec fn map_insert_if_absent<V>(m: Map<Seq<char>, V>, k: Seq<char>, v: V) -> Map<
    Seq<char>,
    V,
> {
    if m.dom().contains(k) {
        m
    } else {
        m.insert(k, v)
    }
}

/// All keys of an association sequence are distinct.
pub open spec fn assoc_keys_unique<V>(s: Seq<(Seq<char>, V)>) -> bool {
    forall|i: int, j: int| 0 <= i < j < s.len() ==> (#[trigger] s[i]).0 != (#[trigger] s[j]).0
}

/// The finite map described by an association sequence (later pairs win,
/// which does not matter once keys are unique).
pub open spec fn assoc_to_map<V>(s: Seq<(Seq<char>, V)>) -> Map<Seq<char>, V>
    decreases s.len(),
{
    if s.len() == 0 {
        Map::empty()
    } else {
        assoc_to_map(s.drop_last()).insert(s.last().0, s.last().1)
    }
}

/// The domain of the association map is exactly the set of listed keys.
pub proof fn lemma_assoc_to_map_dom<V>(s: Seq<(Seq<char>, V)>, k: Seq<char>)
    ensures
        assoc_to_map(s).dom().contains(k) <==> exists|i: int|
            0 <= i < s.len() && (#[trigger] s[i]).0 == k,
    decreases s.len(),
{
    if s.len() > 0 {
        lemma_assoc_to_map_dom(s.drop_last(), k);
        if s.last().0 == k {
            assert(s[s.len() - 1].0 == k);
        } else if assoc_to_map(s).dom().contains(k) {
            let i = choose|i: int| 0 <= i < s.drop_last().len() && (#[trigger] s.drop_last()[i]).0
                == k;
            assert(s[i].0 == k);
        } else {
            assert forall|i: int| 0 <= i < s.len() implies (#[trigger] s[i]).0 != k by {
                if i < s.len() - 1 {
                    assert(s.drop_last()[i] == s[i]);
                }
            }
        }
    }
}

/// With unique keys, each listed pair is a binding of the association map.
pub proof fn lemma_assoc_to_map_value<V>(s: Seq<(Seq<char>, V)>, i: int)
    requires
        assoc_keys_unique(s),
        0 <= i < s.len(),
    ensures
        assoc_to_map(s).dom().contains(s[i].0),
        assoc_to_map(s)[s[i].0] == s[i].1,
    decreases s.len(),
{
    if i < s.len() - 1 {
        assert(s.drop_last()[i] == s[i]);
        lemma_assoc_to_map_value(s.drop_last(), i);
        assert(s[i].0 != s.last().0);
    }
}

/// Appending a pair binds its key, and keeps uniqueness for a fresh key.
pub proof fn lemma_assoc_to_map_push<V>(s: Seq<(Seq<char>, V)>, k: Seq<char>, v: V)
    ensures
        assoc_to_map(s.push((k, v))) == assoc_to_map(s).insert(k, v),
        assoc_keys_unique(s) && (forall|i: int| 0 <= i < s.len() ==> (#[trigger] s[i]).0 != k)
            ==> assoc_keys_unique(s.push((k, v))),
{
    let t = s.push((k, v));
    assert(t.drop_last() =~= s);
    assert(t.last() == (k, v));
    if assoc_keys_unique(s) && (forall|i: int| 0 <= i < s.len() ==> (#[trigger] s[i]).0 != k) {
        assert forall|i: int, j: int| 0 <= i < j < t.len() implies (#[trigger] t[i]).0 != (
        #[trigger] t[j]).0 by {
            assert(t[i] == s[i]);
            if j < t.len() - 1 {
                assert(t[j] == s[j]);
            }
        }
    }
}

/// Replacing the value at position `i` is insertion at the listed key.
pub proof fn lemma_assoc_to_map_update<V>(s: Seq<(Seq<char>, V)>, i: int, v: V)
    requires
        assoc_keys_unique(s),
        0 <= i < s.len(),
    ensures
        assoc_to_map(s.update(i, (s[i].0, v))) == assoc_to_map(s).insert(s[i].0, v),
        assoc_keys_unique(s.update(i, (s[i].0, v))),
    decreases s.len(),
{
    let t = s.update(i, (s[i].0, v));
    assert forall|p: int, q: int| 0 <= p < q < t.len() implies (#[trigger] t[p]).0 != (
    #[trigger] t[q]).0 by {
        assert(t[p].0 == s[p].0);
        assert(t[q].0 == s[q].0);
    }
    if i == s.len() - 1 {
        assert(t.drop_last() =~= s.drop_last());
        assert(assoc_to_map(t) =~= assoc_to_map(s).insert(s[i].0, v));
    } else {
        assert(s.drop_last()[i] == s[i]);
        assert(assoc_keys_unique(s.drop_last())) by {
            assert forall|p: int, q: int|
                0 <= p < q < s.drop_last().len() implies (#[trigger] s.drop_last()[p]).0 != (
            #[trigger] s.drop_last()[q]).0 by {
                assert(s.drop_last()[p] == s[p]);
                assert(s.drop_last()[q] == s[q]);
            }
        }
        lemma_assoc_to_map_update(s.drop_last(), i, v);
        assert(t.drop_last() =~= s.drop_last().update(i, (s[i].0, v)));
        assert(t.last() == s.last());
        assert(s[i].0 != s.last().0);
        assert(assoc_to_map(t) =~= assoc_to_map(s).insert(s[i].0, v));
    }
}

/// Removing the pair at position `i` removes exactly its key.
pub proof fn lemma_assoc_to_map_remove<V>(s: Seq<(Seq<char>, V)>, i: int)
    requires
        assoc_keys_unique(s),
        0 <= i < s.len(),
    ensures
        assoc_to_map(s.remove(i)) == assoc_to_map(s).remove(s[i].0),
        assoc_keys_unique(s.remove(i)),
    decreases s.len(),
{
    let t = s.remove(i);
    assert forall|p: int, q: int| 0 <= p < q < t.len() implies (#[trigger] t[p]).0 != (
    #[trigger] t[q]).0 by {
        if p < i {
            assert(t[p] == s[p]);
        } else {
            assert(t[p] == s[p + 1]);
        }
        if q < i {
            assert(t[q] == s[q]);
        } else {
            assert(t[q] == s[q + 1]);
        }
    }
    assert(assoc_keys_unique(s.drop_last())) by {
        assert forall|p: int, q: int|
            0 <= p < q < s.drop_last().len() implies (#[trigger] s.drop_last()[p]).0 != (
        #[trigger] s.drop_last()[q]).0 by {
            assert(s.drop_last()[p] == s[p]);
            assert(s.drop_last()[q] == s[q]);
        }
    }
    if i == s.len() - 1 {
        assert(t =~= s.drop_last());
        assert(!assoc_to_map(s.drop_last()).dom().contains(s[i].0)) by {
            lemma_assoc_to_map_dom(s.drop_last(), s[i].0);
            assert forall|p: int|
                0 <= p < s.drop_last().len() implies (#[trigger] s.drop_last()[p]).0 != s[i].0 by {
                assert(s.drop_last()[p] == s[p]);
            }
        }
        assert(assoc_to_map(t) =~= assoc_to_map(s).remove(s[i].0));
    } else {
        assert(s.drop_last()[i] == s[i]);
        lemma_assoc_to_map_remove(s.drop_last(), i);
        assert(t.drop_last() =~= s.drop_last().remove(i));
        assert(t.last() == s.last());
        assert(s[i].0 != s.last().0);
        assert(assoc_to_map(t) =~= assoc_to_map(s).remove(s[i].0));
    }
}

/// `command` with the command marker prepended.
pub fn cmd_with_prefix(command: &str) -> (r: String)
    ensures
        r@ == prefixed(command@),
{
    proof {
        reveal_strlit("/");
    }
    let mut s = String::from_str(CMD_PREFIX);
    s.append(command);
    proof {
        assert("/"@ =~= seq!['/']);
        assert(s@ =~= prefixed(command@));
    }
    s
}

/// Index of `k` among the keys of an association vector, if it is listed.
pub(crate) fn assoc_find<T>(v: &Vec<(String, T)>, k: &String) -> (r: Option<usize>)
    ensures
        match r {
            Some(i) => i < v@.len() && v@[i as int].0@ == k@,
            None => forall|i: int| 0 <= i < v@.len() ==> (#[trigger] v@[i]).0@ != k@,
        },
{
    let mut i: usize = 0;
    while i < v.len()
        invariant
            i <= v@.len(),
            forall|j: int| 0 <= j < i ==> (#[trigger] v@[j]).0@ != k@,
        decreases v@.len() - i,
    {
        if v[i].0 == *k {
            return Some(i);
        }
        i = i + 1;
    }
    None
}

/// Mapping from command text to its free-text description.
///
/// The description is reserved and currently always empty. Keys are unique;
/// a command registered twice for the same module keeps its first binding.
pub struct CommandMap {
    entries: Vec<(String, String)>,
}

impl View for CommandMap {
    type V = Map<Seq<char>, Seq<char>>;

    closed spec fn view(&self) -> Map<Seq<char>, Seq<char>> {
        assoc_to_map(self.kv())
    }
}

impl CommandMap {
    /// The listed (key, value) pairs, in insertion order.
    pub closed spec fn kv(&self) -> Seq<(Seq<char>, Seq<char>)> {
        self.entries@.map_values(|e: (String, String)| (e.0@, e.1@))
    }

    /// Key uniqueness, preserved by every operation.
    pub closed spec fn wf(&self) -> bool {
        assoc_keys_unique(self.kv())
    }

    pub fn new() -> (r: CommandMap)
        ensures
            r.wf(),
            r@ == Map::<Seq<char>, Seq<char>>::empty(),
            r.kv() == Seq::<(Seq<char>, Seq<char>)>::empty(),
    {
        let r = CommandMap { entries: Vec::new() };
        proof {
            assert(r.kv() =~= Seq::<(Seq<char>, Seq<char>)>::empty());
            assert(r@ =~= Map::<Seq<char>, Seq<char>>::empty());
        }
        r
    }

    pub fn is_empty(&self) -> (r: bool)
        ensures
            r <==> self@.dom() =~= Set::<Seq<char>>::empty(),
            r == (self.kv().len() == 0),
    {
        proof {
            if self.kv().len() == 0 {
                assert(self@.dom() =~= Set::<Seq<char>>::empty());
            } else {
                assert(self@.dom().contains(self.kv()[0].0)) by {
                    lemma_assoc_to_map_dom(self.kv(), self.kv()[0].0);
                }
            }
        }
        self.entries.len() == 0
    }

    pub fn contains_key(&self, k: &String) -> (r: bool)
        ensures
            r == self@.dom().contains(k@),
    {
        let found = assoc_find(&self.entries, k);
        proof {
            lemma_assoc_to_map_dom(self.kv(), k@);
        }
        match found {
            Some(i) => {
                proof {
                    assert(self.kv()[i as int].0 == k@);
                }
                true
            },
            None => {
                proof {
                    assert forall|i: int| 0 <= i < self.kv().len() implies (
                    #[trigger] self.kv()[i]).0 != k@ by {
                        assert(self.entries@[i].0@ != k@);
                    }
                }
                false
            },
        }
    }

    /// Insert `(k, v)` unless `k` is already bound; an existing binding wins.
    pub fn insert_if_absent(&mut self, k: String, v: String)
        requires
            old(self).wf(),
        ensures
            final(self).wf(),
            final(self)@ == map_insert_if_absent(old(self)@, k@, v@),
            final(self).kv() == if old(self)@.dom().contains(k@) {
                old(self).kv()
            } else {
                old(self).kv().push((k@, v@))
            },
    {
        if !self.contains_key(&k) {
            proof {
                lemma_assoc_to_map_dom(self.kv(), k@);
            }
            let ghost old_kv = self.kv();
            self.entries.push((k, v));
            proof {
                assert(self.kv() =~= old_kv.push((k@, v@)));
                assert(self.kv().drop_last() =~= old_kv);
                assert forall|i: int, j: int|
                    0 <= i < j < self.kv().len() implies (#[trigger] self.kv()[i]).0 != (
                #[trigger] self.kv()[j]).0 by {
                    if j < self.kv().len() - 1 {
                        assert(old_kv[i] == self.kv()[i]);
                        assert(old_kv[j] == self.kv()[j]);
                    } else {
                        assert(old_kv[i] == self.kv()[i]);
                    }
                }
            }
        }
    }

    /// Number of listed commands.
    pub fn len(&self) -> (n: usize)
        ensures
            n == self.kv().len(),
    {
        self.entries.len()
    }

    /// The command text at position `i` of insertion order.
    pub fn key_at(&self, i: usize) -> (k: &String)
        requires
            i < self.kv().len(),
        ensures
            k@ == self.kv()[i as int].0,
            self@.dom().contains(k@),
            self.wf() ==> self@[k@] == self.kv()[i as int].1,
    {
        proof {
            lemma_assoc_to_map_dom(self.kv(), self.kv()[i as int].0);
            if self.wf() {
                lemma_assoc_to_map_value(self.kv(), i as int);
            }
        }
        &self.entries[i].0
    }

    /// The description bound at position `i` of insertion order.
    pub fn value_at(&self, i: usize) -> (v: &String)
        requires
            i < self.kv().len(),
        ensures
            v@ == self.kv()[i as int].1,
    {
        &self.entries[i].1
    }

    /// Drop the binding of `k`, if there is one.
    pub fn remove(&mut self, k: &String)
        requires
            old(self).wf(),
        ensures
            final(self).wf(),
            final(self)@ == old(self)@.remove(k@),
    {
        match assoc_find(&self.entries, k) {
            Some(i) => {
                proof {
                    lemma_assoc_to_map_remove(self.kv(), i as int);
                }
                let ghost old_kv = self.kv();
                self.entries.remove(i);
                proof {
                    assert(self.kv() =~= old_kv.remove(i as int));
                }
            },
            None => {
                proof {
                    lemma_assoc_to_map_dom(self.kv(), k@);
                    assert forall|i: int| 0 <= i < self.kv().len() implies (
                    #[trigger] self.kv()[i]).0 != k@ by {
                        assert(self.entries@[i].0@ != k@);
                    }
                    assert(self@ =~= self@.remove(k@));
                }
            },
        }
    }
}

/// Mapping from a module, script or plugin display name to the commands it
/// registered.
pub struct ModuleMap {
    entries: Vec<(String, CommandMap)>,
}

impl View for ModuleMap {
    type V = Map<Seq<char>, Map<Seq<char>, Seq<char>>>;

    closed spec fn view(&self) -> Map<Seq<char>, Map<Seq<char>, Seq<char>>> {
        assoc_to_map(self.kv())
    }
}

/// Bind `cmd` (with empty description) under `module`, creating the module
/// entry if needed; an already-listed command keeps its first binding.
pub open spec fn map_add_command(
    m: Map<Seq<char>, Map<Seq<char>, Seq<char>>>,
    module: Seq<char>,
    cmd: Seq<char>,
) -> Map<Seq<char>, Map<Seq<char>, Seq<char>>> {
    let inner = if m.dom().contains(module) {
        m[module]
    } else {
        Map::empty()
    };
    m.insert(module, map_insert_if_absent(inner, cmd, Seq::empty()))
}

/// Drop `cmd` from under `module`; a module left without commands is
/// dropped as a whole.
pub open spec fn map_remove_command(
    m: Map<Seq<char>, Map<Seq<char>, Seq<char>>>,
    module: Seq<char>,
    cmd: Seq<char>,
) -> Map<Seq<char>, Map<Seq<char>, Seq<char>>> {
    if m.dom().contains(module) {
        let inner = m[module].remove(cmd);
        if inner.dom() =~= Set::<Seq<char>>::empty() {
            m.remove(module)
        } else {
            m.insert(module, inner)
        }
    } else {
        m
    }
}

impl ModuleMap {
    /// The listed (module name, command map) pairs, in insertion order.
    pub closed spec fn kv(&self) -> Seq<(Seq<char>, Map<Seq<char>, Seq<char>>)> {
        self.entries@.map_values(|e: (String, CommandMap)| (e.0@, e.1@))
    }

    /// Module names are unique and every command map is well formed.
    pub closed spec fn wf(&self) -> bool {
        &&& assoc_keys_unique(self.kv())
        &&& forall|i: int| 0 <= i < self.entries@.len() ==> (#[trigger] self.entries@[i]).1.wf()
    }

    pub fn new() -> (r: ModuleMap)
        ensures
            r.wf(),
            r@ == Map::<Seq<char>, Map<Seq<char>, Seq<char>>>::empty(),
    {
        let r = ModuleMap { entries: Vec::new() };
        proof {
            assert(r.kv() =~= Seq::<(Seq<char>, Map<Seq<char>, Seq<char>>)>::empty());
            assert(r@ =~= Map::<Seq<char>, Map<Seq<char>, Seq<char>>>::empty());
        }
        r
    }

    pub fn is_empty(&self) -> (r: bool)
        ensures
            r <==> self@.dom() =~= Set::<Seq<char>>::empty(),
            r == (self.kv().len() == 0),
    {
        proof {
            if self.kv().len() == 0 {
                assert(self@.dom() =~= Set::<Seq<char>>::empty());
            } else {
                assert(self@.dom().contains(self.kv()[0].0)) by {
                    lemma_assoc_to_map_dom(self.kv(), self.kv()[0].0);
                }
            }
        }
        self.entries.len() == 0
    }

    pub fn contains_key(&self, k: &String) -> (r: bool)
        ensures
            r == self@.dom().contains(k@),
    {
        let found = assoc_find(&self.entries, k);
        proof {
            lemma_assoc_to_map_dom(self.kv(), k@);
        }
        match found {
            Some(i) => {
                proof {
                    assert(self.kv()[i as int].0 == k@);
                }
                true
            },
            None => {
                proof {
                    assert forall|i: int| 0 <= i < self.kv().len() implies (
                    #[trigger] self.kv()[i]).0 != k@ by {
                        assert(self.entries@[i].0@ != k@);
                    }
                }
                false
            },
        }
    }

    /// Insert a whole command map unless the module is already listed.
    pub fn insert_if_absent(&mut self, module: String, cmds: CommandMap)
        requires
            old(self).wf(),
            cmds.wf(),
        ensures
            final(self).wf(),
            final(self)@ == map_insert_if_absent(old(self)@, module@, cmds@),
    {
        if !self.contains_key(&module) {
            proof {
                lemma_assoc_to_map_dom(self.kv(), module@);
                lemma_assoc_to_map_push(self.kv(), module@, cmds@);
            }
            let ghost old_kv = self.kv();
            let ghost old_entries = self.entries@;
            self.entries.push((module, cmds));
            proof {
                assert(self.kv() =~= old_kv.push((module@, cmds@)));
                assert forall|i: int| 0 <= i < self.entries@.len() implies (
                #[trigger] self.entries@[i]).1.wf() by {
                    if i < self.entries@.len() - 1 {
                        assert(self.entries@[i] == old_entries[i]);
                    }
                }
            }
        }
    }

    /// Record one command under `module`, creating the module entry if it
    /// is new; a duplicate registration leaves the map unchanged.
    pub fn add_command(&mut self, module: String, cmd: String)
        requires
            old(self).wf(),
        ensures
            final(self).wf(),
            final(self)@ == map_add_command(old(self)@, module@, cmd@),
    {
        match assoc_find(&self.entries, &module) {
            Some(i) => {
                proof {
                    lemma_assoc_to_map_value(self.kv(), i as int);
                    lemma_assoc_to_map_update(self.kv(), i as int, map_insert_if_absent(self@[module@], cmd@, Seq::empty()));
                }
                let ghost old_kv = self.kv();
                let ghost old_entries = self.entries@;
                let mut pair = self.entries.remove(i);
                pair.1.insert_if_absent(cmd, String::new());
                let ghost new_inner = pair.1@;
                self.entries.insert(i, pair);
                proof {
                    assert(self.entries@ =~= old_entries.update(i as int, self.entries@[i as int]));
                    assert(self.kv() =~= old_kv.update(i as int, (module@, new_inner)));
                    assert forall|j: int| 0 <= j < self.entries@.len() implies (
                    #[trigger] self.entries@[j]).1.wf() by {
                        if j != i {
                            assert(self.entries@[j] == old_entries[j]);
                        }
                    }
                }
            },
            None => {
                proof {
                    lemma_assoc_to_map_dom(self.kv(), module@);
                    assert forall|i: int| 0 <= i < self.kv().len() implies (
                    #[trigger] self.kv()[i]).0 != module@ by {
                        assert(self.entries@[i].0@ != module@);
                    }
                }
                let mut cmds = CommandMap::new();
                cmds.insert_if_absent(cmd, String::new());
                proof {
                    assert(cmds@ =~= map_insert_if_absent(Map::empty(), cmd@, Seq::empty()));
                }
                self.insert_if_absent(module, cmds);
            },
        }
    }

    /// Forget one command of `module`; the module entry disappears with its
    /// last command.
    pub fn remove_command(&mut self, module: &String, cmd: &String)
        requires
            old(self).wf(),
        ensures
            final(self).wf(),
            final(self)@ == map_remove_command(old(self)@, module@, cmd@),
    {
        match assoc_find(&self.entries, module) {
            Some(i) => {
                proof {
                    lemma_assoc_to_map_value(self.kv(), i as int);
                    lemma_assoc_to_map_update(self.kv(), i as int, self@[module@].remove(cmd@));
                    lemma_assoc_to_map_dom(self.kv(), module@);
                }
                let ghost old_kv = self.kv();
                let ghost old_entries = self.entries@;
                let ghost old_view = self@;
                let mut pair = self.entries.remove(i);
                pair.1.remove(cmd);
                let ghost new_inner = pair.1@;
                let inner_empty = pair.1.is_empty();
                self.entries.insert(i, pair);
                proof {
                    assert(self.kv() =~= old_kv.update(i as int, (module@, new_inner)));
                    assert forall|j: int| 0 <= j < self.entries@.len() implies (
                    #[trigger] self.entries@[j]).1.wf() by {
                        if j != i {
                            assert(self.entries@[j] == old_entries[j]);
                        }
                    }
                }
                if inner_empty {
                    proof {
                        lemma_assoc_to_map_remove(self.kv(), i as int);
                    }
                    let ghost mid_kv = self.kv();
                    let ghost mid_entries = self.entries@;
                    self.entries.remove(i);
                    proof {
                        assert(self.kv() =~= mid_kv.remove(i as int));
                        assert forall|j: int| 0 <= j < self.entries@.len() implies (
                        #[trigger] self.entries@[j]).1.wf() by {
                            if j < i {
                                assert(self.entries@[j] == mid_entries[j]);
                            } else {
                                assert(self.entries@[j] == mid_entries[j + 1]);
                            }
                        }
                        assert(new_inner =~= Map::<Seq<char>, Seq<char>>::empty());
                        assert(self@ =~= map_remove_command(old_view, module@, cmd@)) by {
                            assert(old_view.insert(module@, new_inner).remove(module@) =~= old_view.remove(module@));
                        }
                    }
                } else {
                    proof {
                        assert(!(new_inner.dom() =~= Set::<Seq<char>>::empty()));
                        assert(self@ =~= map_remove_command(old_view, module@, cmd@));
                    }
                }
            },
            None => {
                proof {
                    lemma_assoc_to_map_dom(self.kv(), module@);
                    assert forall|i: int| 0 <= i < self.kv().len() implies (
                    #[trigger] self.kv()[i]).0 != module@ by {
                        assert(self.entries@[i].0@ != module@);
                    }
                }
            },
        }
    }

    /// Number of listed modules.
    pub fn len(&self) -> (n: usize)
        ensures
            n == self.kv().len(),
    {
        self.entries.len()
    }

    /// The module name at position `i` of insertion order.
    pub fn name_at(&self, i: usize) -> (k: &String)
        requires
            i < self.kv().len(),
        ensures
            k@ == self.kv()[i as int].0,
            self@.dom().contains(k@),
    {
        proof {
            lemma_assoc_to_map_dom(self.kv(), self.kv()[i as int].0);
        }
        &self.entries[i].0
    }

    /// The command map at position `i` of insertion order.
    pub fn commands_at(&self, i: usize) -> (m: &CommandMap)
        requires
            i < self.kv().len(),
        ensures
            m@ == self.kv()[i as int].1,
            self.wf() ==> m.wf() && self@[self.kv()[i as int].0] == m@,
    {
        proof {
            if self.wf() {
                lemma_assoc_to_map_value(self.kv(), i as int);
            }
        }
        &self.entries[i].1
    }
}

/// One command source shown in the overlay: a visibility flag, a display
/// name, and the commands grouped by registering module.
pub struct Category {
    pub is_visible: bool,
    pub name: String,
    pub modules: ModuleMap,
}

impl Category {
    pub fn new(name: String) -> (r: Category)
        ensures
            r.is_visible == false,
            r.name == name,
            r.modules.wf(),
            r.modules@ == Map::<Seq<char>, Map<Seq<char>, Seq<char>>>::empty(),
    {
        Category { is_visible: false, name, modules: ModuleMap::new() }
    }
}

/// Identifies one of the four fixed command sources.
#[derive(Clone, Copy, PartialEq, Eq, Structural)]
pub enum CategoryKey {
    Samp,
    SfPlugin,
    Cleo,
    Lua,
}

/// The fixed, ordered collection of categories, one per command source,
/// exposed for iteration in display order.
pub struct Categories {
    pub order: [CategoryKey; 4],
    pub samp: Category,
    pub sf: Category,
    pub cleo: Category,
    pub lua: Category,
}

impl Categories {
    /// The category a key selects.
    pub open spec fn spec_get(&self, key: CategoryKey) -> Category {
        match key {
            CategoryKey::Samp => self.samp,
            CategoryKey::SfPlugin => self.sf,
            CategoryKey::Cleo => self.cleo,
            CategoryKey::Lua => self.lua,
        }
    }

    /// The category at position `i` of display order.
    pub open spec fn spec_at(&self, i: int) -> Category {
        self.spec_get(self.order@[i])
    }

    /// Every stored module map is well formed.
    pub open spec fn wf(&self) -> bool {
        &&& self.samp.modules.wf()
        &&& self.sf.modules.wf()
        &&& self.cleo.modules.wf()
        &&& self.lua.modules.wf()
    }

    pub fn get(&self, key: &CategoryKey) -> (r: &Category)
        ensures
            *r == self.spec_get(*key),
    {
        match key {
            CategoryKey::Samp => &self.samp,
            CategoryKey::SfPlugin => &self.sf,
            CategoryKey::Cleo => &self.cleo,
            CategoryKey::Lua => &self.lua,
        }
    }

    /// True when no source contributed any module.
    pub fn is_empty(&self) -> (r: bool)
        ensures
            r <==> {
                &&& self.samp.modules@.dom() =~= Set::<Seq<char>>::empty()
                &&& self.sf.modules@.dom() =~= Set::<Seq<char>>::empty()
                &&& self.cleo.modules@.dom() =~= Set::<Seq<char>>::empty()
                &&& self.lua.modules@.dom() =~= Set::<Seq<char>>::empty()
            },
    {
        self.samp.modules.is_empty() && self.sf.modules.is_empty() && self.cleo.modules.is_empty()
            && self.lua.modules.is_empty()
    }

    pub fn iter(&self) -> (it: CategoriesIterator)
        ensures
            it.cats() == *self,
            it.pos() == 0,
    {
        CategoriesIterator { categories: self, current_index: 0 }
    }
}

/// Walks the categories in display order.
pub struct CategoriesIterator<'a> {
    categories: &'a Categories,
    current_index: usize,
}

impl<'a> CategoriesIterator<'a> {
    /// The collection being walked.
    pub closed spec fn cats(&self) -> Categories {
        *self.categories
    }

    /// How many categories have been handed out.
    pub closed spec fn pos(&self) -> int {
        self.current_index as int
    }

    pub fn next(&mut self) -> (r: Option<&'a Category>)
        ensures
            final(self).cats() == old(self).cats(),
            old(self).pos() < 4 ==> {
                &&& final(self).pos() == old(self).pos() + 1
                &&& r is Some
                &&& *r->Some_0 == old(self).cats().spec_at(old(self).pos())
            },
            old(self).pos() >= 4 ==> r is None && final(self).pos() == old(self).pos(),
    {
        if self.current_index < 4 {
            let key = &self.categories.order[self.current_index];
            self.current_index = self.current_index + 1;
            Some(self.categories.get(key))
        } else {
            None
        }
    }
}

} // verus!
