//! The values that flow through the hook: its input and output, the commands
//! found in a shell line, and the allowlist configuration.
use vstd::prelude::*;

use crate::text::{chars_of, join, join_strings, string_of, views};

verus! {

// ---------------------------------------------------------------------------
// Hook input and output
// ---------------------------------------------------------------------------

/// What the host hands the hook: the tool that is about to run and its input.
pub struct HookInput {
    pub tool_name: String,
    pub tool_input: ToolInput,
}

/// The input of the shell tool: the command line to run.
pub struct ToolInput {
    pub command: String,
}

/// What the hook answers.
pub struct HookOutput {
    pub hook_specific_output: HookSpecificOutput,
}

/// The decision of the hook, with the event it answers and, when it asks,
/// the reason.
pub struct HookSpecificOutput {
    pub hook_event_name: String,
    pub permission_decision: String,
    pub permission_decision_reason: Option<String>,
}

impl HookOutput {
    /// The answer that lets the command run without a prompt.
    pub fn allow() -> (r: Self)
        ensures
            r.hook_specific_output.hook_event_name@ == "PreToolUse"@,
            r.hook_specific_output.permission_decision@ == "allow"@,
            r.hook_specific_output.permission_decision_reason.is_none(),
    {
        HookOutput {
            hook_specific_output: HookSpecificOutput {
                hook_event_name: "PreToolUse".to_owned(),
                permission_decision: "allow".to_owned(),
                permission_decision_reason: None,
            },
        }
    }

    /// The answer that leaves the decision to the user, with `reason`.
    pub fn ask(reason: String) -> (r: Self)
        ensures
            r.hook_specific_output.hook_event_name@ == "PreToolUse"@,
            r.hook_specific_output.permission_decision@ == "ask"@,
            r.hook_specific_output.permission_decision_reason == Some(reason),
    {
        HookOutput {
            hook_specific_output: HookSpecificOutput {
                hook_event_name: "PreToolUse".to_owned(),
                permission_decision: "ask".to_owned(),
                permission_decision_reason: Some(reason),
            },
        }
    }
}

// ---------------------------------------------------------------------------
// Commands found in a shell line
// ---------------------------------------------------------------------------

/// One command of a shell line: its name and its arguments.
#[derive(Debug)]
pub struct ParsedCommand {
    pub name: String,
    pub args: Vec<String>,
}

/// A command as a value: its name and arguments as character sequences.
pub struct CommandView {
    pub name: Seq<char>,
    pub args: Seq<Seq<char>>,
}

impl View for ParsedCommand {
    type V = CommandView;

    open spec fn view(&self) -> CommandView {
        CommandView { name: self.name@, args: views(self.args@) }
    }
}

/// The views of a list of commands.
pub open spec fn command_views(v: Seq<ParsedCommand>) -> Seq<CommandView> {
    v.map_values(|c: ParsedCommand| c@)
}

/// How a command is named in messages: its name, then its first argument
/// where it has one.
pub open spec fn describe(c: CommandView) -> Seq<char> {
    if c.args.len() == 0 {
        c.name
    } else {
        c.name + " "@ + c.args[0]
    }
}

/// A copy of a list of strings.
pub fn copy_strings(v: &Vec<String>) -> (r: Vec<String>)
    ensures
        r@ == v@,
{
    let mut r: Vec<String> = Vec::new();
    for i in 0..v.len()
        invariant
            r@ == v@.take(i as int),
    {
        r.push(v[i].clone());
        assert(v@.take(i as int).push(v@[i as int]) =~= v@.take(i + 1));
    }
    assert(v@.take(v@.len() as int) =~= v@);
    r
}

impl ParsedCommand {
    /// A command with the given name and arguments.
    pub fn new(name: String, args: Vec<String>) -> (r: Self)
        ensures
            r.name == name,
            r.args == args,
    {
        ParsedCommand { name, args }
    }

    /// A copy of this command.
    pub fn copy(&self) -> (r: Self)
        ensures
            r@ == self@,
    {
        ParsedCommand { name: self.name.clone(), args: copy_strings(&self.args) }
    }

    /// The arguments joined by single spaces.
    pub fn args_string(&self) -> (r: String)
        ensures
            r@ == join(views(self.args@), " "@),
    {
        join_strings(&self.args, " ")
    }

    /// The command as messages name it: the name, and the first argument
    /// after a space where there is one.
    pub fn describe(&self) -> (r: String)
        ensures
            r@ == describe(self@),
    {
        if self.args.len() == 0 {
            self.name.clone()
        } else {
            let mut v = chars_of(self.name.as_str());
            v.push(' ');
            let a = chars_of(self.args[0].as_str());
            v.extend_from_slice(a.as_slice());
            proof {
                reveal_strlit(" ");
            }
            assert(v@ =~= describe(self@));
            string_of(&v)
        }
    }
}

// ---------------------------------------------------------------------------
// Allowlist configuration
// ---------------------------------------------------------------------------

/// The rule for one allowed command.
///
/// An empty `sub` allows every subcommand; otherwise the first arguments must
/// match one of its entries. `deny_sub` entries block subcommands even where
/// `sub` lists them, and `deny_pattern` holds regular expressions that block
/// any argument string they match.
#[derive(Debug)]
pub struct AllowEntry {
    pub sub: Vec<String>,
    pub deny_sub: Vec<String>,
    pub deny_pattern: Vec<String>,
}

/// An allow rule as a value.
pub struct AllowEntryView {
    pub sub: Seq<Seq<char>>,
    pub deny_sub: Seq<Seq<char>>,
    pub deny_pattern: Seq<Seq<char>>,
}

impl View for AllowEntry {
    type V = AllowEntryView;

    open spec fn view(&self) -> AllowEntryView {
        AllowEntryView {
            sub: views(self.sub@),
            deny_sub: views(self.deny_sub@),
            deny_pattern: views(self.deny_pattern@),
        }
    }
}

impl AllowEntry {
    /// A rule with the given lists.
    pub fn new(sub: Vec<String>, deny_sub: Vec<String>, deny_pattern: Vec<String>) -> (r: Self)
        ensures
            r.sub == sub,
            r.deny_sub == deny_sub,
            r.deny_pattern == deny_pattern,
    {
        AllowEntry { sub, deny_sub, deny_pattern }
    }

    /// A copy of this rule.
    pub fn copy(&self) -> (r: Self)
        ensures
            r@ == self@,
    {
        AllowEntry {
            sub: copy_strings(&self.sub),
            deny_sub: copy_strings(&self.deny_sub),
            deny_pattern: copy_strings(&self.deny_pattern),
        }
    }
}

impl Default for AllowEntry {
    /// The rule that allows a command with any arguments.
    fn default() -> (r: Self)
        ensures
            r.sub@.len() == 0,
            r.deny_sub@.len() == 0,
            r.deny_pattern@.len() == 0,
    {
        AllowEntry { sub: Vec::new(), deny_sub: Vec::new(), deny_pattern: Vec::new() }
    }
}

/// The allowed commands: a map from command name to its rule, each name at
/// most once.
pub struct AllowMap {
    entries: Vec<(String, AllowEntry)>,
}

/// The names of a list of entries.
pub open spec fn entry_keys(e: Seq<(String, AllowEntry)>) -> Seq<Seq<char>> {
    e.map_values(|p: (String, AllowEntry)| p.0@)
}

impl AllowMap {
    /// No name occurs twice.
    #[verifier::type_invariant]
    pub closed spec fn keys_distinct(self) -> bool {
        entry_keys(self.entries@).no_duplicates()
    }

    /// The names in the map, in the order in which they are stored.
    pub closed spec fn key_seq(self) -> Seq<Seq<char>> {
        entry_keys(self.entries@)
    }

    /// Where `k` is stored.
    closed spec fn index_of(self, k: Seq<char>) -> int {
        choose|i: int| 0 <= i < self.entries@.len() && self.entries@[i].0@ == k
    }

    proof fn lemma_index_of(self, i: int)
        requires
            self.keys_distinct(),
            0 <= i < self.entries@.len(),
        ensures
            self.index_of(self.entries@[i].0@) == i,
            self@.dom().contains(self.entries@[i].0@),
            self@[self.entries@[i].0@] == self.entries@[i].1@,
    {
        let k = self.entries@[i].0@;
        assert(self.key_seq()[i] == k);
        let j = self.index_of(k);
        assert(self.key_seq()[j] == k);
    }

    proof fn lemma_dom(self)
        requires
            self.keys_distinct(),
        ensures
            self@.dom() == self.key_seq().to_set(),
            self@.dom().len() == self.entries@.len(),
    {
        assert forall|k: Seq<char>| self@.dom().contains(k) <==> self.key_seq().to_set().contains(
            k,
        ) by {
            if self@.dom().contains(k) {
                let i = choose|i: int| 0 <= i < self.entries@.len() && self.entries@[i].0@ == k;
                assert(self.key_seq()[i] == k);
            }
            if self.key_seq().to_set().contains(k) {
                let i = choose|i: int| 0 <= i < self.key_seq().len() && self.key_seq()[i] == k;
                assert(self.entries@[i].0@ == k);
            }
        }
        assert(self@.dom() =~= self.key_seq().to_set());
        self.key_seq().unique_seq_to_set();
    }

    /// The stored names are distinct and are the names of the map.
    pub proof fn lemma_keys(self)
        requires
            self.keys_distinct(),
        ensures
            self.key_seq().no_duplicates(),
            self.key_seq().to_set() == self@.dom(),
    {
        self.lemma_dom();
    }

    /// The empty map.
    pub fn new() -> (r: Self)
        ensures
            r@ == Map::<Seq<char>, AllowEntryView>::empty(),
    {
        let r = AllowMap { entries: Vec::new() };
        assert(r@ =~= Map::<Seq<char>, AllowEntryView>::empty());
        r
    }

    /// Where `k` is stored, if it is.
    fn find(&self, k: &str) -> (r: Option<usize>)
        ensures
            match r {
                Some(i) => i < self.entries@.len() && self.entries@[i as int].0@ == k@,
                None => !self@.dom().contains(k@),
            },
    {
        let kv = chars_of(k);
        for i in 0..self.entries.len()
            invariant
                kv@ == k@,
                forall|j: int| 0 <= j < i ==> self.entries@[j].0@ != k@,
        {
            let cand = chars_of(self.entries[i].0.as_str());
            if vec_chars_eq(&cand, &kv) {
                return Some(i);
            }
        }
        None
    }

    /// The number of names in the map.
    pub fn len(&self) -> (r: usize)
        ensures
            r == self@.dom().len(),
    {
        proof {
            use_type_invariant(self);
            self.lemma_dom();
        }
        self.entries.len()
    }

    /// Whether the map has no names.
    pub fn is_empty(&self) -> (r: bool)
        ensures
            r == (self@.dom().len() == 0),
    {
        self.len() == 0
    }

    /// Whether `k` is a name in the map.
    pub fn contains_key(&self, k: &str) -> (r: bool)
        ensures
            r == self@.dom().contains(k@),
    {
        proof {
            use_type_invariant(self);
        }
        match self.find(k) {
            Some(i) => {
                proof {
                    self.lemma_index_of(i as int);
                }
                true
            },
            None => false,
        }
    }

    /// The rule stored under `k`.
    pub fn get(&self, k: &str) -> (r: Option<&AllowEntry>)
        ensures
            match r {
                Some(e) => self@.dom().contains(k@) && e@ == self@[k@],
                None => !self@.dom().contains(k@),
            },
    {
        proof {
            use_type_invariant(self);
        }
        match self.find(k) {
            Some(i) => {
                proof {
                    self.lemma_index_of(i as int);
                }
                Some(&self.entries[i].1)
            },
            None => None,
        }
    }

    /// The names in the map, each once, in their stored order.
    pub fn keys(&self) -> (r: Vec<String>)
        ensures
            views(r@) == self.key_seq(),
            views(r@).no_duplicates(),
            views(r@).to_set() == self@.dom(),
    {
        proof {
            use_type_invariant(self);
            self.lemma_dom();
        }
        let mut r: Vec<String> = Vec::new();
        for i in 0..self.entries.len()
            invariant
                views(r@) == self.key_seq().take(i as int),
        {
            r.push(self.entries[i].0.clone());
            assert(self.key_seq().take(i + 1) =~= self.key_seq().take(i as int).push(
                self.entries@[i as int].0@,
            ));
            assert(views(r@) =~= self.key_seq().take(i + 1));
        }
        assert(self.key_seq().take(self.entries@.len() as int) =~= self.key_seq());
        r
    }

    /// Stores `v` under `k`, in place of what was stored there.
    pub fn insert(&mut self, k: String, v: AllowEntry)
        ensures
            final(self)@ == old(self)@.insert(k@, v@),
    {
        proof {
            use_type_invariant(&*self);
        }
        let ghost old_map = self@;
        let ghost old_self: AllowMap = *self;
        let found = self.find(k.as_str());
        let mut entries: Vec<(String, AllowEntry)> = Vec::new();
        std::mem::swap(&mut entries, &mut self.entries);
        let ghost old_entries = entries@;
        match found {
            Some(i) => {
                entries.remove(i);
                entries.insert(i, (k, v));
            },
            None => {
                entries.push((k, v));
            },
        }
        proof {
            let ks = entry_keys(entries@);
            let oks = entry_keys(old_entries);
            match found {
                Some(i) => {
                    assert(ks =~= oks.update(i as int, k@));
                    assert forall|a: int, b: int| 0 <= a < ks.len() && 0 <= b < ks.len() && a
                        != b implies ks[a] != ks[b] by {
                        if a != i && b != i {
                            assert(oks[a] != oks[b]);
                        } else if a == i {
                            assert(oks[b] != oks[a]);
                        } else {
                            assert(oks[a] != oks[b]);
                        }
                    }
                },
                None => {
                    assert(ks =~= oks.push(k@));
                    assert forall|a: int, b: int| 0 <= a < ks.len() && 0 <= b < ks.len() && a
                        != b implies ks[a] != ks[b] by {
                        if a < oks.len() && b < oks.len() {
                            assert(oks[a] != oks[b]);
                        } else if a < oks.len() {
                            assert(old_entries[a].0@ == oks[a]);
                        } else {
                            assert(old_entries[b].0@ == oks[b]);
                        }
                    }
                },
            }
        }
        self.entries = entries;
        proof {
            use_type_invariant(&*self);
            let new_map = self@;
            let target = old_map.insert(k@, v@);
            assert forall|key: Seq<char>| new_map.dom().contains(key) <==> target.dom().contains(
                key,
            ) by {
                if new_map.dom().contains(key) {
                    let j = choose|j: int|
                        0 <= j < self.entries@.len() && self.entries@[j].0@ == key;
                    if key != k@ {
                        match found {
                            Some(i) => {
                                assert(j != i);
                                assert(old_entries[j].0@ == key);
                            },
                            None => {
                                assert(j < old_entries.len());
                                assert(old_entries[j].0@ == key);
                            },
                        }
                    }
                }
                if target.dom().contains(key) && key != k@ {
                    let j = choose|j: int| 0 <= j < old_entries.len() && old_entries[j].0@ == key;
                    match found {
                        Some(i) => {
                            assert(j != i);
                            assert(self.entries@[j].0@ == key);
                        },
                        None => {
                            assert(self.entries@[j].0@ == key);
                        },
                    }
                }
                if key == k@ {
                    match found {
                        Some(i) => {
                            assert(self.entries@[i as int].0@ == key);
                        },
                        None => {
                            assert(self.entries@[old_entries.len() as int].0@ == key);
                        },
                    }
                }
            }
            assert forall|key: Seq<char>| new_map.dom().contains(key) implies new_map[key]
                == target[key] by {
                if key == k@ {
                    let p: int = match found {
                        Some(i) => i as int,
                        None => old_entries.len() as int,
                    };
                    self.lemma_index_of(p);
                    assert(self.entries@[p].0@ == k@);
                    assert(self.entries@[p].1 == v);
                } else {
                    let j = choose|j: int|
                        0 <= j < self.entries@.len() && self.entries@[j].0@ == key;
                    self.lemma_index_of(j);
                    match found {
                        Some(i) => {
                            assert(j != i);
                            assert(old_entries[j] == self.entries@[j]);
                        },
                        None => {
                            assert(j != old_entries.len());
                            assert(old_entries[j] == self.entries@[j]);
                        },
                    }
                    assert(old_self.entries@ == old_entries);
                    old_self.lemma_index_of(j);
                }
            }
            assert(new_map =~= target);
        }
    }
}

impl View for AllowMap {
    type V = Map<Seq<char>, AllowEntryView>;

    closed spec fn view(&self) -> Map<Seq<char>, AllowEntryView> {
        Map::new(
            |k: Seq<char>| exists|i: int| 0 <= i < self.entries@.len() && self.entries@[i].0@ == k,
            |k: Seq<char>| self.entries@[self.index_of(k)].1@,
        )
    }
}

/// Whether two character vectors are equal.
pub fn vec_chars_eq(a: &Vec<char>, b: &Vec<char>) -> (r: bool)
    ensures
        r == (a@ == b@),
{
    if a.len() != b.len() {
        return false;
    }
    for i in 0..a.len()
        invariant
            a@.len() == b@.len(),
            forall|k: int| 0 <= k < i ==> a@[k] == b@[k],
    {
        if a[i] != b[i] {
            return false;
        }
    }
    assert(a@ =~= b@);
    true
}

/// The allowlist: the allowed commands and the names of the presets to apply.
pub struct AllowlistConfig {
    pub allow: AllowMap,
    pub presets: Vec<String>,
}

/// The allowlist as a value.
pub struct AllowlistConfigView {
    pub allow: Map<Seq<char>, AllowEntryView>,
    pub presets: Seq<Seq<char>>,
}

impl View for AllowlistConfig {
    type V = AllowlistConfigView;

    open spec fn view(&self) -> AllowlistConfigView {
        AllowlistConfigView { allow: self.allow@, presets: views(self.presets@) }
    }
}

impl Default for AllowlistConfig {
    /// The allowlist that allows nothing and applies no preset.
    fn default() -> (r: Self)
        ensures
            r@.allow == Map::<Seq<char>, AllowEntryView>::empty(),
            r@.presets.len() == 0,
    {
        AllowlistConfig { allow: AllowMap::new(), presets: Vec::new() }
    }
}

} // verus!
