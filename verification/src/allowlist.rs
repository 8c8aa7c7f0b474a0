//! Checking commands against the allowlist, and merging allowlists.
use vstd::prelude::*;

use crate::pattern::{denies, pattern_denies};
use crate::sorted::{sorted_union, union};
use crate::text::{
    ascii_ci_eq, chars_eq_ignore_ascii_case, chars_of, join, split_words,
    string_of, to_lowercase, lower_name, views, words,
};
use crate::types::{
    command_views, describe, AllowEntry, AllowEntryView, AllowMap, AllowlistConfig,
    AllowlistConfigView, CommandView, ParsedCommand,
};

verus! {

// ---------------------------------------------------------------------------
// Which rule applies to a command
// ---------------------------------------------------------------------------

/// Whether the rule stored under `k` may be the one that applies to a command
/// named `name`: the exact name first, then its lower-case form, and only
/// where neither is a key, any key equal to the name up to ASCII case (the
/// map is not ordered, so any such key may be found).
pub open spec fn entry_candidate(
    name: Seq<char>,
    allow: Map<Seq<char>, AllowEntryView>,
    k: Seq<char>,
) -> bool {
    if allow.dom().contains(name) {
        k == name
    } else if allow.dom().contains(lower_name(name)) {
        k == lower_name(name)
    } else {
        allow.dom().contains(k) && ascii_ci_eq(k, name)
    }
}

/// Whether some rule applies to a command named `name`.
pub open spec fn has_entry(name: Seq<char>, allow: Map<Seq<char>, AllowEntryView>) -> bool {
    exists|k: Seq<char>| entry_candidate(name, allow, k)
}

/// The first of `keys` equal to `name` up to ASCII case.
pub open spec fn first_ci_key(keys: Seq<Seq<char>>, name: Seq<char>) -> Option<Seq<char>>
    decreases keys.len(),
{
    if keys.len() == 0 {
        None
    } else if ascii_ci_eq(keys[0], name) {
        Some(keys[0])
    } else {
        first_ci_key(keys.drop_first(), name)
    }
}

/// The key whose rule applies to a command named `name`, where `lower` is the
/// name in lower case and `keys` the names of `allow` in their stored order:
/// the exact name, else `lower`, else the first key equal to the name up to
/// ASCII case.
pub open spec fn rule_key(
    name: Seq<char>,
    lower: Seq<char>,
    allow: Map<Seq<char>, AllowEntryView>,
    keys: Seq<Seq<char>>,
) -> Option<Seq<char>> {
    if allow.dom().contains(name) {
        Some(name)
    } else if allow.dom().contains(lower) {
        Some(lower)
    } else {
        first_ci_key(keys, name)
    }
}

/// The first key of `keys` equal to `name` up to ASCII case is one of them.
pub proof fn lemma_first_ci_key(keys: Seq<Seq<char>>, name: Seq<char>)
    ensures
        match first_ci_key(keys, name) {
            Some(k) => keys.contains(k) && ascii_ci_eq(k, name),
            None => forall|i: int| 0 <= i < keys.len() ==> !ascii_ci_eq(#[trigger] keys[i], name),
        },
    decreases keys.len(),
{
    if keys.len() > 0 {
        lemma_first_ci_key(keys.drop_first(), name);
        if !ascii_ci_eq(keys[0], name) {
            match first_ci_key(keys, name) {
                Some(k) => {
                    let j = choose|j: int| 0 <= j < keys.drop_first().len() && keys.drop_first()[j] == k;
                    assert(keys[j + 1] == k);
                },
                None => {
                    assert forall|i: int| 0 <= i < keys.len() implies !ascii_ci_eq(#[trigger] keys[i], name) by {
                        if i > 0 {
                            assert(keys[i] == keys.drop_first()[i - 1]);
                        }
                    }
                },
            }
        } else {
            assert(keys[0] == keys[0]);
        }
    }
}

/// The key `rule_key` picks, with the lower-case form of the name, is one
/// that may apply; and where it picks none, none applies.
pub proof fn lemma_rule_key_candidate(
    name: Seq<char>,
    allow: Map<Seq<char>, AllowEntryView>,
    keys: Seq<Seq<char>>,
)
    requires
        keys.to_set() == allow.dom(),
    ensures
        match rule_key(name, lower_name(name), allow, keys) {
            Some(k) => entry_candidate(name, allow, k) && allow.dom().contains(k),
            None => !has_entry(name, allow),
        },
{
    lemma_first_ci_key(keys, name);
    if !allow.dom().contains(name) && !allow.dom().contains(lower_name(name)) {
        match first_ci_key(keys, name) {
            Some(k) => {
                assert(keys.to_set().contains(k));
            },
            None => {
                assert forall|k: Seq<char>| !entry_candidate(name, allow, k) by {
                    if allow.dom().contains(k) && ascii_ci_eq(k, name) {
                        assert(keys.to_set().contains(k));
                        let j = choose|j: int| 0 <= j < keys.len() && keys[j] == k;
                        assert(!ascii_ci_eq(keys[j], name));
                    }
                }
            },
        }
    }
}

/// The rule that applies to `cmd`, where `lower` is its name in lower case.
pub fn find_entry_with_lower<'a>(cmd: &ParsedCommand, lower: &str, config: &'a AllowlistConfig) -> (r:
    Option<&'a AllowEntry>)
    ensures
        match rule_key(cmd.name@, lower@, config.allow@, config.allow.key_seq()) {
            Some(k) => r matches Some(e) && config.allow@.dom().contains(k) && e@
                == config.allow@[k],
            None => r is None,
        },
{
    let ghost allow = config.allow@;
    let ghost name = cmd.name@;
    match config.allow.get(cmd.name.as_str()) {
        Some(e) => {
            return Some(e);
        },
        None => {},
    }
    match config.allow.get(lower) {
        Some(e) => {
            return Some(e);
        },
        None => {},
    }
    let keys = config.allow.keys();
    let ghost ks = views(keys@);
    let name_chars = chars_of(cmd.name.as_str());
    assert(ks.skip(0) =~= ks);
    for i in 0..keys.len()
        invariant
            ks == views(keys@),
            ks == config.allow.key_seq(),
            ks.to_set() == config.allow@.dom(),
            !allow.dom().contains(name),
            !allow.dom().contains(lower@),
            allow == config.allow@,
            name_chars@ == name,
            name == cmd.name@,
            first_ci_key(ks, name) == first_ci_key(ks.skip(i as int), name),
    {
        assert(ks.skip(i as int)[0] == keys@[i as int]@);
        let key_chars = chars_of(keys[i].as_str());
        if chars_eq_ignore_ascii_case(&key_chars, &name_chars) {
            assert(ks.skip(i as int)[0] == ks[i as int]);
            assert(first_ci_key(ks, name) == Some(ks[i as int]));
            assert(ks.to_set().contains(ks[i as int]));
            return config.allow.get(keys[i].as_str());
        }
        assert(ks.skip(i as int).drop_first() =~= ks.skip(i + 1));
    }
    assert(ks.skip(ks.len() as int) =~= Seq::<Seq<char>>::empty());
    None
}

/// The rule that applies to `cmd`: the one stored under its exact name, else
/// under its lower-case form, else under the first name (in stored order)
/// equal to it up to ASCII case.
pub fn find_entry<'a>(cmd: &ParsedCommand, config: &'a AllowlistConfig) -> (r: Option<&'a AllowEntry>)
    ensures
        match rule_key(cmd.name@, lower_name(cmd.name@), config.allow@, config.allow.key_seq()) {
            Some(k) => r matches Some(e) && config.allow@.dom().contains(k) && e@
                == config.allow@[k],
            None => r is None,
        },
        match r {
            Some(e) => exists|k: Seq<char>|
                entry_candidate(cmd.name@, config.allow@, k) && e@ == config.allow@[k],
            None => !has_entry(cmd.name@, config.allow@),
        },
{
    let lower = to_lowercase(cmd.name.as_str());
    let r = find_entry_with_lower(cmd, lower.as_str(), config);
    proof {
        use_type_invariant(&config.allow);
        config.allow.lemma_keys();
        lemma_rule_key_candidate(cmd.name@, config.allow@, config.allow.key_seq());
    }
    r
}

// ---------------------------------------------------------------------------
// What a rule says of a command
// ---------------------------------------------------------------------------

/// A subcommand entry such as `"diff"` or `"pr list"` matches when its words
/// equal the first arguments, in order, up to ASCII case. An entry without
/// words (empty or only white space) is compared as it stands with the first
/// argument, up to ASCII case.
pub open spec fn sub_entry_matches(entry: Seq<char>, args: Seq<Seq<char>>) -> bool {
    let w = words(entry);
    if w.len() == 0 {
        args.len() > 0 && ascii_ci_eq(entry, args[0])
    } else {
        &&& w.len() <= args.len()
        &&& forall|i: int| 0 <= i < w.len() ==> ascii_ci_eq(#[trigger] w[i], args[i])
    }
}

/// Whether some entry of the list matches the arguments.
pub open spec fn any_entry_matches(entries: Seq<Seq<char>>, args: Seq<Seq<char>>) -> bool {
    exists|i: int| 0 <= i < entries.len() && sub_entry_matches(#[trigger] entries[i], args)
}

/// The first deny pattern that blocks `text`.
pub open spec fn first_denying(patterns: Seq<Seq<char>>, text: Seq<char>) -> Option<Seq<char>>
    decreases patterns.len(),
{
    if patterns.len() == 0 {
        None
    } else if pattern_denies(patterns[0], text) {
        Some(patterns[0])
    } else {
        first_denying(patterns.drop_first(), text)
    }
}

/// What the rule `e` says of `cmd`: `None` where it allows the command, else
/// the description of the refusal. Deny patterns come first (matched against
/// the arguments joined by spaces), then denied subcommands, then the list of
/// allowed subcommands (an empty list allows all).
pub open spec fn entry_verdict(cmd: CommandView, e: AllowEntryView) -> Option<Seq<char>> {
    verdict_given_denial(cmd, e, first_denying(e.deny_pattern, join(cmd.args, " "@)))
}

/// What the rule `e` says of `cmd`, where `denied_by` is the first deny pattern
/// that blocks the arguments, if any: refused by that pattern; else refused as
/// a denied subcommand; else allowed where `sub` is empty or lists the
/// subcommand; else refused.
pub open spec fn verdict_given_denial(
    cmd: CommandView,
    e: AllowEntryView,
    denied_by: Option<Seq<char>>,
) -> Option<Seq<char>> {
    match denied_by {
        Some(p) => Some(describe(cmd) + " (denied: "@ + p + ")"@),
        None => if any_entry_matches(e.deny_sub, cmd.args) {
            Some(describe(cmd) + " (denied sub)"@)
        } else if e.sub.len() == 0 {
            None
        } else if any_entry_matches(e.sub, cmd.args) {
            None
        } else {
            Some(describe(cmd))
        },
    }
}

/// The verdict of the allowlist on `cmd`, where `keys` are the names of
/// `allow` in their stored order: refused by its description where no rule
/// applies, else the verdict of the rule that `rule_key` picks.
pub open spec fn verdict(
    cmd: CommandView,
    allow: Map<Seq<char>, AllowEntryView>,
    keys: Seq<Seq<char>>,
) -> Option<Seq<char>> {
    match rule_key(cmd.name, lower_name(cmd.name), allow, keys) {
        None => Some(describe(cmd)),
        Some(k) => entry_verdict(cmd, allow[k]),
    }
}

/// The verdicts on a list of commands, in order.
pub open spec fn verdicts(
    cmds: Seq<CommandView>,
    allow: Map<Seq<char>, AllowEntryView>,
    keys: Seq<Seq<char>>,
) -> Seq<Option<Seq<char>>> {
    cmds.map_values(|c: CommandView| verdict(c, allow, keys))
}

/// Whether `v` is a verdict the allowlist may give on `cmd`: a command without
/// a rule is refused by its description; otherwise the verdict of a rule that
/// may apply to it.
pub open spec fn possible_verdict(
    cmd: CommandView,
    allow: Map<Seq<char>, AllowEntryView>,
    v: Option<Seq<char>>,
) -> bool {
    if !has_entry(cmd.name, allow) {
        v == Some(describe(cmd))
    } else {
        exists|k: Seq<char>| entry_candidate(cmd.name, allow, k) && v == entry_verdict(cmd, allow[k])
    }
}

/// The view of an optional string.
pub open spec fn opt_view(o: Option<String>) -> Option<Seq<char>> {
    match o {
        Some(s) => Some(s@),
        None => None,
    }
}

/// Whether some entry of `entries` matches `args`.
fn entries_match(entries: &Vec<String>, args: &Vec<String>) -> (r: bool)
    ensures
        r == any_entry_matches(views(entries@), views(args@)),
{
    for i in 0..entries.len()
        invariant
            forall|j: int| 0 <= j < i ==> !sub_entry_matches(#[trigger] views(entries@)[j], views(args@)),
    {
        let w = split_words(entries[i].as_str());
        let ghost ws = w@.map_values(|x: Vec<char>| x@);
        assert(ws == words(views(entries@)[i as int]));
        assert(views(entries@)[i as int] == entries@[i as int]@);
        if w.len() == 0 {
            if args.len() > 0 {
                let e = chars_of(entries[i].as_str());
                let a = chars_of(args[0].as_str());
                assert(views(args@)[0] == a@);
                if chars_eq_ignore_ascii_case(&e, &a) {
                    assert(sub_entry_matches(views(entries@)[i as int], views(args@)));
                    return true;
                }
            }
        } else if w.len() <= args.len() {
            let mut all = true;
            for j in 0..w.len()
                invariant
                    ws == w@.map_values(|x: Vec<char>| x@),
                    w@.len() <= args@.len(),
                    all == forall|l: int| 0 <= l < j ==> ascii_ci_eq(#[trigger] ws[l], views(args@)[l]),
            {
                let a = chars_of(args[j].as_str());
                let same = chars_eq_ignore_ascii_case(&w[j], &a);
                assert(ws[j as int] == w@[j as int]@);
                assert(views(args@)[j as int] == a@);
                proof {
                    if all && !same {
                        assert(!ascii_ci_eq(ws[j as int], views(args@)[j as int]));
                    }
                }
                all = all && same;
            }
            if all {
                assert(sub_entry_matches(views(entries@)[i as int], views(args@)));
                return true;
            }
        }
    }
    false
}

/// The first deny pattern of `patterns` that blocks `text`.
fn first_denying_pattern(patterns: &Vec<String>, text: &String) -> (r: Option<usize>)
    ensures
        match r {
            Some(i) => i < patterns@.len() && first_denying(views(patterns@), text@) == Some(
                patterns@[i as int]@,
            ),
            None => first_denying(views(patterns@), text@) is None,
        },
{
    let ghost ps = views(patterns@);
    assert(ps.skip(0) =~= ps);
    for i in 0..patterns.len()
        invariant
            ps == views(patterns@),
            first_denying(ps, text@) == first_denying(ps.skip(i as int), text@),
    {
        assert(ps.skip(i as int)[0] == patterns@[i as int]@);
        if denies(patterns[i].as_str(), text.as_str()) {
            return Some(i);
        }
        assert(ps.skip(i as int).drop_first() =~= ps.skip(i + 1));
    }
    assert(ps.skip(patterns@.len() as int) =~= Seq::<Seq<char>>::empty());
    None
}

/// `a` followed by the characters of the literal `lit`.
fn append_literal(a: &mut Vec<char>, lit: &str)
    ensures
        final(a)@ == old(a)@ + lit@,
{
    let l = chars_of(lit);
    a.extend_from_slice(l.as_slice());
}

/// What the rule `entry` says of `cmd`, where `denying` is the position of
/// the first deny pattern of the rule that blocks the arguments, if any.
pub fn verdict_with_denial(cmd: &ParsedCommand, entry: &AllowEntry, denying: Option<usize>) -> (r:
    Option<String>)
    requires
        denying matches Some(i) ==> i < entry.deny_pattern@.len(),
    ensures
        opt_view(r) == verdict_given_denial(
            cmd@,
            entry@,
            match denying {
                Some(i) => Some(entry.deny_pattern@[i as int]@),
                None => None,
            },
        ),
{
    match denying {
        Some(i) => {
            let mut m = chars_of(cmd.describe().as_str());
            append_literal(&mut m, " (denied: ");
            append_literal(&mut m, entry.deny_pattern[i].as_str());
            append_literal(&mut m, ")");
            proof {
                assert(m@ =~= describe(cmd@) + " (denied: "@ + entry.deny_pattern@[i as int]@ + ")"@);
            }
            return Some(string_of(&m));
        },
        None => {},
    }
    if entries_match(&entry.deny_sub, &cmd.args) {
        let mut m = chars_of(cmd.describe().as_str());
        append_literal(&mut m, " (denied sub)");
        return Some(string_of(&m));
    }
    if entry.sub.len() == 0 {
        return None;
    }
    if entries_match(&entry.sub, &cmd.args) {
        None
    } else {
        Some(cmd.describe())
    }
}

/// What the rule `entry` says of `cmd`.
pub fn verdict_of_entry(cmd: &ParsedCommand, entry: &AllowEntry) -> (r: Option<String>)
    ensures
        opt_view(r) == entry_verdict(cmd@, entry@),
{
    let args_str = cmd.args_string();
    let denying = first_denying_pattern(&entry.deny_pattern, &args_str);
    verdict_with_denial(cmd, entry, denying)
}

/// The refusal of `cmd`, or `None` where the allowlist allows it.
pub fn is_not_allowed(cmd: &ParsedCommand, config: &AllowlistConfig) -> (r: Option<String>)
    ensures
        opt_view(r) == verdict(cmd@, config.allow@, config.allow.key_seq()),
        possible_verdict(cmd@, config.allow@, opt_view(r)),
{
    match find_entry(cmd, config) {
        None => Some(cmd.describe()),
        Some(entry) => verdict_of_entry(cmd, entry),
    }
}

// ---------------------------------------------------------------------------
// Checking a list of commands
// ---------------------------------------------------------------------------

/// The refusals among the verdicts, in order.
pub open spec fn refusals(vs: Seq<Option<Seq<char>>>) -> Seq<Seq<char>>
    decreases vs.len(),
{
    if vs.len() == 0 {
        Seq::empty()
    } else {
        let rest = refusals(vs.drop_last());
        match vs.last() {
            Some(m) => rest.push(m),
            None => rest,
        }
    }
}

/// The answer for a list of verdicts: `None` where nothing is refused, else
/// the refusals in order.
pub open spec fn gather(vs: Seq<Option<Seq<char>>>) -> Option<Seq<Seq<char>>> {
    if refusals(vs).len() == 0 {
        None
    } else {
        Some(refusals(vs))
    }
}

/// Whether `vs` holds, for each command, a verdict the allowlist may give on it.
pub open spec fn possible_verdicts(
    cmds: Seq<CommandView>,
    allow: Map<Seq<char>, AllowEntryView>,
    vs: Seq<Option<Seq<char>>>,
) -> bool {
    &&& vs.len() == cmds.len()
    &&& forall|i: int| 0 <= i < cmds.len() ==> possible_verdict(cmds[i], allow, #[trigger] vs[i])
}

/// The view of an optional list of strings.
pub open spec fn opt_views(o: Option<Vec<String>>) -> Option<Seq<Seq<char>>> {
    match o {
        Some(v) => Some(views(v@)),
        None => None,
    }
}

/// Checks every command against the allowlist: `None` where all are allowed,
/// else the descriptions of the refused ones, in order.
pub fn check_commands(commands: &[ParsedCommand], config: &AllowlistConfig) -> (r: Option<
    Vec<String>,
>)
    ensures
        opt_views(r) == gather(
            verdicts(command_views(commands@), config.allow@, config.allow.key_seq()),
        ),
        exists|vs: Seq<Option<Seq<char>>>|
            possible_verdicts(command_views(commands@), config.allow@, vs) && opt_views(r) == gather(
                vs,
            ),
{
    let mut not_allowed: Vec<String> = Vec::new();
    let ghost mut vs: Seq<Option<Seq<char>>> = Seq::empty();
    let ghost cmds = command_views(commands@);
    for i in 0..commands.len()
        invariant
            cmds == command_views(commands@),
            vs.len() == i,
            vs == verdicts(cmds, config.allow@, config.allow.key_seq()).take(i as int),
            forall|j: int| 0 <= j < i ==> possible_verdict(cmds[j], config.allow@, #[trigger] vs[j]),
            views(not_allowed@) == refusals(vs),
    {
        let v = is_not_allowed(&commands[i], config);
        let ghost old_vs = vs;
        proof {
            vs = vs.push(opt_view(v));
            assert(vs.drop_last() =~= old_vs);
            assert(cmds[i as int] == commands@[i as int]@);
            assert(vs =~= verdicts(cmds, config.allow@, config.allow.key_seq()).take(i + 1));
        }
        match v {
            Some(m) => {
                not_allowed.push(m);
                assert(views(not_allowed@) =~= refusals(vs));
            },
            None => {},
        }
    }
    assert(possible_verdicts(cmds, config.allow@, vs));
    assert(vs =~= verdicts(cmds, config.allow@, config.allow.key_seq()));
    let r = if not_allowed.len() == 0 {
        None
    } else {
        Some(not_allowed)
    };
    assert(opt_views(r) == gather(vs));
    r
}

// ---------------------------------------------------------------------------
// Merging rules and allowlists
// ---------------------------------------------------------------------------

/// Two rules merged: each list is the sorted union of the two.
pub open spec fn merged_entry(a: AllowEntryView, b: AllowEntryView) -> AllowEntryView {
    AllowEntryView {
        sub: sorted_union(a.sub, b.sub),
        deny_sub: sorted_union(a.deny_sub, b.deny_sub),
        deny_pattern: sorted_union(a.deny_pattern, b.deny_pattern),
    }
}

/// Merges two rules field by field.
pub fn merge_entries(a: &AllowEntry, b: &AllowEntry) -> (r: AllowEntry)
    ensures
        r@ == merged_entry(a@, b@),
{
    AllowEntry {
        sub: union(&a.sub, &b.sub),
        deny_sub: union(&a.deny_sub, &b.deny_sub),
        deny_pattern: union(&a.deny_pattern, &b.deny_pattern),
    }
}

/// Two maps of rules merged: every name of either, with the merged rule where
/// both have one.
pub open spec fn merged_allow(
    p: Map<Seq<char>, AllowEntryView>,
    u: Map<Seq<char>, AllowEntryView>,
) -> Map<Seq<char>, AllowEntryView> {
    Map::new(
        |k: Seq<char>| p.dom().contains(k) || u.dom().contains(k),
        |k: Seq<char>|
            if p.dom().contains(k) && u.dom().contains(k) {
                merged_entry(p[k], u[k])
            } else if p.dom().contains(k) {
                p[k]
            } else {
                u[k]
            },
    )
}

/// The project and the user allowlist merged: where only one exists it is
/// taken as it is; where both do, rules are merged name by name and the
/// preset lists are united.
pub open spec fn merged_config(
    project: Option<AllowlistConfigView>,
    user: Option<AllowlistConfigView>,
) -> AllowlistConfigView {
    match (project, user) {
        (None, None) => AllowlistConfigView { allow: Map::empty(), presets: Seq::empty() },
        (Some(c), None) => c,
        (None, Some(c)) => c,
        (Some(p), Some(u)) => AllowlistConfigView {
            allow: merged_allow(p.allow, u.allow),
            presets: sorted_union(p.presets, u.presets),
        },
    }
}

/// The view of an optional allowlist.
pub open spec fn opt_config(c: Option<AllowlistConfig>) -> Option<AllowlistConfigView> {
    match c {
        Some(c) => Some(c@),
        None => None,
    }
}

/// Merges the rules of two maps name by name.
fn merge_allow(p: &AllowMap, u: &AllowMap) -> (r: AllowMap)
    ensures
        r@ == merged_allow(p@, u@),
{
    let ghost target = merged_allow(p@, u@);
    let mut r = AllowMap::new();
    let pk = p.keys();
    for i in 0..pk.len()
        invariant
            target == merged_allow(p@, u@),
            views(pk@).to_set() == p@.dom(),
            r@.dom() == views(pk@).take(i as int).to_set(),
            forall|k: Seq<char>| r@.dom().contains(k) ==> r@[k] == target[k],
    {
        assert(views(pk@).to_set().contains(views(pk@)[i as int]));
        match p.get(pk[i].as_str()) {
            Some(pe) => match u.get(pk[i].as_str()) {
                Some(ue) => {
                    r.insert(pk[i].clone(), merge_entries(pe, ue));
                },
                None => {
                    r.insert(pk[i].clone(), pe.copy());
                },
            },
            None => {},
        }
        assert(views(pk@).take(i + 1) =~= views(pk@).take(i as int).push(pk@[i as int]@));
        proof {
            views(pk@).take(i as int).lemma_push_to_set_commute(pk@[i as int]@);
        }
    }
    assert(views(pk@).take(pk@.len() as int) =~= views(pk@));
    let uk = u.keys();
    for i in 0..uk.len()
        invariant
            target == merged_allow(p@, u@),
            views(uk@).to_set() == u@.dom(),
            r@.dom() == p@.dom() + views(uk@).take(i as int).to_set(),
            forall|k: Seq<char>| r@.dom().contains(k) ==> r@[k] == target[k],
    {
        assert(views(uk@).to_set().contains(views(uk@)[i as int]));
        if !p.contains_key(uk[i].as_str()) {
            match u.get(uk[i].as_str()) {
                Some(ue) => {
                    r.insert(uk[i].clone(), ue.copy());
                },
                None => {},
            }
        }
        assert(views(uk@).take(i + 1) =~= views(uk@).take(i as int).push(uk@[i as int]@));
        proof {
            views(uk@).take(i as int).lemma_push_to_set_commute(uk@[i as int]@);
        }
        assert(r@.dom() =~= p@.dom() + views(uk@).take(i + 1).to_set());
    }
    assert(views(uk@).take(uk@.len() as int) =~= views(uk@));
    assert(r@ =~= target);
    r
}

/// Merges the project and the user allowlist: where only one exists it is
/// taken as it is; where both do, the rules of a name present in both are
/// merged list by list (sorted union), and the preset lists are united.
pub fn merge_configs(project: Option<AllowlistConfig>, user: Option<AllowlistConfig>) -> (r:
    AllowlistConfig)
    ensures
        r@ == merged_config(opt_config(project), opt_config(user)),
{
    match (project, user) {
        (None, None) => {
            let r = AllowlistConfig::default();
            assert(r@.presets =~= Seq::<Seq<char>>::empty());
            r
        },
        (Some(c), None) => c,
        (None, Some(c)) => c,
        (Some(p), Some(u)) => {
            let allow = merge_allow(&p.allow, &u.allow);
            let presets = union(&p.presets, &u.presets);
            AllowlistConfig { allow, presets }
        },
    }
}

} // verus!
