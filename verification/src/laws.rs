//! Properties of the library as a whole, proved over the specifications that
//! its functions' contracts use.
use vstd::prelude::*;

use crate::allowlist::{
    any_entry_matches, entry_candidate, entry_verdict, first_denying, gather, has_entry,
    merged_allow, merged_config, merged_entry, possible_verdict, possible_verdicts, refusals,
    sub_entry_matches, first_ci_key, lemma_first_ci_key, rule_key, verdict,
};
use crate::pattern::pattern_denies;
use crate::preset::{applied, find_loaded, overlay};
use crate::parser::bash::{
    bash_items, first_ci, first_exact, is_cmd_launcher, is_nu_launcher, is_ps_launcher,
    lemma_first_ci, lemma_first_exact, powershell_items, script_after, second_stage_items, ExtractedView,
};
use crate::preset::coreutils;
use crate::sorted::{lemma_sorted_union, sorted_union};
use crate::syntax::{subtree_at, SyntaxTree};
use crate::text::{
    ascii_ci_eq, ascii_lower, ascii_lowered, is_ascii_text, is_path_separator, lower_name,
    spec_basename,
};
use crate::types::{describe, AllowEntryView, AllowlistConfigView, CommandView};

verus! {

// ---------------------------------------------------------------------------
// Union and merging
// ---------------------------------------------------------------------------

/// The union of two lists does not depend on their order.
pub proof fn law_union_commutes(a: Seq<Seq<char>>, b: Seq<Seq<char>>)
    ensures
        sorted_union(a, b) == sorted_union(b, a),
{
    assert(a.to_set() + b.to_set() =~= b.to_set() + a.to_set());
}

/// Uniting three lists does not depend on how the unions are grouped.
pub proof fn law_union_associative(a: Seq<Seq<char>>, b: Seq<Seq<char>>, c: Seq<Seq<char>>)
    ensures
        sorted_union(sorted_union(a, b), c) == sorted_union(a, sorted_union(b, c)),
{
    lemma_sorted_union(a, b);
    lemma_sorted_union(b, c);
    assert(sorted_union(a, b).to_set() + c.to_set() =~= a.to_set() + sorted_union(b, c).to_set());
}

/// A command named in only one of the project and the user allowlist keeps
/// that allowlist's rule unchanged in the merge; one named in both keeps every
/// entry of both rules.
pub proof fn law_merge_keeps_rules(p: AllowlistConfigView, u: AllowlistConfigView, k: Seq<char>)
    ensures
        p.allow.dom().contains(k) ==> merged_config(Some(p), Some(u)).allow.dom().contains(k),
        u.allow.dom().contains(k) ==> merged_config(Some(p), Some(u)).allow.dom().contains(k),
        !p.allow.dom().contains(k) && !u.allow.dom().contains(k) ==> !merged_config(
            Some(p),
            Some(u),
        ).allow.dom().contains(k),
        p.allow.dom().contains(k) && !u.allow.dom().contains(k) ==> merged_config(
            Some(p),
            Some(u),
        ).allow[k] == p.allow[k],
        u.allow.dom().contains(k) && !p.allow.dom().contains(k) ==> merged_config(
            Some(p),
            Some(u),
        ).allow[k] == u.allow[k],
        p.allow.dom().contains(k) && u.allow.dom().contains(k) ==> keeps_entries(
            merged_config(Some(p), Some(u)).allow[k],
            p.allow[k],
        ) && keeps_entries(merged_config(Some(p), Some(u)).allow[k], u.allow[k]),
{
    if p.allow.dom().contains(k) && u.allow.dom().contains(k) {
        lemma_sorted_union(p.allow[k].sub, u.allow[k].sub);
        lemma_sorted_union(p.allow[k].deny_sub, u.allow[k].deny_sub);
        lemma_sorted_union(p.allow[k].deny_pattern, u.allow[k].deny_pattern);
    }
}

/// Merging two rules does not depend on their order.
pub proof fn law_merge_entries_commutes(a: AllowEntryView, b: AllowEntryView)
    ensures
        merged_entry(a, b) == merged_entry(b, a),
{
    law_union_commutes(a.sub, b.sub);
    law_union_commutes(a.deny_sub, b.deny_sub);
    law_union_commutes(a.deny_pattern, b.deny_pattern);
}

/// Merging the project and the user allowlist does not depend on which is
/// which: the merge is a field-level union.
pub proof fn law_merge_configs_symmetric(
    project: Option<AllowlistConfigView>,
    user: Option<AllowlistConfigView>,
)
    ensures
        merged_config(project, user) == merged_config(user, project),
{
    match (project, user) {
        (Some(p), Some(u)) => {
            law_union_commutes(p.presets, u.presets);
            assert forall|k: Seq<char>|
                #![trigger merged_allow(p.allow, u.allow)[k]]
                merged_allow(p.allow, u.allow).dom().contains(k) implies merged_allow(
                p.allow,
                u.allow,
            )[k] == merged_allow(u.allow, p.allow)[k] by {
                if p.allow.dom().contains(k) && u.allow.dom().contains(k) {
                    law_merge_entries_commutes(p.allow[k], u.allow[k]);
                }
            }
            assert(merged_allow(p.allow, u.allow) =~= merged_allow(u.allow, p.allow));
        },
        _ => {},
    }
}

/// A deny pattern blocks the text exactly when some pattern of the list does.
proof fn lemma_first_denying(ps: Seq<Seq<char>>, t: Seq<char>)
    ensures
        first_denying(ps, t) is Some <==> exists|i: int|
            0 <= i < ps.len() && pattern_denies(#[trigger] ps[i], t),
    decreases ps.len(),
{
    if ps.len() > 0 {
        lemma_first_denying(ps.drop_first(), t);
        if exists|i: int| 0 <= i < ps.len() && pattern_denies(#[trigger] ps[i], t) {
            let i = choose|i: int| 0 <= i < ps.len() && pattern_denies(#[trigger] ps[i], t);
            if i > 0 {
                assert(ps.drop_first()[i - 1] == ps[i]);
            }
        }
        if exists|i: int|
            0 <= i < ps.drop_first().len() && pattern_denies(#[trigger] ps.drop_first()[i], t) {
            let i = choose|i: int|
                0 <= i < ps.drop_first().len() && pattern_denies(#[trigger] ps.drop_first()[i], t);
            assert(ps[i + 1] == ps.drop_first()[i]);
        }
    }
}

/// Lists with the same strings deny and match the same things.
proof fn lemma_same_strings(a: Seq<Seq<char>>, b: Seq<Seq<char>>, t: Seq<char>, args: Seq<Seq<char>>)
    requires
        a.to_set().subset_of(b.to_set()),
    ensures
        first_denying(a, t) is Some ==> first_denying(b, t) is Some,
        any_entry_matches(a, args) ==> any_entry_matches(b, args),
{
    lemma_first_denying(a, t);
    lemma_first_denying(b, t);
    if first_denying(a, t) is Some {
        let i = choose|i: int| 0 <= i < a.len() && pattern_denies(#[trigger] a[i], t);
        assert(a.to_set().contains(a[i]));
        let j = choose|j: int| 0 <= j < b.len() && b[j] == a[i];
        assert(pattern_denies(b[j], t));
    }
    if any_entry_matches(a, args) {
        let i = choose|i: int| 0 <= i < a.len() && sub_entry_matches(#[trigger] a[i], args);
        assert(a.to_set().contains(a[i]));
        let j = choose|j: int| 0 <= j < b.len() && b[j] == a[i];
        assert(sub_entry_matches(b[j], args));
    }
}

/// What either rule denies (by a deny pattern or a denied subcommand), the
/// merged rule refuses: a project rule can block what a user rule allows.
pub proof fn law_merge_keeps_denials(a: AllowEntryView, b: AllowEntryView, cmd: CommandView)
    requires
        first_denying(a.deny_pattern, crate::text::join(cmd.args, " "@)) is Some
            || any_entry_matches(a.deny_sub, cmd.args),
    ensures
        entry_verdict(cmd, merged_entry(a, b)) is Some,
        entry_verdict(cmd, merged_entry(b, a)) is Some,
{
    let m = merged_entry(a, b);
    lemma_sorted_union(a.deny_pattern, b.deny_pattern);
    lemma_sorted_union(a.deny_sub, b.deny_sub);
    lemma_same_strings(a.deny_pattern, m.deny_pattern, crate::text::join(cmd.args, " "@), cmd.args);
    lemma_same_strings(a.deny_sub, m.deny_sub, crate::text::join(cmd.args, " "@), cmd.args);
    law_merge_entries_commutes(a, b);
}

/// A subcommand that one rule allows stays allowed in the merged rule, where
/// neither rule denies the command.
pub proof fn law_merge_keeps_allowed_subs(a: AllowEntryView, b: AllowEntryView, cmd: CommandView)
    requires
        a.sub.len() > 0,
        any_entry_matches(a.sub, cmd.args),
        first_denying(a.deny_pattern, crate::text::join(cmd.args, " "@)) is None,
        first_denying(b.deny_pattern, crate::text::join(cmd.args, " "@)) is None,
        !any_entry_matches(a.deny_sub, cmd.args),
        !any_entry_matches(b.deny_sub, cmd.args),
    ensures
        entry_verdict(cmd, merged_entry(a, b)) is None,
{
    let m = merged_entry(a, b);
    let t = crate::text::join(cmd.args, " "@);
    lemma_sorted_union(a.sub, b.sub);
    lemma_sorted_union(a.deny_pattern, b.deny_pattern);
    lemma_sorted_union(a.deny_sub, b.deny_sub);
    vstd::seq_lib::seq_to_set_distributes_over_add(a.deny_pattern, b.deny_pattern);
    vstd::seq_lib::seq_to_set_distributes_over_add(a.deny_sub, b.deny_sub);
    lemma_same_strings(a.sub, m.sub, t, cmd.args);
    lemma_same_strings(m.deny_pattern, a.deny_pattern + b.deny_pattern, t, cmd.args);
    lemma_same_strings(m.deny_sub, a.deny_sub + b.deny_sub, t, cmd.args);
    lemma_first_denying(a.deny_pattern + b.deny_pattern, t);
    lemma_first_denying(a.deny_pattern, t);
    lemma_first_denying(b.deny_pattern, t);
    if first_denying(a.deny_pattern + b.deny_pattern, t) is Some {
        let i = choose|i: int|
            0 <= i < (a.deny_pattern + b.deny_pattern).len() && pattern_denies(
                #[trigger] (a.deny_pattern + b.deny_pattern)[i],
                t,
            );
        if i < a.deny_pattern.len() {
            assert(pattern_denies(a.deny_pattern[i], t));
        } else {
            assert(pattern_denies(b.deny_pattern[i - a.deny_pattern.len()], t));
        }
    }
    if any_entry_matches(a.deny_sub + b.deny_sub, cmd.args) {
        let i = choose|i: int|
            0 <= i < (a.deny_sub + b.deny_sub).len() && sub_entry_matches(
                #[trigger] (a.deny_sub + b.deny_sub)[i],
                cmd.args,
            );
        if i < a.deny_sub.len() {
            assert(sub_entry_matches(a.deny_sub[i], cmd.args));
        } else {
            assert(sub_entry_matches(b.deny_sub[i - a.deny_sub.len()], cmd.args));
        }
    }
    assert(m.sub.len() > 0) by {
        let i = choose|i: int| 0 <= i < a.sub.len() && sub_entry_matches(#[trigger] a.sub[i], cmd.args);
        assert(a.sub.to_set().contains(a.sub[i]));
        assert(m.sub.to_set().contains(a.sub[i]));
    }
}

// ---------------------------------------------------------------------------
// Checking
// ---------------------------------------------------------------------------

/// A rule with empty lists (an empty `[allow.name]` section) allows the
/// command with any arguments.
pub proof fn law_empty_rule_allows_all(cmd: CommandView)
    ensures
        entry_verdict(
            cmd,
            AllowEntryView { sub: Seq::empty(), deny_sub: Seq::empty(), deny_pattern: Seq::empty() },
        ) is None,
{
}

/// A command that no rule names, not even up to case, is refused with its
/// description.
pub proof fn law_unlisted_command_refused(
    cmd: CommandView,
    allow: Map<Seq<char>, AllowEntryView>,
    v: Option<Seq<char>>,
)
    requires
        !has_entry(cmd.name, allow),
        possible_verdict(cmd, allow, v),
    ensures
        v == Some(describe(cmd)),
{
}

/// A rule applies to a command exactly when some name of the allowlist equals
/// the command's name, its lower-case form, or the name up to ASCII case; a
/// rule stored under the exact name is the one that applies.
pub proof fn law_rule_found_up_to_case(name: Seq<char>, allow: Map<Seq<char>, AllowEntryView>)
    ensures
        has_entry(name, allow) <==> (allow.dom().contains(name) || allow.dom().contains(
            lower_name(name),
        ) || exists|k: Seq<char>| allow.dom().contains(k) && ascii_ci_eq(k, name)),
        allow.dom().contains(name) ==> forall|k: Seq<char>|
            entry_candidate(name, allow, k) <==> k == name,
{
    if allow.dom().contains(name) {
        assert(entry_candidate(name, allow, name));
    } else if allow.dom().contains(lower_name(name)) {
        assert(entry_candidate(name, allow, lower_name(name)));
    } else if exists|k: Seq<char>| allow.dom().contains(k) && ascii_ci_eq(k, name) {
        let k = choose|k: Seq<char>| allow.dom().contains(k) && ascii_ci_eq(k, name);
        assert(entry_candidate(name, allow, k));
    }
}

/// The verdict on a command is that of the rule `rule_key` picks (the rule
/// `find_entry` returns), and a refusal by description where it picks none.
pub proof fn law_verdict_of_found_rule(
    cmd: CommandView,
    allow: Map<Seq<char>, AllowEntryView>,
    keys: Seq<Seq<char>>,
)
    ensures
        match rule_key(cmd.name, lower_name(cmd.name), allow, keys) {
            Some(k) => verdict(cmd, allow, keys) == entry_verdict(cmd, allow[k]),
            None => verdict(cmd, allow, keys) == Some(describe(cmd)),
        },
{
}

/// An ASCII command name that equals no name of the allowlist up to ASCII
/// case has no rule, and the command is refused by its description.
pub proof fn law_unlisted_ascii_name_refused(
    cmd: CommandView,
    allow: Map<Seq<char>, AllowEntryView>,
    keys: Seq<Seq<char>>,
)
    requires
        keys.to_set() == allow.dom(),
        is_ascii_text(cmd.name),
        forall|k: Seq<char>| allow.dom().contains(k) ==> !ascii_ci_eq(k, cmd.name),
    ensures
        !has_entry(cmd.name, allow),
        rule_key(cmd.name, lower_name(cmd.name), allow, keys) is None,
        verdict(cmd, allow, keys) == Some(describe(cmd)),
{
    let name = cmd.name;
    let low = ascii_lowered(name);
    assert(ascii_ci_eq(name, name));
    assert forall|i: int| 0 <= i < low.len() implies #[trigger] ascii_lower(low[i]) == ascii_lower(
        name[i],
    ) by {
        let c = name[i];
        assert(low[i] == ascii_lower(c));
        if 'A' <= c && c <= 'Z' {
            assert(ascii_lower(c) as u32 == c as u32 + 32);
        }
    }
    assert(ascii_ci_eq(low, name));
    assert(!allow.dom().contains(lower_name(name)));
    lemma_first_ci_key(keys, name);
    match first_ci_key(keys, name) {
        Some(k) => {
            assert(keys.to_set().contains(k));
        },
        None => {},
    }
    assert forall|k: Seq<char>| !entry_candidate(name, allow, k) by {}
}

/// Where a rule is stored under the command's exact name, that rule decides,
/// and the verdict is unique.
pub proof fn law_exact_name_decides(
    cmd: CommandView,
    allow: Map<Seq<char>, AllowEntryView>,
    v: Option<Seq<char>>,
)
    requires
        allow.dom().contains(cmd.name),
        possible_verdict(cmd, allow, v),
    ensures
        v == entry_verdict(cmd, allow[cmd.name]),
{
    assert(entry_candidate(cmd.name, allow, cmd.name));
}

/// A deny pattern that matches the arguments refuses the command, whatever
/// the subcommand lists say: deny patterns come first.
pub proof fn law_deny_pattern_first(cmd: CommandView, e: AllowEntryView, p: Seq<char>)
    requires
        first_denying(e.deny_pattern, crate::text::join(cmd.args, " "@)) == Some(p),
    ensures
        entry_verdict(cmd, e) == Some(describe(cmd) + " (denied: "@ + p + ")"@),
{
}

/// Under a rule with a non-empty `sub` list, a command that no deny pattern
/// or denied subcommand refuses, and whose leading arguments match no `sub`
/// entry, is refused by its description.
pub proof fn law_unlisted_sub_refused(cmd: CommandView, e: AllowEntryView)
    requires
        e.sub.len() > 0,
        first_denying(e.deny_pattern, crate::text::join(cmd.args, " "@)) is None,
        !any_entry_matches(e.deny_sub, cmd.args),
        !any_entry_matches(e.sub, cmd.args),
    ensures
        entry_verdict(cmd, e) == Some(describe(cmd)),
{
}

/// Whether a `sub` entry matches reads only the leading arguments, one per
/// word of the entry (one for an entry without words): later arguments, such
/// as paths, never decide it.
pub proof fn law_sub_reads_leading_args(entry: Seq<char>, args: Seq<Seq<char>>, more: Seq<Seq<char>>)
    ensures
        ({
            let n = if crate::text::words(entry).len() == 0 {
                1
            } else {
                crate::text::words(entry).len() as int
            };
            args.len() >= n ==> sub_entry_matches(entry, args + more) == sub_entry_matches(
                entry,
                args,
            )
        }),
        sub_entry_matches(entry, args) ==> args.len() >= 1,
{
    let w = crate::text::words(entry);
    let all = args + more;
    if w.len() == 0 {
        if args.len() >= 1 {
            assert(all[0] == args[0]);
        }
    } else if args.len() >= w.len() {
        assert forall|i: int| 0 <= i < w.len() implies all[i] == args[i] by {}
    }
}

/// A denied subcommand is refused even where `sub` lists it, unless a deny
/// pattern refused it first.
pub proof fn law_deny_sub_over_sub(cmd: CommandView, e: AllowEntryView)
    requires
        first_denying(e.deny_pattern, crate::text::join(cmd.args, " "@)) is None,
        any_entry_matches(e.deny_sub, cmd.args),
    ensures
        entry_verdict(cmd, e) == Some(describe(cmd) + " (denied sub)"@),
{
}

proof fn lemma_refusals_empty(vs: Seq<Option<Seq<char>>>)
    ensures
        refusals(vs).len() == 0 <==> forall|i: int| 0 <= i < vs.len() ==> #[trigger] vs[i] is None,
    decreases vs.len(),
{
    if vs.len() > 0 {
        let d = vs.drop_last();
        lemma_refusals_empty(d);
        if forall|i: int| 0 <= i < vs.len() ==> #[trigger] vs[i] is None {
            assert forall|i: int| 0 <= i < d.len() implies #[trigger] d[i] is None by {
                assert(d[i] == vs[i]);
            }
            assert(vs[vs.len() - 1] is None);
        }
        if refusals(vs).len() == 0 {
            assert(vs.last() is None);
            assert forall|i: int| 0 <= i < vs.len() implies #[trigger] vs[i] is None by {
                if i < vs.len() - 1 {
                    assert(d[i] == vs[i]);
                }
            }
        }
    }
}

/// A list of commands is allowed exactly when each of its commands is; an
/// empty list is allowed.
pub proof fn law_all_or_refusals(
    cmds: Seq<CommandView>,
    allow: Map<Seq<char>, AllowEntryView>,
    vs: Seq<Option<Seq<char>>>,
)
    requires
        possible_verdicts(cmds, allow, vs),
    ensures
        gather(vs) is None <==> forall|i: int| 0 <= i < vs.len() ==> #[trigger] vs[i] is None,
        cmds.len() == 0 ==> gather(vs) is None,
{
    lemma_refusals_empty(vs);
}

// ---------------------------------------------------------------------------
// Presets
// ---------------------------------------------------------------------------

/// Whether every string of `a` is in `b`.
pub open spec fn covers(b: Seq<Seq<char>>, a: Seq<Seq<char>>) -> bool {
    a.to_set().subset_of(b.to_set())
}

/// Whether the rule `b` keeps every entry of the rule `a`.
pub open spec fn keeps_entries(b: AllowEntryView, a: AllowEntryView) -> bool {
    covers(b.sub, a.sub) && covers(b.deny_sub, a.deny_sub) && covers(b.deny_pattern, a.deny_pattern)
}

/// Presets add to the configuration's own rules and never take from them:
/// every command the configuration names stays, with every entry of its rule.
pub proof fn law_presets_keep_config_rules(
    allow: Map<Seq<char>, AllowEntryView>,
    names: Seq<Seq<char>>,
    loaded: Seq<(Seq<char>, Map<Seq<char>, AllowEntryView>)>,
    no_coreutils: bool,
    k: Seq<char>,
)
    requires
        allow.dom().contains(k),
    ensures
        applied(allow, names, loaded, no_coreutils).dom().contains(k),
        keeps_entries(applied(allow, names, loaded, no_coreutils)[k], allow[k]),
    decreases names.len(),
{
    if names.len() > 0 {
        law_presets_keep_config_rules(allow, names.drop_last(), loaded, no_coreutils, k);
        let before = applied(allow, names.drop_last(), loaded, no_coreutils);
        let name = names.last();
        if name != "no-coreutils"@ {
            match find_loaded(loaded, name) {
                None => {},
                Some(p) => {
                    let skip = no_coreutils && name == "bash-readonly"@;
                    let after = overlay(before, p, skip);
                    if p.dom().contains(k) && !(skip && crate::preset::coreutils().contains(k)) {
                        let m = merged_entry(p[k], before[k]);
                        lemma_sorted_union(p[k].sub, before[k].sub);
                        lemma_sorted_union(p[k].deny_sub, before[k].deny_sub);
                        lemma_sorted_union(p[k].deny_pattern, before[k].deny_pattern);
                        assert(after[k] == m);
                    }
                },
            }
        }
    }
}

/// Applying the presets of `a` and then those of `b` is applying those of
/// `a + b`.
pub proof fn lemma_applied_concat(
    allow: Map<Seq<char>, AllowEntryView>,
    a: Seq<Seq<char>>,
    b: Seq<Seq<char>>,
    loaded: Seq<(Seq<char>, Map<Seq<char>, AllowEntryView>)>,
    no_coreutils: bool,
)
    ensures
        applied(allow, a + b, loaded, no_coreutils) == applied(
            applied(allow, a, loaded, no_coreutils),
            b,
            loaded,
            no_coreutils,
        ),
    decreases b.len(),
{
    if b.len() == 0 {
        assert(a + b =~= a);
    } else {
        lemma_applied_concat(allow, a, b.drop_last(), loaded, no_coreutils);
        assert((a + b).drop_last() =~= a + b.drop_last());
        assert((a + b).last() == b.last());
    }
}

/// Every loaded preset that the configuration names brings its rules: each
/// of its commands (but the coreutils commands of `bash-readonly` under the
/// modifier `no-coreutils`) is in the result, with every entry of the
/// preset's rule.
pub proof fn law_presets_bring_their_rules(
    allow: Map<Seq<char>, AllowEntryView>,
    names: Seq<Seq<char>>,
    loaded: Seq<(Seq<char>, Map<Seq<char>, AllowEntryView>)>,
    no_coreutils: bool,
    i: int,
    p: Map<Seq<char>, AllowEntryView>,
    k: Seq<char>,
)
    requires
        0 <= i < names.len(),
        names[i] != "no-coreutils"@,
        find_loaded(loaded, names[i]) == Some(p),
        p.dom().contains(k),
        !(no_coreutils && names[i] == "bash-readonly"@ && coreutils().contains(k)),
    ensures
        applied(allow, names, loaded, no_coreutils).dom().contains(k),
        keeps_entries(applied(allow, names, loaded, no_coreutils)[k], p[k]),
{
    let mid = names.take(i + 1);
    let rest = names.skip(i + 1);
    assert(mid.drop_last() =~= names.take(i));
    assert(mid.last() == names[i]);
    let before = applied(allow, names.take(i), loaded, no_coreutils);
    let at = applied(allow, mid, loaded, no_coreutils);
    let skip = no_coreutils && names[i] == "bash-readonly"@;
    assert(at == overlay(before, p, skip));
    assert(at.dom().contains(k));
    if before.dom().contains(k) {
        lemma_sorted_union(p[k].sub, before[k].sub);
        lemma_sorted_union(p[k].deny_sub, before[k].deny_sub);
        lemma_sorted_union(p[k].deny_pattern, before[k].deny_pattern);
    }
    assert(keeps_entries(at[k], p[k]));
    law_presets_keep_config_rules(at, rest, loaded, no_coreutils, k);
    lemma_applied_concat(allow, mid, rest, loaded, no_coreutils);
    assert(mid + rest =~= names);
    let fin = applied(allow, names, loaded, no_coreutils);
    assert(keeps_entries(fin[k], at[k]));
    assert(p[k].sub.to_set().subset_of(fin[k].sub.to_set()));
    assert(p[k].deny_sub.to_set().subset_of(fin[k].deny_sub.to_set()));
    assert(p[k].deny_pattern.to_set().subset_of(fin[k].deny_pattern.to_set()));
}

/// Presets add only their own commands: every command of the result is one
/// of the configuration or of a loaded preset that it names.
pub proof fn law_presets_add_only_their_names(
    allow: Map<Seq<char>, AllowEntryView>,
    names: Seq<Seq<char>>,
    loaded: Seq<(Seq<char>, Map<Seq<char>, AllowEntryView>)>,
    no_coreutils: bool,
    k: Seq<char>,
)
    requires
        applied(allow, names, loaded, no_coreutils).dom().contains(k),
    ensures
        allow.dom().contains(k) || exists|i: int|
            0 <= i < names.len() && match find_loaded(loaded, #[trigger] names[i]) {
                Some(p) => p.dom().contains(k),
                None => false,
            },
    decreases names.len(),
{
    if names.len() > 0 {
        let d = names.drop_last();
        let before = applied(allow, d, loaded, no_coreutils);
        let last = names.len() - 1;
        assert(names[last] == names.last());
        if before.dom().contains(k) {
            law_presets_add_only_their_names(allow, d, loaded, no_coreutils, k);
            if !allow.dom().contains(k) {
                let i = choose|i: int|
                    0 <= i < d.len() && match find_loaded(loaded, #[trigger] d[i]) {
                        Some(p) => p.dom().contains(k),
                        None => false,
                    };
                assert(names[i] == d[i]);
            }
        }
    }
}

/// A name without a loaded preset adds nothing: the result is that of the
/// other names alone.
pub proof fn law_unknown_preset_adds_nothing(
    allow: Map<Seq<char>, AllowEntryView>,
    names: Seq<Seq<char>>,
    loaded: Seq<(Seq<char>, Map<Seq<char>, AllowEntryView>)>,
    no_coreutils: bool,
    n: Seq<char>,
)
    requires
        find_loaded(loaded, n) is None,
    ensures
        applied(allow, names, loaded, no_coreutils) == applied(
            allow,
            names.filter(|x: Seq<char>| x != n),
            loaded,
            no_coreutils,
        ),
    decreases names.len(),
{
    reveal(Seq::filter);
    if names.len() > 0 {
        law_unknown_preset_adds_nothing(allow, names.drop_last(), loaded, no_coreutils, n);
        let f = names.filter(|x: Seq<char>| x != n);
        let fd = names.drop_last().filter(|x: Seq<char>| x != n);
        if names.last() != n {
            assert(f == fd.push(names.last()));
            assert(f.drop_last() =~= fd);
        } else {
            assert(f == fd);
        }
    }
}

// ---------------------------------------------------------------------------
// Parsing
// ---------------------------------------------------------------------------

/// A command that launches no shell, or a launcher without its flag or with
/// the flag as its last argument, has no second stage.
pub proof fn law_no_second_stage(
    input: Seq<char>,
    node: SyntaxTree,
    name: Seq<char>,
    args: Seq<Seq<char>>,
)
    requires
        (!is_cmd_launcher(name) && !is_nu_launcher(name) && !is_ps_launcher(name)) || (
        is_cmd_launcher(name) && (forall|i: int|
            0 <= i < args.len() - 1 ==> !ascii_ci_eq(#[trigger] args[i], "/c"@))) || (
        !is_cmd_launcher(name) && (forall|i: int|
            0 <= i < args.len() - 1 ==> #[trigger] args[i] != "-c"@)),
    ensures
        second_stage_items(input, node, name, args) == Seq::<ExtractedView>::empty(),
{
    let c = "/c"@;
    let d = "-c"@;
    if is_cmd_launcher(name) {
        let i = first_ci(args, c);
        if forall|j: int| 0 <= j < args.len() - 1 ==> !ascii_ci_eq(#[trigger] args[j], c) {
            if args.len() > 0 && ascii_ci_eq(args[args.len() - 1], c) {
                lemma_first_ci(args, c, args.len() - 1);
            } else {
                lemma_first_ci(args, c, args.len() as int);
            }
        }
    } else if is_nu_launcher(name) || is_ps_launcher(name) {
        if forall|j: int| 0 <= j < args.len() - 1 ==> #[trigger] args[j] != d {
            if args.len() > 0 && args[args.len() - 1] == d {
                lemma_first_exact(args, d, args.len() - 1);
            } else {
                lemma_first_exact(args, d, args.len() as int);
            }
        }
    }
}

/// `cmd /c script` (the flag in any case, its first occurrence) runs the
/// commands of the script, parsed as bash again.
pub proof fn law_cmd_second_stage(
    input: Seq<char>,
    node: SyntaxTree,
    name: Seq<char>,
    args: Seq<Seq<char>>,
    i: int,
)
    requires
        is_cmd_launcher(name),
        0 <= i,
        i + 1 < args.len(),
        ascii_ci_eq(args[i], "/c"@),
        forall|j: int| 0 <= j < i ==> !ascii_ci_eq(#[trigger] args[j], "/c"@),
        args[i + 1].len() < input.len(),
    ensures
        second_stage_items(input, node, name, args) == bash_items(args[i + 1]),
{
    lemma_first_ci(args, "/c"@, i);
}

/// `pwsh -c script` (and `pwsh.exe`, `powershell`, `powershell.exe`; the first
/// `-c`) runs the commands of the script, parsed as PowerShell; `nu -c script`
/// (and `nu.exe`) hands the script on as Nushell.
pub proof fn law_c_flag_second_stage(
    input: Seq<char>,
    node: SyntaxTree,
    name: Seq<char>,
    args: Seq<Seq<char>>,
    i: int,
)
    requires
        is_nu_launcher(name) || is_ps_launcher(name),
        0 <= i,
        i + 1 < args.len(),
        args[i] == "-c"@,
        forall|j: int| 0 <= j < i ==> #[trigger] args[j] != "-c"@,
    ensures
        is_ps_launcher(name) ==> second_stage_items(input, node, name, args) == powershell_items(
            args[i + 1],
        ),
        is_nu_launcher(name) ==> second_stage_items(input, node, name, args) == seq![
            ExtractedView::Nushell(args[i + 1]),
        ],
{
    lemma_first_exact(args, "-c"@, i);
    reveal_strlit("cmd");
    reveal_strlit("cmd.exe");
    reveal_strlit("nu");
    reveal_strlit("nu.exe");
    reveal_strlit("pwsh");
    reveal_strlit("pwsh.exe");
    reveal_strlit("powershell");
    reveal_strlit("powershell.exe");
    assert("cmd"@.len() == 3 && "cmd.exe"@.len() == 7);
    assert("nu"@.len() == 2 && "nu.exe"@.len() == 6 && "pwsh"@.len() == 4);
    assert("pwsh.exe"@.len() == 8 && "powershell"@.len() == 10);
    assert("powershell.exe"@.len() == 14);
    assert(!is_cmd_launcher(name));
    assert(first_exact(args, "-c"@) == i);
    assert(script_after(args, i) == Some(args[i + 1]));
}

/// The commands of a sequence of PowerShell trees hold those of each tree.
proof fn lemma_ps_forest_holds(s: Seq<SyntaxTree>, i: int, c: CommandView)
    requires
        0 <= i < s.len(),
        crate::parser::powershell::tree_commands(s[i]).contains(c),
    ensures
        crate::parser::powershell::forest_commands(s).contains(c),
    decreases s.len(),
{
    let f = crate::parser::powershell::forest_commands(s);
    let before = crate::parser::powershell::forest_commands(s.drop_last());
    let last = crate::parser::powershell::tree_commands(s.last());
    assert(f == before + last);
    if i == s.len() - 1 {
        let j = choose|j: int| 0 <= j < last.len() && last[j] == c;
        assert(f[before.len() + j] == c);
    } else {
        assert(s.drop_last()[i] == s[i]);
        lemma_ps_forest_holds(s.drop_last(), i, c);
        let j = choose|j: int| 0 <= j < before.len() && before[j] == c;
        assert(f[j] == c);
    }
}

/// Every `command` node anywhere in a PowerShell syntax tree gives its
/// command, also one nested inside another command (as in a script block
/// argument): the commands of the tree hold it.
pub proof fn law_powershell_every_command_node(t: SyntaxTree, path: Seq<int>, c: CommandView)
    requires
        subtree_at(t, path) matches Some(d) && d.kind == "command"@
            && crate::parser::powershell::command_of(d).contains(c),
    ensures
        crate::parser::powershell::tree_commands(t).contains(c),
    decreases path.len(),
{
    let own = if t.kind == "command"@ {
        crate::parser::powershell::command_of(t)
    } else {
        Seq::empty()
    };
    let all = crate::parser::powershell::tree_commands(t);
    let rest = crate::parser::powershell::forest_commands(t.children);
    assert(all == own + rest);
    if path.len() == 0 {
        let j = choose|j: int| 0 <= j < own.len() && own[j] == c;
        assert(all[j] == c);
    } else {
        let i = path[0];
        law_powershell_every_command_node(t.children[i], path.drop_first(), c);
        lemma_ps_forest_holds(t.children, i, c);
        let j = choose|j: int| 0 <= j < rest.len() && rest[j] == c;
        assert(all[own.len() + j] == c);
    }
}

/// The commands of a sequence of Nushell trees hold those of each tree.
proof fn lemma_nu_forest_holds(s: Seq<SyntaxTree>, i: int, c: CommandView)
    requires
        0 <= i < s.len(),
        crate::parser::nushell::tree_commands(s[i]).contains(c),
    ensures
        crate::parser::nushell::forest_commands(s).contains(c),
    decreases s.len(),
{
    let f = crate::parser::nushell::forest_commands(s);
    let before = crate::parser::nushell::forest_commands(s.drop_last());
    let last = crate::parser::nushell::tree_commands(s.last());
    assert(f == before + last);
    if i == s.len() - 1 {
        let j = choose|j: int| 0 <= j < last.len() && last[j] == c;
        assert(f[before.len() + j] == c);
    } else {
        assert(s.drop_last()[i] == s[i]);
        lemma_nu_forest_holds(s.drop_last(), i, c);
        let j = choose|j: int| 0 <= j < before.len() && before[j] == c;
        assert(f[j] == c);
    }
}

/// Every node anywhere in a Nushell syntax tree gives its own command, also a
/// `command` node nested inside another (as in a closure argument): the
/// commands of the tree hold it.
pub proof fn law_nushell_every_command_node(t: SyntaxTree, path: Seq<int>, c: CommandView)
    requires
        subtree_at(t, path) matches Some(d) && crate::parser::nushell::own_commands(d).contains(c),
    ensures
        crate::parser::nushell::tree_commands(t).contains(c),
    decreases path.len(),
{
    let own = crate::parser::nushell::own_commands(t);
    let all = crate::parser::nushell::tree_commands(t);
    let rest = crate::parser::nushell::forest_commands(t.children);
    assert(all == own + rest);
    if path.len() == 0 {
        let j = choose|j: int| 0 <= j < own.len() && own[j] == c;
        assert(all[j] == c);
    } else {
        let i = path[0];
        law_nushell_every_command_node(t.children[i], path.drop_first(), c);
        lemma_nu_forest_holds(t.children, i, c);
        let j = choose|j: int| 0 <= j < rest.len() && rest[j] == c;
        assert(all[own.len() + j] == c);
    }
}

/// `pwsh`, `pwsh.exe`, `powershell` and `powershell.exe` with `-c script`
/// (the first `-c`) run the commands of the script, parsed as PowerShell;
/// `nu` and `nu.exe` hand the script on as Nushell; `cmd` and `cmd.exe` with
/// `/c script` (the first, in any case) run the script parsed as bash.
pub proof fn law_launcher_names(
    input: Seq<char>,
    node: SyntaxTree,
    name: Seq<char>,
    args: Seq<Seq<char>>,
    i: int,
)
    requires
        0 <= i,
        i + 1 < args.len(),
    ensures
        (name == "pwsh"@ || name == "pwsh.exe"@ || name == "powershell"@ || name
            == "powershell.exe"@) && args[i] == "-c"@ && (forall|j: int|
            0 <= j < i ==> #[trigger] args[j] != "-c"@) ==> second_stage_items(
            input,
            node,
            name,
            args,
        ) == powershell_items(args[i + 1]),
        (name == "nu"@ || name == "nu.exe"@) && args[i] == "-c"@ && (forall|j: int|
            0 <= j < i ==> #[trigger] args[j] != "-c"@) ==> second_stage_items(
            input,
            node,
            name,
            args,
        ) == seq![ExtractedView::Nushell(args[i + 1])],
        (name == "cmd"@ || name == "cmd.exe"@) && ascii_ci_eq(args[i], "/c"@) && (forall|j: int|
            0 <= j < i ==> !ascii_ci_eq(#[trigger] args[j], "/c"@)) && args[i + 1].len()
            < input.len() ==> second_stage_items(input, node, name, args) == bash_items(
            args[i + 1],
        ),
{
    if (name == "pwsh"@ || name == "pwsh.exe"@ || name == "powershell"@ || name
        == "powershell.exe"@ || name == "nu"@ || name == "nu.exe"@) && args[i] == "-c"@ && (forall|
        j: int|
        0 <= j < i ==> #[trigger] args[j] != "-c"@) {
        law_c_flag_second_stage(input, node, name, args, i);
    }
    if (name == "cmd"@ || name == "cmd.exe"@) && ascii_ci_eq(args[i], "/c"@) && (forall|j: int|
        0 <= j < i ==> !ascii_ci_eq(#[trigger] args[j], "/c"@)) && args[i + 1].len()
        < input.len() {
        law_cmd_second_stage(input, node, name, args, i);
    }
}

/// A command's base name holds no path separator and ends its path.
pub proof fn law_basename(s: Seq<char>)
    ensures
        forall|i: int|
            0 <= i < spec_basename(s).len() ==> !is_path_separator(#[trigger] spec_basename(s)[i]),
        spec_basename(s).len() <= s.len(),
        spec_basename(s) == s.subrange(s.len() - spec_basename(s).len(), s.len() as int),
    decreases s.len(),
{
    if s.len() > 0 {
        law_basename(s.drop_last());
        if !is_path_separator(s.last()) {
            let b = spec_basename(s.drop_last());
            assert(spec_basename(s) =~= s.subrange(s.len() - spec_basename(s).len(), s.len() as int))
                by {
                assert(b =~= s.drop_last().subrange(
                    s.drop_last().len() - b.len(),
                    s.drop_last().len() as int,
                ));
            }
        } else {
            assert(spec_basename(s) =~= s.subrange(s.len() as int, s.len() as int));
        }
    } else {
        assert(s =~= s.subrange(0, 0));
    }
}

} // verus!
