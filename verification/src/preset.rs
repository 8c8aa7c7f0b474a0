//! Presets: named allowlists that a configuration applies as a base layer.
use vstd::prelude::*;

use crate::allowlist::{merge_entries, merged_entry};
use crate::text::{str_eq, views};
use crate::types::{AllowEntryView, AllowMap, AllowlistConfig};

verus! {

/// The names of the presets that can be applied, and the modifier
/// `no-coreutils`.
pub open spec fn preset_names() -> Seq<Seq<char>> {
    seq![
        "bash-readonly"@, "nu-readonly"@, "ps-readonly"@, "cmd-readonly"@,
        "git-readonly"@, "npm-readonly"@, "pnpm-readonly"@, "yarn-readonly"@,
        "cargo-readonly"@, "pip-readonly"@, "go-readonly"@, "node-readonly"@,
        "rustup-readonly"@, "cargo-build"@, "npm-build"@, "pnpm-build"@, "yarn-build"@,
        "git-fetch"@, "go-build"@, "cargo-test"@, "npm-test"@, "pnpm-test"@, "yarn-test"@,
        "go-test"@, "docker-readonly"@, "podman-readonly"@, "apt-readonly"@,
        "dnf-readonly"@, "pacman-readonly"@, "brew-readonly"@, "winget-readonly"@,
        "choco-readonly"@, "scoop-readonly"@, "kubectl-readonly"@, "gh-readonly"@,
        "no-coreutils"@,
    ]
}

/// The names of all presets, and the modifier `no-coreutils`.
pub fn available_preset_names() -> (r: Vec<&'static str>)
    ensures
        r@.map_values(|s: &str| s@) == preset_names(),
{
    let r = vec![
        "bash-readonly", "nu-readonly", "ps-readonly", "cmd-readonly",
        "git-readonly", "npm-readonly", "pnpm-readonly", "yarn-readonly",
        "cargo-readonly", "pip-readonly", "go-readonly", "node-readonly",
        "rustup-readonly", "cargo-build", "npm-build", "pnpm-build", "yarn-build",
        "git-fetch", "go-build", "cargo-test", "npm-test", "pnpm-test", "yarn-test",
        "go-test", "docker-readonly", "podman-readonly", "apt-readonly",
        "dnf-readonly", "pacman-readonly", "brew-readonly", "winget-readonly",
        "choco-readonly", "scoop-readonly", "kubectl-readonly", "gh-readonly",
        "no-coreutils",
    ];
    assert(r@.map_values(|s: &str| s@) =~= preset_names());
    r
}


/// The commands that `bash-readonly` takes from coreutils, which the modifier
/// `no-coreutils` leaves out.
pub open spec fn coreutils() -> Seq<Seq<char>> {
    seq![
        "ls"@, "cat"@, "head"@, "tail"@, "wc"@, "grep"@, "find"@, "diff"@, "sort"@, "uniq"@,
        "tr"@, "basename"@, "dirname"@, "realpath"@, "file"@, "stat"@, "du"@, "df"@, "less"@,
        "more"@, "seq"@,
    ]
}

/// Whether `name` is one of the coreutils commands.
fn is_coreutil(name: &str) -> (r: bool)
    ensures
        r == coreutils().contains(name@),
{
    let list = vec![
        "ls", "cat", "head", "tail", "wc", "grep", "find", "diff", "sort", "uniq", "tr",
        "basename", "dirname", "realpath", "file", "stat", "du", "df", "less", "more", "seq",
    ];
    assert(list@.map_values(|s: &str| s@) =~= coreutils());
    for i in 0..list.len()
        invariant
            list@.map_values(|s: &str| s@) == coreutils(),
            forall|j: int| 0 <= j < i ==> coreutils()[j] != name@,
    {
        if str_eq(list[i], name) {
            assert(coreutils()[i as int] == list@[i as int]@);
            return true;
        }
    }
    false
}

/// The preset loaded under `name`: the first of `loaded` with that name.
pub open spec fn find_loaded(
    loaded: Seq<(Seq<char>, Map<Seq<char>, AllowEntryView>)>,
    name: Seq<char>,
) -> Option<Map<Seq<char>, AllowEntryView>>
    decreases loaded.len(),
{
    if loaded.len() == 0 {
        None
    } else if loaded[0].0 == name {
        Some(loaded[0].1)
    } else {
        find_loaded(loaded.drop_first(), name)
    }
}

/// The names and rule maps of loaded presets.
pub open spec fn loaded_views(loaded: Seq<(String, AllowlistConfig)>) -> Seq<
    (Seq<char>, Map<Seq<char>, AllowEntryView>),
> {
    loaded.map_values(|p: (String, AllowlistConfig)| (p.0@, p.1@.allow))
}

/// The rules of `preset` laid under `allow`: a name of the preset is added,
/// merged with the rule of `allow` where there is one; with `skip_coreutils`,
/// the coreutils commands of the preset are left out.
pub open spec fn overlay(
    allow: Map<Seq<char>, AllowEntryView>,
    preset: Map<Seq<char>, AllowEntryView>,
    skip_coreutils: bool,
) -> Map<Seq<char>, AllowEntryView> {
    Map::new(
        |k: Seq<char>|
            allow.dom().contains(k) || (preset.dom().contains(k) && !(skip_coreutils
                && coreutils().contains(k))),
        |k: Seq<char>|
            if preset.dom().contains(k) && !(skip_coreutils && coreutils().contains(k)) {
                if allow.dom().contains(k) {
                    merged_entry(preset[k], allow[k])
                } else {
                    preset[k]
                }
            } else {
                allow[k]
            },
    )
}

/// The rules after applying the presets named in `names`, in order: the
/// modifier `no-coreutils` and names without a loaded preset add nothing, and
/// where `no_coreutils` holds, `bash-readonly` is applied without coreutils.
pub open spec fn applied(
    allow: Map<Seq<char>, AllowEntryView>,
    names: Seq<Seq<char>>,
    loaded: Seq<(Seq<char>, Map<Seq<char>, AllowEntryView>)>,
    no_coreutils: bool,
) -> Map<Seq<char>, AllowEntryView>
    decreases names.len(),
{
    if names.len() == 0 {
        allow
    } else {
        let before = applied(allow, names.drop_last(), loaded, no_coreutils);
        let name = names.last();
        if name == "no-coreutils"@ {
            before
        } else {
            match find_loaded(loaded, name) {
                None => before,
                Some(p) => overlay(before, p, no_coreutils && name == "bash-readonly"@),
            }
        }
    }
}

/// The preset loaded under `name`, if any.
fn lookup<'a>(loaded: &'a Vec<(String, AllowlistConfig)>, name: &str) -> (r: Option<
    &'a AllowlistConfig,
>)
    ensures
        match r {
            Some(c) => find_loaded(loaded_views(loaded@), name@) == Some(c@.allow),
            None => find_loaded(loaded_views(loaded@), name@) is None,
        },
{
    let ghost lv = loaded_views(loaded@);
    assert(lv.skip(0) =~= lv);
    for i in 0..loaded.len()
        invariant
            lv == loaded_views(loaded@),
            find_loaded(lv, name@) == find_loaded(lv.skip(i as int), name@),
    {
        assert(lv.skip(i as int)[0] == lv[i as int]);
        if str_eq(loaded[i].0.as_str(), name) {
            return Some(&loaded[i].1);
        }
        assert(lv.skip(i as int).drop_first() =~= lv.skip(i + 1));
    }
    assert(lv.skip(loaded@.len() as int) =~= Seq::<(Seq<char>, Map<Seq<char>, AllowEntryView>)>::empty());
    None
}

/// Lays the rules of `preset` under `allow`.
fn overlay_into(allow: &mut AllowMap, preset: &AllowMap, skip_coreutils: bool)
    ensures
        final(allow)@ == overlay(old(allow)@, preset@, skip_coreutils),
{
    let ghost a = allow@;
    let ghost target = overlay(a, preset@, skip_coreutils);
    let keys = preset.keys();
    for i in 0..keys.len()
        invariant
            target == overlay(a, preset@, skip_coreutils),
            views(keys@).to_set() == preset@.dom(),
            views(keys@).no_duplicates(),
            allow@.dom() == a.dom() + views(keys@).take(i as int).to_set().filter(
                |k: Seq<char>| !(skip_coreutils && coreutils().contains(k)),
            ),
            forall|k: Seq<char>|
                allow@.dom().contains(k) && views(keys@).take(i as int).contains(k) && !(
                skip_coreutils && coreutils().contains(k)) ==> #[trigger] allow@[k] == target[k],
            forall|k: Seq<char>|
                allow@.dom().contains(k) && !(views(keys@).take(i as int).contains(k) && !(
                skip_coreutils && coreutils().contains(k))) ==> #[trigger] allow@[k] == a[k],
    {
        let key = &keys[i];
        let ghost kv = key@;
        assert(views(keys@)[i as int] == kv);
        assert(views(keys@).to_set().contains(kv));
        assert(!views(keys@).take(i as int).contains(kv)) by {
            if views(keys@).take(i as int).contains(kv) {
                let j = choose|j: int| 0 <= j < i && views(keys@).take(i as int)[j] == kv;
                assert(views(keys@)[j] == views(keys@)[i as int]);
            }
        }
        let ghost before = allow@;
        let skip = skip_coreutils && is_coreutil(key.as_str());
        if !skip {
            match preset.get(key.as_str()) {
                Some(pe) => {
                    let entry = match allow.get(key.as_str()) {
                        Some(existing) => merge_entries(pe, existing),
                        None => pe.copy(),
                    };
                    proof {
                        if before.dom().contains(kv) {
                            assert(a.dom().contains(kv));
                            assert(before[kv] == a[kv]);
                            assert(entry@ == target[kv]);
                        } else {
                            assert(!a.dom().contains(kv));
                            assert(entry@ == target[kv]);
                        }
                    }
                    allow.insert(key.clone(), entry);
                },
                None => {},
            }
        }
        assert(views(keys@).take(i + 1) =~= views(keys@).take(i as int).push(kv));
        proof {
            views(keys@).take(i as int).lemma_push_to_set_commute(kv);
            assert forall|k: Seq<char>|
                views(keys@).take(i + 1).contains(k) <==> (views(keys@).take(i as int).contains(k)
                    || k == kv) by {
                if views(keys@).take(i + 1).contains(k) {
                    let j = choose|j: int| 0 <= j < i + 1 && #[trigger] views(keys@).take(i + 1)[j] == k;
                    if j < i {
                        assert(views(keys@).take(i as int)[j] == k);
                    }
                }
                if views(keys@).take(i as int).contains(k) {
                    let j = choose|j: int| 0 <= j < i && #[trigger] views(keys@).take(i as int)[j] == k;
                    assert(views(keys@).take(i + 1)[j] == k);
                }
                if k == kv {
                    assert(views(keys@).take(i + 1)[i as int] == k);
                }
            }
        }
        assert(allow@.dom() =~= a.dom() + views(keys@).take(i + 1).to_set().filter(
            |k: Seq<char>| !(skip_coreutils && coreutils().contains(k)),
        ));
    }
    assert(views(keys@).take(keys@.len() as int) =~= views(keys@));
    assert forall|k: Seq<char>| views(keys@).contains(k) <==> preset@.dom().contains(k) by {
        assert(views(keys@).to_set().contains(k) == views(keys@).contains(k));
    }
    assert(allow@.dom() =~= target.dom());
    assert forall|k: Seq<char>| allow@.dom().contains(k) implies allow@[k] == target[k] by {
        if views(keys@).contains(k) && !(skip_coreutils && coreutils().contains(k)) {
            assert(views(keys@).take(keys@.len() as int).contains(k));
        } else {
            assert(!(views(keys@).take(keys@.len() as int).contains(k) && !(skip_coreutils
                && coreutils().contains(k))));
            assert(!(preset@.dom().contains(k) && !(skip_coreutils && coreutils().contains(k))));
        }
    }
    assert(allow@ =~= target);
}

/// Applies the presets that `config` names, in order, as a base layer under
/// its own rules: the rules of each preset are merged into those of the
/// configuration. `loaded` holds the presets that could be loaded, by name; a
/// name without one adds nothing. The modifier `no-coreutils` leaves the
/// coreutils commands out of `bash-readonly`.
pub fn apply_presets(config: &mut AllowlistConfig, loaded: &Vec<(String, AllowlistConfig)>)
    ensures
        final(config)@.presets == old(config)@.presets,
        final(config)@.allow == applied(
            old(config)@.allow,
            old(config)@.presets,
            loaded_views(loaded@),
            old(config)@.presets.contains("no-coreutils"@),
        ),
{
    let ghost a = config@.allow;
    let ghost names = config@.presets;
    let ghost lv = loaded_views(loaded@);
    let n = config.presets.len();
    let mut has_no_coreutils = false;
    for i in 0..n
        invariant
            n == config.presets@.len(),
            has_no_coreutils == exists|j: int|
                0 <= j < i && #[trigger] views(config.presets@)[j] == "no-coreutils"@,
    {
        let hit = str_eq(config.presets[i].as_str(), "no-coreutils");
        proof {
            if hit {
                assert(views(config.presets@)[i as int] == "no-coreutils"@);
            } else {
                assert(views(config.presets@)[i as int] != "no-coreutils"@);
            }
        }
        if hit {
            has_no_coreutils = true;
        }
    }
    assert(has_no_coreutils == names.contains("no-coreutils"@));
    for i in 0..n
        invariant
            n == names.len(),
            names == views(config.presets@),
            lv == loaded_views(loaded@),
            has_no_coreutils == names.contains("no-coreutils"@),
            config@.allow == applied(a, names.take(i as int), lv, has_no_coreutils),
    {
        assert(names.take(i + 1).drop_last() =~= names.take(i as int));
        assert(names.take(i + 1).last() == config.presets@[i as int]@);
        let is_modifier = str_eq(config.presets[i].as_str(), "no-coreutils");
        if !is_modifier {
            match lookup(loaded, config.presets[i].as_str()) {
                Some(preset) => {
                    let is_bash = str_eq(config.presets[i].as_str(), "bash-readonly");
                    overlay_into(&mut config.allow, &preset.allow, has_no_coreutils && is_bash);
                },
                None => {},
            }
        }
    }
    assert(names.take(n as int) =~= names);
}

} // verus!
