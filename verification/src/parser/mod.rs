//! Splitting shell command lines into the commands they run.
//!
//! Bash is the top-level grammar. The scripts that `cmd /c` and `pwsh -c`
//! launch are parsed in a second stage right away; the script of `nu -c` is
//! returned as a Nushell finding, to be parsed with the Nushell grammar and
//! put back in its place by `expand_nushell`.
pub mod bash;
pub mod nushell;
pub mod powershell;

use vstd::prelude::*;

use crate::parser::bash::{bash_items, extracted_views, Extracted, ExtractedView};
use crate::types::{command_views, CommandView, ParsedCommand};

verus! {

/// Extracts everything a shell command line runs, with bash as the top-level
/// grammar.
pub fn extract_commands(command: &str) -> (r: Vec<Extracted>)
    ensures
        extracted_views(r@) == bash_items(command@),
{
    bash::extract_commands(command)
}

/// The Nushell scripts among the findings, in order.
pub open spec fn nushell_scripts(items: Seq<ExtractedView>) -> Seq<Seq<char>>
    decreases items.len(),
{
    if items.len() == 0 {
        Seq::empty()
    } else {
        let before = nushell_scripts(items.drop_last());
        match items.last() {
            ExtractedView::Command(_) => before,
            ExtractedView::Nushell(s) => before.push(s),
        }
    }
}

/// The findings with the `k`-th Nushell script replaced by `nu[k]`, the
/// commands that script runs.
pub open spec fn expanded(items: Seq<ExtractedView>, nu: Seq<Seq<CommandView>>) -> Seq<
    CommandView,
>
    decreases items.len(),
{
    if items.len() == 0 {
        Seq::empty()
    } else {
        let before = expanded(items.drop_last(), nu);
        match items.last() {
            ExtractedView::Command(c) => before.push(c),
            ExtractedView::Nushell(_) => before + nu[nushell_scripts(items.drop_last()).len() as int],
        }
    }
}

/// The Nushell scripts among the findings, in order.
pub fn scripts_to_parse(items: &Vec<Extracted>) -> (r: Vec<String>)
    ensures
        crate::text::views(r@) == nushell_scripts(extracted_views(items@)),
{
    let ghost iv = extracted_views(items@);
    let mut r: Vec<String> = Vec::new();
    for i in 0..items.len()
        invariant
            iv == extracted_views(items@),
            crate::text::views(r@) == nushell_scripts(iv.take(i as int)),
    {
        assert(iv.take(i + 1).drop_last() =~= iv.take(i as int));
        assert(iv.take(i + 1).last() == items@[i as int]@);
        match &items[i] {
            Extracted::Command(_) => {},
            Extracted::Nushell(s) => {
                let ghost before = crate::text::views(r@);
                r.push(s.clone());
                assert(crate::text::views(r@) =~= before.push(s@));
            },
        }
    }
    assert(iv.take(iv.len() as int) =~= iv);
    r
}

/// The commands of the findings, with the `k`-th Nushell script replaced by
/// `nushell[k]`, the commands found in it. `None` where the number of lists
/// is not the number of Nushell scripts.
pub fn expand_nushell(items: &Vec<Extracted>, nushell: &Vec<Vec<ParsedCommand>>) -> (r: Option<
    Vec<ParsedCommand>,
>)
    ensures
        match r {
            Some(v) => nushell@.len() == nushell_scripts(extracted_views(items@)).len()
                && command_views(v@) == expanded(
                extracted_views(items@),
                nushell@.map_values(|l: Vec<ParsedCommand>| command_views(l@)),
            ),
            None => nushell@.len() != nushell_scripts(extracted_views(items@)).len(),
        },
{
    let ghost iv = extracted_views(items@);
    let ghost nv = nushell@.map_values(|l: Vec<ParsedCommand>| command_views(l@));
    let scripts = scripts_to_parse(items);
    if scripts.len() != nushell.len() {
        return None;
    }
    let total = nushell.len();
    let mut out: Vec<ParsedCommand> = Vec::new();
    let mut used: usize = 0;
    assert(command_views(out@) =~= expanded(iv.take(0), nv));
    for i in 0..items.len()
        invariant
            iv == extracted_views(items@),
            nv == nushell@.map_values(|l: Vec<ParsedCommand>| command_views(l@)),
            nushell@.len() == nushell_scripts(iv).len(),
            total == nushell@.len(),
            used == nushell_scripts(iv.take(i as int)).len(),
            command_views(out@) == expanded(iv.take(i as int), nv),
    {
        assert(iv.take(i + 1).drop_last() =~= iv.take(i as int));
        assert(iv.take(i + 1).last() == items@[i as int]@);
        proof {
            lemma_scripts_prefix(iv, i as int + 1);
        }
        match &items[i] {
            Extracted::Command(c) => {
                let ghost before = command_views(out@);
                out.push(c.copy());
                assert(command_views(out@) =~= before.push(c@));
            },
            Extracted::Nushell(_) => {
                assert(nushell_scripts(iv.take(i + 1)).len() == used + 1);
                assert(used < nushell@.len());
                let list = &nushell[used];
                assert(nv[used as int] == command_views(list@));
                used = used + 1;
                let ghost before = command_views(out@);
                for j in 0..list.len()
                    invariant
                        command_views(out@) == before + command_views(list@).take(j as int),
                {
                    let ghost b2 = command_views(out@);
                    out.push(list[j].copy());
                    assert(command_views(out@) =~= b2.push(list@[j as int]@));
                    assert(command_views(list@).take(j + 1) =~= command_views(list@).take(
                        j as int,
                    ).push(list@[j as int]@));
                }
                assert(command_views(list@).take(list@.len() as int) =~= command_views(list@));
            },
        }
    }
    assert(iv.take(iv.len() as int) =~= iv);
    Some(out)
}

/// The Nushell scripts of a prefix are at most those of the whole.
proof fn lemma_scripts_prefix(items: Seq<ExtractedView>, n: int)
    requires
        0 <= n <= items.len(),
    ensures
        nushell_scripts(items.take(n)).len() <= nushell_scripts(items).len(),
    decreases items.len() - n,
{
    if n < items.len() {
        lemma_scripts_prefix(items, n + 1);
        assert(items.take(n + 1).drop_last() =~= items.take(n));
    } else {
        assert(items.take(n) =~= items);
    }
}

} // verus!
