//! The decision the hook answers for a tool call.
use vstd::prelude::*;

use crate::allowlist::{check_commands, gather, possible_verdicts, verdicts};
use crate::text::{chars_of, join, join_strings, str_eq, string_of, views};
use crate::types::{command_views, AllowlistConfig, HookOutput, ParsedCommand};

verus! {

/// Whether `o` lets the command run.
pub open spec fn is_allow(o: HookOutput) -> bool {
    &&& o.hook_specific_output.hook_event_name@ == "PreToolUse"@
    &&& o.hook_specific_output.permission_decision@ == "allow"@
    &&& o.hook_specific_output.permission_decision_reason is None
}

/// Whether `o` leaves the decision to the user, with the reason `reason`.
pub open spec fn is_ask(o: HookOutput, reason: Seq<char>) -> bool {
    &&& o.hook_specific_output.hook_event_name@ == "PreToolUse"@
    &&& o.hook_specific_output.permission_decision@ == "ask"@
    &&& o.hook_specific_output.permission_decision_reason matches Some(s) && s@ == reason
}

/// The reason given when commands are refused.
pub open spec fn refusal_reason(refused: Seq<Seq<char>>) -> Seq<char> {
    "Commands not in allowlist: "@ + join(refused, ", "@)
}

/// The answer to a tool call: nothing for a tool other than `Bash`; for a
/// command line in which no command was found, a question ("Failed to parse
/// command"); else an allowance where the allowlist allows every command, or
/// a question that names the refused ones.
pub fn decide(tool_name: &str, commands: &Vec<ParsedCommand>, config: &AllowlistConfig) -> (r:
    Option<HookOutput>)
    ensures
        tool_name@ != "Bash"@ ==> r is None,
        tool_name@ == "Bash"@ && commands@.len() == 0 ==> (r matches Some(o) && is_ask(
            o,
            "Failed to parse command"@,
        )),
        tool_name@ == "Bash"@ && commands@.len() > 0 ==> match gather(
            verdicts(command_views(commands@), config.allow@, config.allow.key_seq()),
        ) {
            None => (r matches Some(o) && is_allow(o)),
            Some(refused) => (r matches Some(o) && is_ask(o, refusal_reason(refused))),
        },
        tool_name@ == "Bash"@ && commands@.len() > 0 ==> exists|vs: Seq<Option<Seq<char>>>|
            #![trigger gather(vs)]
            possible_verdicts(command_views(commands@), config.allow@, vs) && match gather(vs) {
                None => (r matches Some(o) && is_allow(o)),
                Some(refused) => (r matches Some(o) && is_ask(o, refusal_reason(refused))),
            },
{
    if !str_eq(tool_name, "Bash") {
        return None;
    }
    if commands.len() == 0 {
        return Some(HookOutput::ask("Failed to parse command".to_owned()));
    }
    match check_commands(commands.as_slice(), config) {
        None => Some(HookOutput::allow()),
        Some(denied) => {
            let mut m = chars_of("Commands not in allowlist: ");
            let list = join_strings(&denied, ", ");
            let l = chars_of(list.as_str());
            m.extend_from_slice(l.as_slice());
            let reason = string_of(&m);
            assert(reason@ =~= refusal_reason(views(denied@)));
            Some(HookOutput::ask(reason))
        },
    }
}

} // verus!
