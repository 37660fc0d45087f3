//! Why an answer ends, in the words of either side.

use vstd::prelude::*;

verus! {

/// The stop reason that stands for a finish reason: `tool_use` for `tool_calls`, `max_tokens`
/// for `length`, and `end_turn` for `stop` and for everything else.
pub open spec fn stop_reason(finish_reason: Seq<char>) -> Seq<char> {
    if finish_reason == "tool_calls"@ {
        "tool_use"@
    } else if finish_reason == "length"@ {
        "max_tokens"@
    } else {
        "end_turn"@
    }
}

/// Translates a finish reason into a stop reason; there is one exactly where there is the other.
pub fn map_stop_reason(finish_reason: Option<&str>) -> (reason: Option<String>)
    ensures
        finish_reason is None ==> reason is None,
        finish_reason matches Some(given) ==> reason.deep_view() == Some(stop_reason(given@)),
{
    match finish_reason {
        None => None,
        Some(given) => {
            let given = given.to_owned();
            let reason = if given == "tool_calls".to_owned() {
                "tool_use"
            } else if given == "length".to_owned() {
                "max_tokens"
            } else {
                "end_turn"
            };
            Some(reason.to_owned())
        },
    }
}

} // verus!
