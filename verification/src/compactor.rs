//! Compaction of demoted history into one summary message.
use vstd::prelude::*;
use vstd::string::StringExecFns;

verus! {

/// What the summariser is asked to summarise: the previous summary, when
/// there is one, followed by the evicted messages in order.
pub fn compaction_input<T>(carry_over: Option<T>, evicted: Vec<T>) -> (r: Vec<T>)
    ensures
        r@ == match carry_over {
            Some(prev) => seq![prev] + evicted@,
            None => evicted@,
        },
{
    match carry_over {
        Some(prev) => {
            let mut r = evicted;
            r.insert(0, prev);
            proof {
                assert(r@ =~= seq![prev] + evicted@);
            }
            r
        },
        None => evicted,
    }
}

/// The text of a summary message: a level-two heading, a blank line, the summary.
pub fn format_summary(header: &str, summary: &str) -> (r: String)
    ensures
        r@ == "## "@ + header@ + "\n\n"@ + summary@,
{
    String::from_str("## ").concat(header).concat("\n\n").concat(summary)
}

} // verus!
