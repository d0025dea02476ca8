use vstd::prelude::*;
use vstd::string::StringExecFns;

pub mod bots;
pub mod chat;
pub mod compactor;
pub mod media;
pub mod memory;
pub mod message;
pub mod paths;
pub mod store;
pub mod window;

verus! {

/// The echo reply: the text prefixed with `你说: `.
pub fn reply_to(text: &str) -> (r: String)
    ensures
        r@ == "你说: "@ + text@,
{
    String::from_str("你说: ").concat(text)
}

} // verus!
