//! Error messages.

use vstd::prelude::*;

use crate::text::{join, joined, texts};

verus! {

/// What stands between an error and its cause.
pub const CAUSE_SEPARATOR: &'static str = "\n\nCaused by:\n    ";

/// The text for an error and its causes, outermost first.
pub fn render_chain(messages: &Vec<String>) -> (r: String)
    ensures
        r@ == joined(texts(messages@), CAUSE_SEPARATOR@),
{
    join(messages, CAUSE_SEPARATOR)
}

} // verus!
