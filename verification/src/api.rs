//! Which recognition service a model is served by.

use crate::chars::{contains, find, to_chars};
use vstd::prelude::*;

verus! {

/// The endpoint of the service that serves the models named after
/// `NexaAI` or `GGUF`.
pub const NEXA_API_URL: &'static str = "http://127.0.0.1:18181/v1/chat/completions";

/// The endpoint of the service that serves every other model.
pub const OLLAMA_API_URL: &'static str = "http://127.0.0.1:11434/v1/chat/completions";

/// Whether a model's name holds `NexaAI` or `GGUF`.
pub open spec fn is_nexa_model(model: Seq<char>) -> bool {
    contains(model, "NexaAI"@) || contains(model, "GGUF"@)
}

/// The endpoint that serves `model`.
pub fn get_api_url(model: &str) -> (url: &'static str)
    ensures
        url@ == if is_nexa_model(model@) {
            NEXA_API_URL@
        } else {
            OLLAMA_API_URL@
        },
{
    let m = to_chars(model);
    if find(m.as_slice(), to_chars("NexaAI").as_slice(), 0).is_some() || find(
        m.as_slice(),
        to_chars("GGUF").as_slice(),
        0,
    ).is_some() {
        NEXA_API_URL
    } else {
        OLLAMA_API_URL
    }
}

} // verus!
