//! The model backend.
use vstd::prelude::*;

use crate::error::{QuickcommandError, Result};
use crate::model::{GenerationRequest, ModelReply};
use crate::prompt::RuntimeContext;
use crate::text::{chars_of, string_of, trim_trailing};

verus! {

/// A request to the model, with what came back.
pub struct BackendCall {
    pub request: GenerationRequest,
    pub context: RuntimeContext,
    pub result: Result<ModelReply>,
}

/// Generates a reply for a request. Each call is added to the record of
/// requests, with what came back.
pub trait Backend {
    /// The requests made so far, oldest first. A verified implementation
    /// gives its own record. The empty default exists because implementations
    /// in plain Rust cannot name this function; it does not meet the contract
    /// below, which for such implementations is trusted.
    open spec fn requests(&self) -> Seq<BackendCall> {
        Seq::empty()
    }

    /// Asks the model for a reply to `request`.
    fn generate(&mut self, request: &GenerationRequest, context: &RuntimeContext) -> (r: Result<
        ModelReply,
    >)
        ensures
            final(self).requests() == old(self).requests().push(
                (BackendCall { request: *request, context: *context, result: r }),
            ),
    ;
}

/// The host URL without trailing slashes.
pub fn normalize_host(host: &str) -> (r: String)
    ensures
        r@ == trim_trailing(host@, '/'),
{
    let mut v = chars_of(host);
    let ghost all = v@;
    assert(trim_trailing(all, '/') == trim_trailing(v@, '/'));
    while v.len() > 0 && v[v.len() - 1] == '/'
        invariant
            trim_trailing(all, '/') == trim_trailing(v@, '/'),
        decreases v@.len(),
    {
        let ghost before = v@;
        v.pop();
        assert(v@ =~= before.drop_last());
    }
    string_of(&v)
}

/// The chat endpoint of an Ollama host.
pub fn chat_url(host: &str) -> (r: String)
    ensures
        r@ == host@ + "/api/chat"@,
{
    String::from_str(host).concat("/api/chat")
}

/// The error for a reply with a failure status.
pub fn ollama_status_error(status: &str, body: &str) -> (r: QuickcommandError)
    ensures
        r matches QuickcommandError::OllamaApi(m) && m@ == "status="@ + status@ + " body="@ + body@,
{
    QuickcommandError::OllamaApi(
        String::from_str("status=").concat(status).concat(" body=").concat(body),
    )
}

} // verus!
