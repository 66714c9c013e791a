//! Plain data carried between the service and its collaborators.

use vstd::prelude::*;

verus! {

/// One prior turn of the exchange with the text-generation service.
pub struct ChatMessage {
    pub role: String,
    pub message: String,
}

/// The body of the text-generation service's reply.
pub struct CohereResponse {
    pub text: String,
}

} // verus!
