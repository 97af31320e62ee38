use vstd::prelude::*;

verus! {

/// Whether `data` parses as JSON in which `pointer` addresses a value.
pub uninterp spec fn json_has_pointer(data: Seq<u8>, pointer: Seq<char>) -> bool;

/// Relies on `serde_json::from_slice` to parse the bytes into a
/// `serde_json::Value`, and on `serde_json::Value::pointer` to look up the
/// pointer in it; bytes that do not parse address nothing. As the pointer
/// source shows, a non-empty pointer that does not start with `/` addresses
/// nothing.
#[verifier::external_body]
fn json_pointer_present(data: &[u8], pointer: &str) -> (r: bool)
    ensures
        r == json_has_pointer(data@, pointer@),
        pointer@.len() > 0 && pointer@[0] != '/' ==> !r,
{
    match serde_json::from_slice::<serde_json::Value>(data) {
        Ok(value) => value.pointer(pointer).is_some(),
        Err(_) => false,
    }
}

/// The result of one outside call as a callback observes it.
#[derive(Clone, Debug)]
pub enum PromiseOutcome {
    Successful(Vec<u8>),
    Failed,
}

/// Where in the identity registry's answer a verified account has its first
/// credential: first entry, its list of tokens, first token.
pub open spec fn credential_pointer() -> Seq<char> {
    "/0/1/0"@
}

/// Whether an identity registry answer shows the account as verified: the
/// call succeeded and its JSON holds a credential. A failed call or an
/// answer that does not parse means "not verified".
pub open spec fn verified_by(outcome: PromiseOutcome) -> bool {
    match outcome {
        PromiseOutcome::Successful(data) => json_has_pointer(data@, credential_pointer()),
        PromiseOutcome::Failed => false,
    }
}

pub fn is_verified(outcome: &PromiseOutcome) -> (r: bool)
    ensures
        r == verified_by(*outcome),
{
    match outcome {
        PromiseOutcome::Successful(data) => json_pointer_present(data.as_slice(), "/0/1/0"),
        PromiseOutcome::Failed => false,
    }
}

} // verus!
