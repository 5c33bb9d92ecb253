//! Request context shared by the service's handlers.
use vstd::prelude::*;
use crate::text::owned;

verus! {

/// Shared request context used by handlers that need the request ID.
#[derive(Clone, Debug)]
pub struct RequestContext {
    pub request_id: String,
}

impl Default for RequestContext {
    fn default() -> (r: Self)
        ensures
            r.request_id@ == Seq::<char>::empty(),
    {
        RequestContext { request_id: String::new() }
    }
}

/// The request ID a request carries in its `x-request-id` header, if that
/// is readable and not empty; otherwise a fresh random one, or none when
/// the operating system gives no randomness.
pub fn extract_or_generate_id(header: Option<&str>) -> (r: Option<String>)
    ensures
        match header {
            Some(h) if h@.len() > 0 => r is Some && r->Some_0@ == h@,
            _ => r is Some ==> r->Some_0@.len() == 36 && crate::capability::is_uuid_v4_text(r->Some_0@),
        },
{
    match header {
        Some(h) => {
            if !h.is_empty() {
                return Some(owned(h));
            }
            crate::capability::new_uuid()
        },
        None => crate::capability::new_uuid(),
    }
}

} // verus!
