//! The HTTP routes the service registers.
use vstd::prelude::*;

verus! {

/// The methods and paths of the service's routes, in registration order.
pub open spec fn route_table() -> Seq<(Seq<char>, Seq<char>)> {
    seq![
        ("get"@, "/health"@),
        ("post"@, "/vee/submit"@),
        ("post"@, "/vee/status"@),
        ("post"@, "/vee/cancel"@),
        ("post"@, "/vee/list"@),
        ("post"@, "/vee/artifacts"@),
        ("post"@, "/vee/dashboard"@),
        ("post"@, "/vee/patterns"@),
        ("post"@, "/vee/audit"@),
        ("post"@, "/vee/checkpoints"@),
        ("post"@, "/vee/odin/health"@),
        ("post"@, "/vee/odin/model"@),
        ("post"@, "/vee/diff"@),
        ("post"@, "/vee/merge"@),
        ("post"@, "/vee/reject"@),
        ("get"@, "/openapi.json"@),
        ("get"@, "/docs"@),
    ]
}

/// Returns the list of HTTP methods and paths registered by the service router.
///
/// Kept in sync manually with the service's router. Tests use this to verify
/// that the OpenAPI spec covers every registered route.
pub fn registered_routes() -> (r: Vec<(&'static str, &'static str)>)
    ensures
        r@.map_values(|p: (&'static str, &'static str)| (p.0@, p.1@)) == route_table(),
{
    let mut v: Vec<(&'static str, &'static str)> = Vec::new();
    v.push(("get", "/health"));
    v.push(("post", "/vee/submit"));
    v.push(("post", "/vee/status"));
    v.push(("post", "/vee/cancel"));
    v.push(("post", "/vee/list"));
    v.push(("post", "/vee/artifacts"));
    v.push(("post", "/vee/dashboard"));
    v.push(("post", "/vee/patterns"));
    v.push(("post", "/vee/audit"));
    v.push(("post", "/vee/checkpoints"));
    v.push(("post", "/vee/odin/health"));
    v.push(("post", "/vee/odin/model"));
    v.push(("post", "/vee/diff"));
    v.push(("post", "/vee/merge"));
    v.push(("post", "/vee/reject"));
    v.push(("get", "/openapi.json"));
    v.push(("get", "/docs"));
    assert(v@.map_values(|p: (&'static str, &'static str)| (p.0@, p.1@)) =~= route_table());
    v
}

} // verus!
