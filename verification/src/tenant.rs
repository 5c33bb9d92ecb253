//! Multi-tenancy: project isolation.
//!
//! Every request belongs to a project identified by the `x-vee-project`
//! header. When the header is absent the request falls back to the
//! `default` project.
use vstd::prelude::*;
use vstd::utf8::encode_utf8;
use vstd::string::StringSliceAdditionalSpecFns;
use crate::text::{chars_of, owned, trim, trim_str, is_ws};

verus! {

broadcast use vstd::string::group_string_axioms;

/// Header used by clients to identify the target project.
pub const PROJECT_HEADER: &'static str = "x-vee-project";

/// Project used when no header is supplied.
pub const DEFAULT_PROJECT: &'static str = "default";

/// Maximum length of a project identifier, in bytes.
pub const MAX_PROJECT_ID_LEN: usize = 64;

/// Project context of an incoming request.
#[derive(Debug, Clone)]
pub struct ProjectContext {
    pub project_id: String,
}

impl ProjectContext {
    /// Create a context for the default project.
    pub fn default_project() -> (r: Self)
        ensures
            r.project_id@ == "default"@,
    {
        ProjectContext { project_id: owned("default") }
    }
}

impl Default for ProjectContext {
    fn default() -> (r: Self)
        ensures
            r.project_id@ == "default"@,
    {
        Self::default_project()
    }
}

/// ASCII letters, digits, `-`, `_` and `.`.
pub open spec fn project_char(c: char) -> bool {
    ('a' <= c <= 'z') || ('A' <= c <= 'Z') || ('0' <= c <= '9') || c == '-' || c == '_' || c == '.'
}

/// The outcome of validating a raw project identifier: the trimmed
/// identifier, or the reason it is refused.
pub open spec fn spec_validate_project_id(raw: Seq<char>) -> Result<Seq<char>, Seq<char>> {
    let id = trim(raw);
    if id.len() == 0 {
        Err("project id is empty"@)
    } else if encode_utf8(id).len() > 64 {
        Err("project id exceeds 64 characters"@)
    } else if !(forall|i: int| 0 <= i < id.len() ==> project_char(#[trigger] id[i])) {
        Err("project id contains invalid characters"@)
    } else {
        Ok(id)
    }
}

pub open spec fn result_view(r: Result<String, String>) -> Result<Seq<char>, Seq<char>> {
    match r {
        Ok(s) => Ok(s@),
        Err(e) => Err(e@),
    }
}

fn is_project_char(c: char) -> (b: bool)
    ensures
        b == project_char(c),
{
    ('a' <= c && c <= 'z') || ('A' <= c && c <= 'Z') || ('0' <= c && c <= '9') || c == '-' || c == '_' || c == '.'
}

/// Validate and normalise a project identifier: trimmed, non-empty, at most
/// 64 bytes, and only ASCII letters, digits, hyphens, underscores and dots.
pub fn validate_project_id(raw: &str) -> (r: Result<String, String>)
    ensures
        result_view(r) == spec_validate_project_id(raw@),
{
    let id = trim_str(raw);
    if id.as_str().is_empty() {
        return Err(owned("project id is empty"));
    }
    if crate::text::utf8_longer_than(id.as_str(), MAX_PROJECT_ID_LEN) {
        return Err(owned("project id exceeds 64 characters"));
    }
    let cs = chars_of(id.as_str());
    let mut i: usize = 0;
    while i < cs.len()
        invariant
            i <= cs@.len(),
            cs@ == id@,
            id@ == trim(raw@),
            id@.len() != 0,
            encode_utf8(id@).len() <= 64,
            forall|k: int| 0 <= k < i ==> project_char(#[trigger] cs@[k]),
        decreases cs@.len() - i,
    {
        if !is_project_char(cs[i]) {
            assert(!project_char(id@[i as int]));
            return Err(owned("project id contains invalid characters"));
        }
        i = i + 1;
    }
    Ok(id)
}

/// The project of a request, from the value of its project header.
pub fn project_from_header(value: Option<&str>) -> (r: Result<ProjectContext, String>)
    ensures
        match spec_validate_project_id(match value { Some(v) => v@, None => "default"@ }) {
            Ok(id) => r is Ok && r->Ok_0.project_id@ == id,
            Err(e) => r is Err && r->Err_0@ == e,
        },
{
    let raw = match value {
        Some(v) => v,
        None => DEFAULT_PROJECT,
    };
    match validate_project_id(raw) {
        Ok(id) => Ok(ProjectContext { project_id: id }),
        Err(e) => Err(e),
    }
}

proof fn lemma_trim_no_ws(s: Seq<char>)
    requires
        forall|i: int| 0 <= i < s.len() ==> !is_ws(#[trigger] s[i]),
    ensures
        trim(s) == s,
{
    if s.len() > 0 {
        assert(!is_ws(s[0]));
        assert(!is_ws(s.last()));
    }
}

/// An identifier that validation accepted is accepted again, unchanged.
pub proof fn lemma_validate_idempotent(raw: Seq<char>)
    requires
        spec_validate_project_id(raw) is Ok,
    ensures
        spec_validate_project_id(spec_validate_project_id(raw)->Ok_0) == spec_validate_project_id(raw),
{
    let id = trim(raw);
    assert forall|i: int| 0 <= i < id.len() implies !is_ws(#[trigger] id[i]) by {
        assert(project_char(id[i]));
    }
    lemma_trim_no_ws(id);
}

} // verus!
