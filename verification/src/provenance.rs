//! Provenance tracking: a git-style hash chain for tamper-evident artifact
//! lineage. Each record carries the hash of its fields and of the previous
//! record's hash.
use vstd::prelude::*;
use vstd::utf8::encode_utf8;
use sha2::Digest;
use crate::capability::hex_lower;
use crate::text::{owned, push_char, push_str, string_views};
use crate::types::capability::clone_strings;

verus! {

broadcast use vstd::string::group_string_axioms;

/// Full lineage for every artifact.
#[derive(Debug, Clone)]
pub struct Provenance {
    pub artifact_id: String,
    pub task_id: String,
    pub execution_id: String,
    pub creator_agent: String,
    pub parent_artifacts: Vec<String>,
    pub code_generator: String,
    pub executed_code: String,
    pub granted_capabilities: Vec<String>,
    /// When the record was made, in RFC 3339 notation.
    pub created_at: String,
    pub previous_hash: String,
    pub self_hash: String,
    /// Project that owns this artifact. When `None` the artifact falls back
    /// to the `default` project.
    pub project_id: Option<String>,
}

/// Texts joined by `sep`.
pub open spec fn joined_by(v: Seq<Seq<char>>, sep: Seq<char>) -> Seq<char>
    decreases v.len(),
{
    if v.len() == 0 {
        seq![]
    } else if v.len() == 1 {
        v[0]
    } else {
        joined_by(v.drop_last(), sep) + sep + v.last()
    }
}

/// The text that a record's hash is taken of: its fields joined by `:`,
/// the lists joined by `,`.
pub open spec fn hash_input(p: Provenance) -> Seq<char> {
    p.artifact_id@ + ":"@ + p.execution_id@ + ":"@ + p.task_id@ + ":"@ + p.creator_agent@ + ":"@
        + joined_by(string_views(p.parent_artifacts@), ","@) + ":"@ + p.code_generator@ + ":"@
        + p.executed_code@ + ":"@ + joined_by(string_views(p.granted_capabilities@), ","@) + ":"@
        + p.previous_hash@ + ":"@ + p.created_at@
}

/// What `Sha256::digest` makes of some bytes.
pub uninterp spec fn sha256(bytes: Seq<u8>) -> Seq<u8>;

/// `sha2::Sha256::digest`: named `sha256`.
#[verifier::external_body]
fn sha256_digest(bytes: &[u8]) -> (r: [u8; 32])
    ensures
        r@ == sha256(bytes@),
{
    sha2::Sha256::digest(bytes).into()
}

/// The hash a record should carry: the lower-case hexadecimal SHA-256 of
/// its hash input.
pub open spec fn provenance_hash(p: Provenance) -> Seq<char> {
    hex_lower(sha256(encode_utf8(hash_input(p))))
}

fn join_list(v: &Vec<String>, sep: &str) -> (r: String)
    ensures
        r@ == joined_by(string_views(v@), sep@),
{
    let ghost sv = string_views(v@);
    let mut out = String::new();
    let mut i: usize = 0;
    while i < v.len()
        invariant
            i <= v@.len(),
            sv == string_views(v@),
            out@ == joined_by(sv.take(i as int), sep@),
        decreases v@.len() - i,
    {
        proof {
            assert(sv.take(i + 1).drop_last() =~= sv.take(i as int));
            assert(sv[i as int] == v@[i as int]@);
        }
        if i > 0 {
            push_str(&mut out, sep);
        }
        push_str(&mut out, v[i].as_str());
        proof {
            if i == 0 {
                assert(sv.take(1) =~= seq![sv[0]]);
                assert(out@ =~= sv[0]);
            }
        }
        i = i + 1;
    }
    assert(sv.take(sv.len() as int) =~= sv);
    out
}

fn hex_digit_char(d: u8) -> (c: char)
    requires
        d < 16,
    ensures
        c == crate::claims::hex_digit(d as nat),
{
    if d == 0 { '0' } else if d == 1 { '1' } else if d == 2 { '2' } else if d == 3 { '3' }
    else if d == 4 { '4' } else if d == 5 { '5' } else if d == 6 { '6' } else if d == 7 { '7' }
    else if d == 8 { '8' } else if d == 9 { '9' } else if d == 10 { 'a' } else if d == 11 { 'b' }
    else if d == 12 { 'c' } else if d == 13 { 'd' } else if d == 14 { 'e' } else { 'f' }
}

/// Lower-case hexadecimal notation of bytes, two digits each.
fn lower_hex(b: &[u8]) -> (r: String)
    ensures
        r@ == hex_lower(b@),
{
    let mut out = String::new();
    let mut i: usize = 0;
    while i < b.len()
        invariant
            i <= b@.len(),
            out@ == hex_lower(b@.take(i as int)),
        decreases b@.len() - i,
    {
        let x = b[i];
        push_char(&mut out, hex_digit_char(x / 16));
        push_char(&mut out, hex_digit_char(x % 16));
        proof {
            assert(b@.take(i + 1).drop_last() =~= b@.take(i as int));
            assert(b@.take(i + 1).last() == x);
            assert(out@ =~= hex_lower(b@.take(i + 1)));
        }
        i = i + 1;
    }
    assert(b@.take(b@.len() as int) =~= b@);
    out
}

fn compute_hash(p: &Provenance) -> (r: String)
    ensures
        r@ == provenance_hash(*p),
{
    let mut input = owned(p.artifact_id.as_str());
    push_str(&mut input, ":");
    push_str(&mut input, p.execution_id.as_str());
    push_str(&mut input, ":");
    push_str(&mut input, p.task_id.as_str());
    push_str(&mut input, ":");
    push_str(&mut input, p.creator_agent.as_str());
    push_str(&mut input, ":");
    let parents = join_list(&p.parent_artifacts, ",");
    push_str(&mut input, parents.as_str());
    push_str(&mut input, ":");
    push_str(&mut input, p.code_generator.as_str());
    push_str(&mut input, ":");
    push_str(&mut input, p.executed_code.as_str());
    push_str(&mut input, ":");
    let caps = join_list(&p.granted_capabilities, ",");
    push_str(&mut input, caps.as_str());
    push_str(&mut input, ":");
    push_str(&mut input, p.previous_hash.as_str());
    push_str(&mut input, ":");
    push_str(&mut input, p.created_at.as_str());
    assert(input@ =~= hash_input(*p));
    let digest = sha256_digest(input.as_str().as_bytes());
    lower_hex(&digest)
}

/// Build a provenance record for a new artifact, made at `created_at`: it
/// carries the hash of its fields, so it verifies.
pub fn build_provenance_at(
    artifact_id: &str,
    execution_id: &str,
    task_id: &str,
    creator_agent: &str,
    parent_artifacts: Vec<String>,
    code_generator: &str,
    executed_code: &str,
    granted_capabilities: Vec<String>,
    previous_hash: &str,
    created_at: String,
) -> (r: Provenance)
    ensures
        r.artifact_id@ == artifact_id@,
        r.execution_id@ == execution_id@,
        r.task_id@ == task_id@,
        r.creator_agent@ == creator_agent@,
        r.parent_artifacts@ == parent_artifacts@,
        r.code_generator@ == code_generator@,
        r.executed_code@ == executed_code@,
        r.granted_capabilities@ == granted_capabilities@,
        r.created_at@ == created_at@,
        r.previous_hash@ == previous_hash@,
        r.project_id is None,
        r.self_hash@ == provenance_hash(r),
        spec_verify_provenance(r),
{
    let mut p = Provenance {
        artifact_id: owned(artifact_id),
        task_id: owned(task_id),
        execution_id: owned(execution_id),
        creator_agent: owned(creator_agent),
        parent_artifacts,
        code_generator: owned(code_generator),
        executed_code: owned(executed_code),
        granted_capabilities,
        created_at,
        previous_hash: owned(previous_hash),
        self_hash: String::new(),
        project_id: None,
    };
    let h = compute_hash(&p);
    let ghost before = p;
    p.self_hash = h;
    assert(hash_input(p) == hash_input(before));
    p
}

/// Build a provenance record for a new artifact, dated now; none when the
/// clock cannot be read.
pub fn build_provenance(
    artifact_id: &str,
    execution_id: &str,
    task_id: &str,
    creator_agent: &str,
    parent_artifacts: Vec<String>,
    code_generator: &str,
    executed_code: &str,
    granted_capabilities: Vec<String>,
    previous_hash: &str,
) -> (r: Option<Provenance>)
    ensures
        r is Some ==> {
            let p = r->Some_0;
            &&& p.artifact_id@ == artifact_id@
            &&& p.execution_id@ == execution_id@
            &&& p.task_id@ == task_id@
            &&& p.creator_agent@ == creator_agent@
            &&& p.parent_artifacts@ == parent_artifacts@
            &&& p.code_generator@ == code_generator@
            &&& p.executed_code@ == executed_code@
            &&& p.granted_capabilities@ == granted_capabilities@
            &&& p.previous_hash@ == previous_hash@
            &&& p.project_id is None
            &&& spec_verify_provenance(p)
        },
{
    let created_at = match crate::capability::now_rfc3339() {
        Some(t) => t,
        None => return None,
    };
    let p = build_provenance_at(
        artifact_id,
        execution_id,
        task_id,
        creator_agent,
        parent_artifacts,
        code_generator,
        executed_code,
        granted_capabilities,
        previous_hash,
        created_at,
    );
    Some(p)
}

/// Whether a record carries the hash of its fields.
pub open spec fn spec_verify_provenance(p: Provenance) -> bool {
    p.self_hash@ == provenance_hash(p)
}

/// Verify that a provenance record's hash is correct.
pub fn verify_provenance(provenance: &Provenance) -> (r: bool)
    ensures
        r == spec_verify_provenance(*provenance),
{
    let expected = compute_hash(provenance);
    crate::text::str_eq(expected.as_str(), provenance.self_hash.as_str())
}

/// The lower-case hexadecimal SHA-256 of some bytes.
pub fn content_hash_hex(bytes: &[u8]) -> (r: String)
    ensures
        r@ == hex_lower(sha256(bytes@)),
{
    let d = sha256_digest(bytes);
    lower_hex(&d)
}

} // verus!
