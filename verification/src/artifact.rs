//! What the artifact store computes about an artifact: its kind, a fresh
//! identifier, its summary, the hash of its stored form and where that form
//! is kept. Reading and writing blobs and rows is left to the caller.
use vstd::prelude::*;
use crate::osmosis::path_join;
use crate::text::{chars_of, owned, push_char, push_str};
use crate::types::artifact::ArtifactSummary;

verus! {

broadcast use vstd::string::group_string_axioms;

/// The kinds of artifact.
#[derive(Debug, Clone, Copy, PartialEq, Eq, Structural)]
pub enum ArtifactKind {
    Text,
    Dataset,
    Image,
    Model,
    Json,
    Log,
    File,
}

pub open spec fn kind_name(k: ArtifactKind) -> Seq<char> {
    match k {
        ArtifactKind::Text => "text"@,
        ArtifactKind::Dataset => "dataset"@,
        ArtifactKind::Image => "image"@,
        ArtifactKind::Model => "model"@,
        ArtifactKind::Json => "json"@,
        ArtifactKind::Log => "log"@,
        ArtifactKind::File => "file"@,
    }
}

/// The name of an artifact's kind.
pub fn kind_of(k: ArtifactKind) -> (r: &'static str)
    ensures
        r@ == kind_name(k),
{
    match k {
        ArtifactKind::Text => "text",
        ArtifactKind::Dataset => "dataset",
        ArtifactKind::Image => "image",
        ArtifactKind::Model => "model",
        ArtifactKind::Json => "json",
        ArtifactKind::Log => "log",
        ArtifactKind::File => "file",
    }
}

/// The identifier of an artifact of kind `k` with the random part `token`.
pub open spec fn spec_artifact_id(k: ArtifactKind, token: Seq<char>) -> Seq<char> {
    "art-"@ + kind_name(k) + "-"@ + token
}

fn artifact_id_with(k: ArtifactKind, token: &str) -> (r: String)
    ensures
        r@ == spec_artifact_id(k, token@),
{
    let mut id = owned("art-");
    push_str(&mut id, kind_of(k));
    push_str(&mut id, "-");
    push_str(&mut id, token);
    id
}

/// A fresh identifier for an artifact of kind `k`: `art-`, the kind, `-`
/// and a random UUID; none when the operating system gives no randomness.
pub fn artifact_id(k: ArtifactKind) -> (r: Option<String>)
    ensures
        r is Some ==> exists|token: Seq<char>| token.len() == 36 && crate::capability::is_uuid_v4_text(token) && r->Some_0@ == #[trigger] spec_artifact_id(k, token),
{
    match crate::capability::new_uuid() {
        Some(token) => Some(artifact_id_with(k, token.as_str())),
        None => None,
    }
}

/// What a summary is made from: the kind, and for the kinds whose size is
/// known, that size in bytes (text content, image bytes, JSON text, the
/// messages of a log, a file) and a file's mime type.
#[derive(Debug, Clone)]
pub enum SummarySource {
    Text { content_bytes: u64 },
    Dataset,
    Image { bytes: u64 },
    Model,
    Json { text_bytes: u64 },
    Log { message_bytes: Vec<u64> },
    File { size_bytes: u64, mime_type: String },
}

pub open spec fn source_kind(s: SummarySource) -> ArtifactKind {
    match s {
        SummarySource::Text { .. } => ArtifactKind::Text,
        SummarySource::Dataset => ArtifactKind::Dataset,
        SummarySource::Image { .. } => ArtifactKind::Image,
        SummarySource::Model => ArtifactKind::Model,
        SummarySource::Json { .. } => ArtifactKind::Json,
        SummarySource::Log { .. } => ArtifactKind::Log,
        SummarySource::File { .. } => ArtifactKind::File,
    }
}

/// The sum of some byte counts.
pub open spec fn total(v: Seq<u64>) -> nat
    decreases v.len(),
{
    if v.len() == 0 { 0 } else { total(v.drop_last()) + v.last() as nat }
}

/// Whether a source's size can be reported: a log's messages must not add
/// up past what a `u64` holds.
pub open spec fn source_fits(s: SummarySource) -> bool {
    match s {
        SummarySource::Log { message_bytes } => total(message_bytes@) <= u64::MAX,
        _ => true,
    }
}

/// The mime type a summary reports.
pub open spec fn source_mime(s: SummarySource) -> Seq<char> {
    match s {
        SummarySource::Text { .. } => "text/plain"@,
        SummarySource::Dataset => "application/json"@,
        SummarySource::Image { .. } => "image/png"@,
        SummarySource::Model => "application/octet-stream"@,
        SummarySource::Json { .. } => "application/json"@,
        SummarySource::Log { .. } => "text/plain"@,
        SummarySource::File { mime_type, .. } => mime_type@,
    }
}

/// The size a summary reports.
pub open spec fn source_size(s: SummarySource) -> nat {
    match s {
        SummarySource::Text { content_bytes } => content_bytes as nat,
        SummarySource::Dataset => 0,
        SummarySource::Image { bytes } => bytes as nat,
        SummarySource::Model => 0,
        SummarySource::Json { text_bytes } => text_bytes as nat,
        SummarySource::Log { message_bytes } => total(message_bytes@),
        SummarySource::File { size_bytes, .. } => size_bytes as nat,
    }
}

fn sum_bytes(v: &Vec<u64>) -> (r: u64)
    requires
        total(v@) <= u64::MAX,
    ensures
        r == total(v@),
{
    let mut acc: u64 = 0;
    let mut i: usize = 0;
    while i < v.len()
        invariant
            i <= v@.len(),
            acc == total(v@.take(i as int)),
            total(v@) <= u64::MAX,
        decreases v@.len() - i,
    {
        proof {
            assert(v@.take(i + 1).drop_last() =~= v@.take(i as int));
            lemma_total_prefix(v@, i + 1);
        }
        acc = acc + v[i];
        i = i + 1;
    }
    assert(v@.take(v@.len() as int) =~= v@);
    acc
}

proof fn lemma_total_prefix(v: Seq<u64>, k: int)
    requires
        0 <= k <= v.len(),
    ensures
        total(v.take(k)) <= total(v),
    decreases v.len() - k,
{
    if k < v.len() {
        lemma_total_prefix(v.drop_last(), k);
        assert(v.drop_last().take(k) =~= v.take(k));
    } else {
        assert(v.take(k) =~= v);
    }
}

/// The summary of an artifact, with the random part `token` of its
/// identifier.
pub fn summary_with(source: &SummarySource, token: &str) -> (r: ArtifactSummary)
    requires
        source_fits(*source),
    ensures
        r.artifact_id@ == spec_artifact_id(source_kind(*source), token@),
        r.artifact_type@ == kind_name(source_kind(*source)),
        r.mime_type is Some && r.mime_type->Some_0@ == source_mime(*source),
        r.size_bytes == source_size(*source),
{
    let (kind, mime, size) = match source {
        SummarySource::Text { content_bytes } => (ArtifactKind::Text, owned("text/plain"), *content_bytes),
        SummarySource::Dataset => (ArtifactKind::Dataset, owned("application/json"), 0u64),
        SummarySource::Image { bytes } => (ArtifactKind::Image, owned("image/png"), *bytes),
        SummarySource::Model => (ArtifactKind::Model, owned("application/octet-stream"), 0u64),
        SummarySource::Json { text_bytes } => (ArtifactKind::Json, owned("application/json"), *text_bytes),
        SummarySource::Log { message_bytes } => (ArtifactKind::Log, owned("text/plain"), sum_bytes(message_bytes)),
        SummarySource::File { size_bytes, mime_type } => (ArtifactKind::File, owned(mime_type.as_str()), *size_bytes),
    };
    ArtifactSummary {
        artifact_id: artifact_id_with(kind, token),
        artifact_type: owned(kind_of(kind)),
        mime_type: Some(mime),
        size_bytes: size,
    }
}

/// The summary of an artifact, under a fresh identifier; none when the
/// operating system gives no randomness.
pub fn summary_of(source: &SummarySource) -> (r: Option<ArtifactSummary>)
    requires
        source_fits(*source),
    ensures
        r is Some ==> {
            let s = r->Some_0;
            &&& exists|token: Seq<char>| token.len() == 36 && crate::capability::is_uuid_v4_text(token)
                && s.artifact_id@ == #[trigger] spec_artifact_id(source_kind(*source), token)
            &&& s.artifact_type@ == kind_name(source_kind(*source))
            &&& s.mime_type is Some && s.mime_type->Some_0@ == source_mime(*source)
            &&& s.size_bytes == source_size(*source)
        },
{
    match crate::capability::new_uuid() {
        Some(token) => Some(summary_with(source, token.as_str())),
        None => None,
    }
}

// ─── Blobs ──────────────────────────────────────────────────────────────────

/// What `blake3::hash(..).to_hex()` makes of some bytes.
pub uninterp spec fn blake3_hex(bytes: Seq<u8>) -> Seq<char>;

/// `blake3::hash` of a blob, in lower-case hexadecimal: named
/// `blake3_hex`. It is 64 characters long.
#[verifier::external_body]
fn blob_hash(blob: &[u8]) -> (r: String)
    ensures
        r@ == blake3_hex(blob@),
        r@.len() == 64,
{
    blake3::hash(blob).to_hex().to_string()
}

/// Where a blob with the hash `hash` is kept: under a directory named by
/// the hash's first two characters.
pub open spec fn spec_blob_path(blob_dir: Seq<char>, hash: Seq<char>) -> Seq<char> {
    path_join(path_join(blob_dir, hash.take(if hash.len() < 2 { hash.len() as int } else { 2 })), hash)
}

fn join(root: &str, rel: &str) -> (r: String)
    ensures
        r@ == path_join(root@, rel@),
{
    let cs = chars_of(root);
    let mut out = owned(root);
    if cs.len() > 0 && cs[cs.len() - 1] != '/' {
        push_char(&mut out, '/');
    }
    push_str(&mut out, rel);
    proof {
        if cs@.len() > 0 {
            assert(root@.last() == cs@[cs@.len() - 1]);
        }
    }
    out
}

/// The path of a blob with the hash `hash` in the blob directory.
pub fn blob_path(blob_dir: &str, hash: &str) -> (r: String)
    ensures
        r@ == spec_blob_path(blob_dir@, hash@),
{
    let cs = chars_of(hash);
    let n: usize = if cs.len() < 2 { cs.len() } else { 2 };
    let mut prefix = String::new();
    let mut i: usize = 0;
    while i < n
        invariant
            i <= n <= cs@.len(),
            cs@ == hash@,
            prefix@ == hash@.take(i as int),
        decreases n - i,
    {
        push_char(&mut prefix, cs[i]);
        assert(prefix@ =~= hash@.take(i + 1));
        i = i + 1;
    }
    let dir = join(blob_dir, prefix.as_str());
    join(dir.as_str(), hash)
}

/// The hash of a blob and the path it is kept at in the blob directory.
pub fn blob_location(blob_dir: &str, blob: &[u8]) -> (r: (String, String))
    ensures
        r.0@ == blake3_hex(blob@),
        r.1@ == spec_blob_path(blob_dir@, blake3_hex(blob@)),
{
    let hash = blob_hash(blob);
    let path = blob_path(blob_dir, hash.as_str());
    (hash, path)
}

} // verus!
