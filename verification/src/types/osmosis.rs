//! Osmosis: the patch review lifecycle for execution artifacts.
use vstd::prelude::*;

verus! {

/// Reference to a stored artifact.
#[derive(Debug, Clone)]
pub struct OsmosisArtifactRef {
    pub execution_id: String,
    pub artifact_id: Option<String>,
}

/// Output format for an Osmosis diff.
#[derive(Debug, Clone, Copy, PartialEq, Eq, Structural)]
pub enum OsmosisDiffFormat {
    Structured,
    Unified,
}

impl Default for OsmosisDiffFormat {
    fn default() -> (r: Self)
        ensures
            r == OsmosisDiffFormat::Structured,
    {
        OsmosisDiffFormat::Structured
    }
}

/// Merge strategy when applying an artifact to a workspace file.
#[derive(Debug, Clone, Copy, PartialEq, Eq, Structural)]
pub enum OsmosisMergeStrategy {
    Overwrite,
    Append,
}

impl Default for OsmosisMergeStrategy {
    fn default() -> (r: Self)
        ensures
            r == OsmosisMergeStrategy::Overwrite,
    {
        OsmosisMergeStrategy::Overwrite
    }
}

/// Diff an artifact against another artifact or a workspace file.
#[derive(Debug, Clone)]
pub struct OsmosisDiffRequest {
    pub left: OsmosisArtifactRef,
    pub right: Option<OsmosisArtifactRef>,
    pub target_path: Option<String>,
    pub format: Option<OsmosisDiffFormat>,
}

/// Apply an artifact to a workspace file.
#[derive(Debug, Clone)]
pub struct OsmosisMergeRequest {
    pub source: OsmosisArtifactRef,
    pub target_path: String,
    pub strategy: Option<OsmosisMergeStrategy>,
    pub base: Option<OsmosisArtifactRef>,
}

/// Reject an artifact patch and optionally restore a base version.
#[derive(Debug, Clone)]
pub struct OsmosisRejectRequest {
    pub source: OsmosisArtifactRef,
    pub target_path: String,
    pub base: Option<OsmosisArtifactRef>,
    pub reason: Option<String>,
}

/// A line-level structured diff.
#[derive(Debug, Clone)]
pub struct OsmosisStructuredDiff {
    pub files: Vec<OsmosisFileDiff>,
}

#[derive(Debug, Clone)]
pub struct OsmosisFileDiff {
    pub old_path: Option<String>,
    pub new_path: Option<String>,
    pub status: String,
    pub hunks: Vec<OsmosisHunk>,
}

#[derive(Debug, Clone)]
pub struct OsmosisHunk {
    pub old_start: usize,
    pub old_lines: usize,
    pub new_start: usize,
    pub new_lines: usize,
    pub lines: Vec<OsmosisDiffLine>,
}

#[derive(Debug, Clone)]
pub struct OsmosisDiffLine {
    pub kind: String,
    pub content: String,
    pub old_line: Option<usize>,
    pub new_line: Option<usize>,
}

/// Result of an Osmosis diff operation.
#[derive(Debug, Clone)]
pub struct OsmosisDiffResult {
    pub left_path: Option<String>,
    pub right_path: Option<String>,
    pub structured: OsmosisStructuredDiff,
    pub unified: Option<String>,
}

/// Result of an Osmosis merge operation.
#[derive(Debug, Clone)]
pub struct OsmosisMergeResult {
    pub target_path: String,
    pub bytes_written: usize,
    pub strategy: String,
}

/// Result of an Osmosis reject operation.
#[derive(Debug, Clone)]
pub struct OsmosisRejectResult {
    pub target_path: String,
    pub restored: bool,
    pub reason: Option<String>,
}

/// An Osmosis operation, as carried by an Osmosis task.
#[derive(Debug, Clone)]
pub enum OsmosisOperation {
    Diff(OsmosisDiffRequest),
    Merge(OsmosisMergeRequest),
    Reject(OsmosisRejectRequest),
}

pub struct DiffLineView {
    pub kind: Seq<char>,
    pub content: Seq<char>,
    pub old_line: Option<usize>,
    pub new_line: Option<usize>,
}

impl View for OsmosisDiffLine {
    type V = DiffLineView;

    open spec fn view(&self) -> DiffLineView {
        DiffLineView {
            kind: self.kind@,
            content: self.content@,
            old_line: self.old_line,
            new_line: self.new_line,
        }
    }
}

pub open spec fn diff_lines_view(v: Seq<OsmosisDiffLine>) -> Seq<DiffLineView> {
    v.map_values(|l: OsmosisDiffLine| l@)
}

pub open spec fn hunks_view(v: Seq<OsmosisHunk>) -> Seq<HunkView> {
    v.map_values(|h: OsmosisHunk| h@)
}

pub open spec fn files_view(v: Seq<OsmosisFileDiff>) -> Seq<FileDiffView> {
    v.map_values(|f: OsmosisFileDiff| f@)
}

pub struct HunkView {
    pub old_start: usize,
    pub old_lines: usize,
    pub new_start: usize,
    pub new_lines: usize,
    pub lines: Seq<DiffLineView>,
}

impl View for OsmosisHunk {
    type V = HunkView;

    open spec fn view(&self) -> HunkView {
        HunkView {
            old_start: self.old_start,
            old_lines: self.old_lines,
            new_start: self.new_start,
            new_lines: self.new_lines,
            lines: diff_lines_view(self.lines@),
        }
    }
}

pub open spec fn opt_str_view(o: Option<String>) -> Option<Seq<char>> {
    match o {
        Some(s) => Some(s@),
        None => None,
    }
}

pub struct FileDiffView {
    pub old_path: Option<Seq<char>>,
    pub new_path: Option<Seq<char>>,
    pub status: Seq<char>,
    pub hunks: Seq<HunkView>,
}

impl View for OsmosisFileDiff {
    type V = FileDiffView;

    open spec fn view(&self) -> FileDiffView {
        FileDiffView {
            old_path: opt_str_view(self.old_path),
            new_path: opt_str_view(self.new_path),
            status: self.status@,
            hunks: hunks_view(self.hunks@),
        }
    }
}

impl View for OsmosisStructuredDiff {
    type V = Seq<FileDiffView>;

    open spec fn view(&self) -> Seq<FileDiffView> {
        files_view(self.files@)
    }
}

} // verus!
