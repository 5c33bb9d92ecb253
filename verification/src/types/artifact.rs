//! Formats and summaries of execution artifacts.
use vstd::prelude::*;

verus! {

#[derive(Debug, Clone, Copy, PartialEq, Eq, Structural)]
pub enum TextFormat {
    Markdown,
    Json,
    Yaml,
    Csv,
    Plain,
    Html,
}

#[derive(Debug, Clone, Copy, PartialEq, Eq, Structural)]
pub enum ImageFormat {
    Png,
    Jpg,
    Svg,
    Webp,
    Gif,
}

#[derive(Debug, Clone, Copy, PartialEq, Eq, Structural)]
pub enum ModelFormat {
    Onnx,
    Pickle,
    Safetensors,
    Json,
}

#[derive(Debug, Clone, Copy, PartialEq, Eq, Structural, Hash)]
pub enum LogLevel {
    Trace,
    Debug,
    Info,
    Warn,
    Error,
    Fatal,
}

/// What is listed of a stored artifact.
#[derive(Debug, Clone)]
pub struct ArtifactSummary {
    pub artifact_id: String,
    pub artifact_type: String,
    pub mime_type: Option<String>,
    pub size_bytes: u64,
}

} // verus!
