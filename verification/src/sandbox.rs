//! Sandbox configuration and results, and what is read from an execution's
//! outputs: the format of its stdout, the level of each stderr line, the
//! mime type and kind of each output file, and the size of an image.
//! Running the process and reading the files are left to the caller.
use vstd::prelude::*;
use crate::auth::{lowercase, to_lower};
use crate::text::{chars_of, contains, owned, str_contains, str_eq, trim_start};
use crate::diff::{lines_of, text_lines};
use crate::lcs::strs;
use crate::types::artifact::{ImageFormat, LogLevel, TextFormat};
use crate::types::budget::ExecutionBudget;
use crate::types::capability::Capability;
use crate::capability::utf8_text;
use vstd::utf8::{decode_utf8, valid_utf8};

verus! {

broadcast use vstd::string::group_string_axioms;

/// Configuration for a single sandboxed execution.
pub struct SandboxConfig {
    /// Working directory (read-write scratch space)
    pub work_dir: String,
    /// Output directory (where artifacts are written)
    pub output_dir: String,
    /// Read-only input paths
    pub input_paths: Vec<String>,
    /// Paths that may be executed (e.g., system binary directories)
    pub executable_paths: Vec<String>,
    /// Resource budget
    pub budget: ExecutionBudget,
    /// Granted capabilities
    pub capabilities: Vec<Capability>,
    /// Whether network should be blocked
    pub block_network: bool,
}

/// Result of a sandboxed execution.
pub struct SandboxResult {
    pub stdout: String,
    pub stderr: String,
    pub exit_code: Option<i32>,
    pub duration_ms: u64,
    pub memory_peak_kb: u64,
    pub sandbox_layers_applied: Vec<String>,
    pub sandbox_errors: Vec<String>,
}

// ─── Image size ─────────────────────────────────────────────────────────────

pub open spec fn png_signature() -> Seq<u8> {
    seq![0x89u8, 0x50u8, 0x4eu8, 0x47u8, 0x0du8, 0x0au8, 0x1au8, 0x0au8]
}

pub open spec fn be16(b: Seq<u8>, i: int) -> nat {
    (b[i] as nat) * 256 + (b[i + 1] as nat)
}

pub open spec fn be32(b: Seq<u8>, i: int) -> nat {
    (b[i] as nat) * 16777216 + (b[i + 1] as nat) * 65536 + (b[i + 2] as nat) * 256 + (b[i + 3] as nat)
}

/// Whether a JPEG marker has no length field.
pub open spec fn standalone_marker(m: u8) -> bool {
    m == 0x00 || m == 0x01 || (0xD0 <= m <= 0xD9)
}

/// Scan JPEG markers from `i` for a start-of-frame (baseline or
/// progressive) and read width and height from it.
pub open spec fn jpeg_scan(b: Seq<u8>, i: int) -> Option<(u32, u32)>
    decreases b.len() - i,
{
    if i < 0 || !(i + 9 < b.len()) {
        None
    } else if b[i] != 0xFF {
        jpeg_scan(b, i + 1)
    } else {
        let marker = b[i + 1];
        if marker == 0xC0 || marker == 0xC2 {
            Some((be16(b, i + 7) as u32, be16(b, i + 5) as u32))
        } else if !standalone_marker(marker) && i + 3 < b.len() {
            let len = be16(b, i + 2);
            let next = i + 2 + (if len > 2 { len } else { 2 });
            if next >= b.len() { None } else { jpeg_scan(b, next) }
        } else {
            jpeg_scan(b, i + 2)
        }
    }
}

/// Width and height of a PNG (from its header chunk) or a JPEG (from its
/// first start-of-frame marker).
pub open spec fn spec_image_dimensions(b: Seq<u8>) -> Option<(u32, u32)> {
    if b.len() >= 8 && b.take(8) == png_signature() && b.len() >= 24 {
        Some((be32(b, 16) as u32, be32(b, 20) as u32))
    } else if b.len() >= 2 && b[0] == 0xFF && b[1] == 0xD8 {
        jpeg_scan(b, 2)
    } else {
        None
    }
}

fn read_be16(b: &[u8], i: usize) -> (r: u32)
    requires
        i + 1 < b@.len(),
    ensures
        r == be16(b@, i as int),
{
    (b[i] as u32) * 256 + (b[i + 1] as u32)
}

fn read_be32(b: &[u8], i: usize) -> (r: u32)
    requires
        i + 3 < b@.len(),
    ensures
        r == be32(b@, i as int),
{
    (b[i] as u32) * 16777216 + (b[i + 1] as u32) * 65536 + (b[i + 2] as u32) * 256 + (b[i + 3] as u32)
}

/// Parse width and height from PNG or JPEG bytes.
pub fn image_dimensions(bytes: &[u8]) -> (r: Option<(u32, u32)>)
    requires
        bytes@.len() + 0x10010 <= usize::MAX,
    ensures
        r == spec_image_dimensions(bytes@),
{
    let n = bytes.len();
    if n >= 24 && bytes[0] == 0x89 && bytes[1] == 0x50 && bytes[2] == 0x4e && bytes[3] == 0x47
        && bytes[4] == 0x0d && bytes[5] == 0x0a && bytes[6] == 0x1a && bytes[7] == 0x0a {
        proof { assert(bytes@.take(8) =~= png_signature()); }
        let width = read_be32(bytes, 16);
        let height = read_be32(bytes, 20);
        return Some((width, height));
    }
    proof {
        if n >= 24 && bytes@.take(8) == png_signature() {
            assert(bytes@.take(8)[0] == 0x89u8);
            assert(bytes@.take(8)[1] == 0x50u8);
            assert(bytes@.take(8)[2] == 0x4eu8);
            assert(bytes@.take(8)[3] == 0x47u8);
            assert(bytes@.take(8)[4] == 0x0du8);
            assert(bytes@.take(8)[5] == 0x0au8);
            assert(bytes@.take(8)[6] == 0x1au8);
            assert(bytes@.take(8)[7] == 0x0au8);
        }
    }
    if n >= 2 && bytes[0] == 0xFF && bytes[1] == 0xD8 {
        let mut i: usize = 2;
        assert(spec_image_dimensions(bytes@) == jpeg_scan(bytes@, 2));
        while i + 9 < n
            invariant
                spec_image_dimensions(bytes@) == jpeg_scan(bytes@, 2),
                2 <= i <= n,
                n == bytes@.len(),
                n + 0x10010 <= usize::MAX,
                jpeg_scan(bytes@, 2) == jpeg_scan(bytes@, i as int),
            decreases n - i,
        {
            if bytes[i] != 0xFF {
                i = i + 1;
                continue;
            }
            let marker = bytes[i + 1];
            if marker == 0xC0 || marker == 0xC2 {
                let height = read_be16(bytes, i + 5);
                let width = read_be16(bytes, i + 7);
                proof {
                    assert(jpeg_scan(bytes@, i as int) == Some((width, height)));
                }
                return Some((width, height));
            }
            if marker != 0x00 && marker != 0x01 && !(0xD0 <= marker && marker <= 0xD9) && i + 3 < n {
                let len = read_be16(bytes, i + 2) as usize;
                let step = if len > 2 { len } else { 2 };
                let next = i + 2 + step;
                if next >= n {
                    return None;
                }
                i = next;
                continue;
            }
            i = i + 2;
        }
        return None;
    }
    None
}

// ─── Outputs ────────────────────────────────────────────────────────────────

/// Stdout reads as JSON when, leading whitespace aside, it starts with `{`.
pub open spec fn spec_stdout_format(stdout: Seq<char>) -> TextFormat {
    let t = trim_start(stdout);
    if t.len() > 0 && t[0] == '{' { TextFormat::Json } else { TextFormat::Plain }
}

pub fn stdout_format(stdout: &str) -> (r: TextFormat)
    ensures
        r == spec_stdout_format(stdout@),
{
    let cs = chars_of(stdout);
    let mut i: usize = 0;
    proof { assert(cs@.skip(0) =~= cs@); }
    while i < cs.len() && crate::text::char_is_ws(cs[i])
        invariant
            i <= cs@.len(),
            cs@ == stdout@,
            trim_start(stdout@) == trim_start(cs@.skip(i as int)),
        decreases cs@.len() - i,
    {
        proof { assert(cs@.skip(i as int).drop_first() =~= cs@.skip(i + 1)); }
        i = i + 1;
    }
    if i < cs.len() && cs[i] == '{' {
        TextFormat::Json
    } else {
        TextFormat::Plain
    }
}

/// The level of a stderr line: an error when it mentions "error", a warning
/// when it mentions "warn", else information (case-insensitively).
pub open spec fn spec_log_level(line: Seq<char>) -> LogLevel {
    let l = to_lower(line);
    if contains(l, "error"@) {
        LogLevel::Error
    } else if contains(l, "warn"@) {
        LogLevel::Warn
    } else {
        LogLevel::Info
    }
}

pub fn log_level(line: &str) -> (r: LogLevel)
    ensures
        r == spec_log_level(line@),
{
    let l = lowercase(line);
    if str_contains(l.as_str(), "error") {
        LogLevel::Error
    } else if str_contains(l.as_str(), "warn") {
        LogLevel::Warn
    } else {
        LogLevel::Info
    }
}

/// The mime type of an output file, by its extension.
pub open spec fn spec_mime_type(ext: Seq<char>) -> Seq<char> {
    if ext == "csv"@ {
        "text/csv"@
    } else if ext == "json"@ {
        "application/json"@
    } else if ext == "png"@ {
        "image/png"@
    } else if ext == "jpg"@ || ext == "jpeg"@ {
        "image/jpeg"@
    } else if ext == "svg"@ {
        "image/svg+xml"@
    } else if ext == "txt"@ {
        "text/plain"@
    } else if ext == "md"@ {
        "text/markdown"@
    } else if ext == "yaml"@ || ext == "yml"@ {
        "application/yaml"@
    } else {
        "application/octet-stream"@
    }
}

pub fn mime_type(ext: &str) -> (r: &'static str)
    ensures
        r@ == spec_mime_type(ext@),
{
    if str_eq(ext, "csv") {
        "text/csv"
    } else if str_eq(ext, "json") {
        "application/json"
    } else if str_eq(ext, "png") {
        "image/png"
    } else if str_eq(ext, "jpg") || str_eq(ext, "jpeg") {
        "image/jpeg"
    } else if str_eq(ext, "svg") {
        "image/svg+xml"
    } else if str_eq(ext, "txt") {
        "text/plain"
    } else if str_eq(ext, "md") {
        "text/markdown"
    } else if str_eq(ext, "yaml") || str_eq(ext, "yml") {
        "application/yaml"
    } else {
        "application/octet-stream"
    }
}

/// Files below this size are read and may become image or JSON artifacts.
pub const SMALL_FILE_LIMIT: u64 = 5242880;

/// How an output file is kept.
#[derive(Debug, Clone, Copy, PartialEq, Eq, Structural)]
pub enum FileKind {
    Image(ImageFormat),
    Json,
    Reference,
}

/// What an output file becomes: a small `png`, `jpg` or `jpeg` file that
/// could be read is an image; a small `json` file that could be read and
/// parses is a JSON value; anything else is kept as a file reference.
pub open spec fn spec_file_kind(ext: Seq<char>, size: u64, readable: bool, parses_as_json: bool) -> FileKind {
    if size < SMALL_FILE_LIMIT && readable && ext == "png"@ {
        FileKind::Image(ImageFormat::Png)
    } else if size < SMALL_FILE_LIMIT && readable && (ext == "jpg"@ || ext == "jpeg"@) {
        FileKind::Image(ImageFormat::Jpg)
    } else if size < SMALL_FILE_LIMIT && readable && ext == "json"@ && parses_as_json {
        FileKind::Json
    } else {
        FileKind::Reference
    }
}

pub fn file_kind(ext: &str, size: u64, readable: bool, parses_as_json: bool) -> (r: FileKind)
    ensures
        r == spec_file_kind(ext@, size, readable, parses_as_json),
{
    if size < SMALL_FILE_LIMIT && readable && str_eq(ext, "png") {
        FileKind::Image(ImageFormat::Png)
    } else if size < SMALL_FILE_LIMIT && readable && (str_eq(ext, "jpg") || str_eq(ext, "jpeg")) {
        FileKind::Image(ImageFormat::Jpg)
    } else if size < SMALL_FILE_LIMIT && readable && str_eq(ext, "json") && parses_as_json {
        FileKind::Json
    } else {
        FileKind::Reference
    }
}

/// Whether a text is a JSON document, as serde_json reads one into a
/// `Value`.
pub uninterp spec fn json_parses(text: Seq<char>) -> bool;

/// `serde_json::from_str::<serde_json::Value>(text).is_ok()`: whether the
/// text parses as a JSON value. The grammar is serde_json's and is only
/// named here.
#[verifier::external_body]
fn parses_as_json(text: &str) -> (r: bool)
    ensures
        r == json_parses(text@),
{
    serde_json::from_str::<serde_json::Value>(text).is_ok()
}

/// Whether the bytes of a file that was read are a JSON document: UTF-8
/// text that parses.
pub open spec fn json_bytes(bytes: Option<Seq<u8>>) -> bool {
    match bytes {
        Some(b) => valid_utf8(b) && json_parses(decode_utf8(b)),
        None => false,
    }
}

/// What an output file becomes, given its extension, its size and, where it
/// could be read, its bytes.
pub fn file_kind_of(ext: &str, size: u64, bytes: Option<&[u8]>) -> (r: FileKind)
    ensures
        r == spec_file_kind(ext@, size, bytes is Some, json_bytes(match bytes {
            Some(b) => Some(b@),
            None => None,
        })),
{
    let parses = match bytes {
        Some(b) => {
            if size < SMALL_FILE_LIMIT && str_eq(ext, "json") {
                match utf8_text(vstd::slice::slice_to_vec(b)) {
                    Some(t) => parses_as_json(t.as_str()),
                    None => false,
                }
            } else {
                false
            }
        },
        None => false,
    };
    let readable = bytes.is_some();
    proof {
        if !(size < SMALL_FILE_LIMIT && ext@ == "json"@) {
            assert(spec_file_kind(ext@, size, readable, parses) == spec_file_kind(ext@, size, readable, json_bytes(match bytes {
                Some(b) => Some(b@),
                None => None,
            })));
        }
    }
    file_kind(ext, size, readable, parses)
}

// ─── Text and log artifacts ─────────────────────────────────────────────────

/// The text artifact of a run's stdout: none when it is empty, otherwise the
/// text itself, its format and its number of lines.
pub fn text_artifact(stdout: &str) -> (r: Option<(String, TextFormat, usize)>)
    ensures
        stdout@.len() == 0 <==> r is None,
        r is Some ==> {
            &&& r->Some_0.0@ == stdout@
            &&& r->Some_0.1 == spec_stdout_format(stdout@)
            &&& r->Some_0.2 == lines_of(stdout@).len()
        },
{
    if stdout.is_empty() {
        return None;
    }
    let lines = text_lines(stdout);
    proof {
        assert(strs(lines@).len() == lines@.len());
    }
    Some((owned(stdout), stdout_format(stdout), lines.len()))
}

/// The levels in the order the counts are listed.
pub open spec fn all_levels() -> Seq<LogLevel> {
    seq![LogLevel::Trace, LogLevel::Debug, LogLevel::Info, LogLevel::Warn, LogLevel::Error, LogLevel::Fatal]
}

/// How many of the entries have a level.
pub open spec fn count_level(entries: Seq<(LogLevel, String)>, level: LogLevel) -> nat
    decreases entries.len(),
{
    if entries.len() == 0 {
        0
    } else {
        count_level(entries.drop_last(), level) + if entries.last().0 == level { 1nat } else { 0nat }
    }
}

fn count_of(entries: &Vec<(LogLevel, String)>, level: LogLevel) -> (r: usize)
    ensures
        r == count_level(entries@, level),
{
    let mut n: usize = 0;
    let mut i: usize = 0;
    while i < entries.len()
        invariant
            i <= entries@.len(),
            n == count_level(entries@.take(i as int), level),
            n <= i,
        decreases entries@.len() - i,
    {
        proof {
            assert(entries@.take(i + 1).drop_last() =~= entries@.take(i as int));
        }
        if entries[i].0 == level {
            n = n + 1;
        }
        i = i + 1;
    }
    proof { assert(entries@.take(entries@.len() as int) =~= entries@); }
    n
}

/// The log artifact of a run's stderr: none when it is empty, otherwise one
/// entry per line with the line's level, and for each level, in the order of
/// `all_levels`, the number of entries at that level.
pub fn log_artifact(stderr: &str) -> (r: Option<(Vec<(LogLevel, String)>, Vec<(LogLevel, usize)>)>)
    ensures
        stderr@.len() == 0 <==> r is None,
        r is Some ==> {
            let (entries, counts) = r->Some_0;
            &&& entries@.len() == lines_of(stderr@).len()
            &&& forall|i: int| 0 <= i < entries@.len() ==> {
                &&& (#[trigger] entries@[i]).1@ == lines_of(stderr@)[i]
                &&& entries@[i].0 == spec_log_level(lines_of(stderr@)[i])
            }
            &&& counts@.len() == all_levels().len()
            &&& forall|k: int| 0 <= k < counts@.len() ==> {
                &&& (#[trigger] counts@[k]).0 == all_levels()[k]
                &&& counts@[k].1 == count_level(entries@, all_levels()[k])
            }
        },
{
    if stderr.is_empty() {
        return None;
    }
    let lines = text_lines(stderr);
    let ghost ls = lines_of(stderr@);
    let mut entries: Vec<(LogLevel, String)> = Vec::new();
    let mut i: usize = 0;
    while i < lines.len()
        invariant
            i <= lines@.len(),
            strs(lines@) == ls,
            entries@.len() == i,
            forall|j: int| 0 <= j < i ==> {
                &&& (#[trigger] entries@[j]).1@ == ls[j]
                &&& entries@[j].0 == spec_log_level(ls[j])
            },
        decreases lines@.len() - i,
    {
        proof { assert(strs(lines@)[i as int] == lines@[i as int]@); }
        let line = lines[i].clone();
        let level = log_level(line.as_str());
        entries.push((level, line));
        i = i + 1;
    }
    proof { assert(strs(lines@).len() == lines@.len()); }
    let order = [LogLevel::Trace, LogLevel::Debug, LogLevel::Info, LogLevel::Warn, LogLevel::Error, LogLevel::Fatal];
    let mut counts: Vec<(LogLevel, usize)> = Vec::new();
    let mut k: usize = 0;
    while k < 6
        invariant
            k <= 6,
            order@ == all_levels(),
            counts@.len() == k,
            forall|j: int| 0 <= j < k ==> {
                &&& (#[trigger] counts@[j]).0 == all_levels()[j]
                &&& counts@[j].1 == count_level(entries@, all_levels()[j])
            },
        decreases 6 - k,
    {
        let level = order[k];
        let n = count_of(&entries, level);
        counts.push((level, n));
        k = k + 1;
    }
    Some((entries, counts))
}

} // verus!
