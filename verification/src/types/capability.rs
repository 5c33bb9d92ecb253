//! Capabilities: fine-grained permissions an execution must be granted.
use vstd::prelude::*;
use crate::text::{owned, string_views};

verus! {

/// A fine-grained permission to access a resource or perform an action.
#[derive(Debug, Clone, PartialEq)]
pub enum Capability {
    /// Read from specified filesystem paths
    FilesystemRead { paths: Vec<String> },
    /// Write to specified filesystem paths
    FilesystemWrite { paths: Vec<String> },
    /// Create files in specified paths
    FilesystemCreate { paths: Vec<String> },
    /// Network access to specified hosts/ports
    NetworkAccess { hosts: Vec<String>, ports: Vec<u16> },
    /// DNS resolution
    NetworkDns,
    /// CPU core allocation
    CpuCores(u8),
    /// Memory allocation in MB
    MemoryMB(u64),
    /// GPU compute access
    GpuCompute { device: Option<u8> },
    /// Spawn child processes
    ProcessSpawn,
    /// Read environment variables
    EnvironmentRead,
    /// Write environment variables
    EnvironmentWrite,
    /// Database access
    DatabaseAccess { connection_string: String },
    /// Browser automation
    BrowserAutomation,
    /// Audio capture
    AudioCapture,
    /// Video capture
    VideoCapture,
    /// Read from SSME
    SsmeRead,
    /// Write to SSME
    SsmeWrite,
    /// Query belief graph
    BeliefGraphQuery,
    /// Use specific inference provider
    InferenceProvider { provider: String },
}

/// The name of a capability's kind.
pub open spec fn capability_name(c: Capability) -> Seq<char> {
    match c {
        Capability::FilesystemRead { .. } => "filesystem_read"@,
        Capability::FilesystemWrite { .. } => "filesystem_write"@,
        Capability::FilesystemCreate { .. } => "filesystem_create"@,
        Capability::NetworkAccess { .. } => "network_access"@,
        Capability::NetworkDns => "network_dns"@,
        Capability::CpuCores(_) => "cpu_cores"@,
        Capability::MemoryMB(_) => "memory_mb"@,
        Capability::GpuCompute { .. } => "gpu_compute"@,
        Capability::ProcessSpawn => "process_spawn"@,
        Capability::EnvironmentRead => "environment_read"@,
        Capability::EnvironmentWrite => "environment_write"@,
        Capability::DatabaseAccess { .. } => "database_access"@,
        Capability::BrowserAutomation => "browser_automation"@,
        Capability::AudioCapture => "audio_capture"@,
        Capability::VideoCapture => "video_capture"@,
        Capability::SsmeRead => "ssme_read"@,
        Capability::SsmeWrite => "ssme_write"@,
        Capability::BeliefGraphQuery => "belief_graph_query"@,
        Capability::InferenceProvider { .. } => "inference_provider"@,
    }
}

impl Capability {
    /// Human-readable name for this capability type.
    pub fn name(&self) -> (r: &'static str)
        ensures
            r@ == capability_name(*self),
    {
        match self {
            Capability::FilesystemRead { .. } => "filesystem_read",
            Capability::FilesystemWrite { .. } => "filesystem_write",
            Capability::FilesystemCreate { .. } => "filesystem_create",
            Capability::NetworkAccess { .. } => "network_access",
            Capability::NetworkDns => "network_dns",
            Capability::CpuCores(_) => "cpu_cores",
            Capability::MemoryMB(_) => "memory_mb",
            Capability::GpuCompute { .. } => "gpu_compute",
            Capability::ProcessSpawn => "process_spawn",
            Capability::EnvironmentRead => "environment_read",
            Capability::EnvironmentWrite => "environment_write",
            Capability::DatabaseAccess { .. } => "database_access",
            Capability::BrowserAutomation => "browser_automation",
            Capability::AudioCapture => "audio_capture",
            Capability::VideoCapture => "video_capture",
            Capability::SsmeRead => "ssme_read",
            Capability::SsmeWrite => "ssme_write",
            Capability::BeliefGraphQuery => "belief_graph_query",
            Capability::InferenceProvider { .. } => "inference_provider",
        }
    }
}

/// A capability as plain values: its kind's name, the texts it carries
/// (paths, hosts, a connection string or a provider), its ports and its
/// number (cores, megabytes or a GPU device).
pub struct CapabilityView {
    pub kind: Seq<char>,
    pub texts: Seq<Seq<char>>,
    pub ports: Seq<u16>,
    pub number: Option<u64>,
}

/// The view of a capability that carries nothing but its kind.
pub open spec fn bare_view(kind: Seq<char>) -> CapabilityView {
    CapabilityView { kind, texts: seq![], ports: seq![], number: None }
}

impl View for Capability {
    type V = CapabilityView;

    open spec fn view(&self) -> CapabilityView {
        let kind = capability_name(*self);
        match *self {
            Capability::FilesystemRead { paths } => CapabilityView { kind, texts: string_views(paths@), ports: seq![], number: None },
            Capability::FilesystemWrite { paths } => CapabilityView { kind, texts: string_views(paths@), ports: seq![], number: None },
            Capability::FilesystemCreate { paths } => CapabilityView { kind, texts: string_views(paths@), ports: seq![], number: None },
            Capability::NetworkAccess { hosts, ports } => CapabilityView { kind, texts: string_views(hosts@), ports: ports@, number: None },
            Capability::CpuCores(n) => CapabilityView { kind, texts: seq![], ports: seq![], number: Some(n as u64) },
            Capability::MemoryMB(n) => CapabilityView { kind, texts: seq![], ports: seq![], number: Some(n) },
            Capability::GpuCompute { device } => CapabilityView {
                kind,
                texts: seq![],
                ports: seq![],
                number: match device {
                    Some(d) => Some(d as u64),
                    None => None,
                },
            },
            Capability::DatabaseAccess { connection_string } => CapabilityView { kind, texts: seq![connection_string@], ports: seq![], number: None },
            Capability::InferenceProvider { provider } => CapabilityView { kind, texts: seq![provider@], ports: seq![], number: None },
            _ => bare_view(kind),
        }
    }
}

/// A copy of a list of strings.
pub fn clone_strings(v: &Vec<String>) -> (r: Vec<String>)
    ensures
        string_views(r@) == string_views(v@),
{
    let mut out: Vec<String> = Vec::new();
    let mut i: usize = 0;
    while i < v.len()
        invariant
            i <= v@.len(),
            string_views(out@) == string_views(v@.take(i as int)),
        decreases v@.len() - i,
    {
        let ghost before = string_views(out@);
        out.push(owned(v[i].as_str()));
        proof {
            assert(string_views(out@) =~= before.push(v@[i as int]@));
            assert(string_views(v@.take(i + 1)) =~= string_views(v@.take(i as int)).push(v@[i as int]@));
        }
        i = i + 1;
    }
    assert(v@.take(v@.len() as int) =~= v@);
    out
}

/// A copy of a list of ports.
fn clone_ports(v: &Vec<u16>) -> (r: Vec<u16>)
    ensures
        r@ == v@,
{
    let mut out: Vec<u16> = Vec::new();
    let mut i: usize = 0;
    while i < v.len()
        invariant
            i <= v@.len(),
            out@ == v@.take(i as int),
        decreases v@.len() - i,
    {
        out.push(v[i]);
        proof { assert(out@ =~= v@.take(i + 1)); }
        i = i + 1;
    }
    assert(v@.take(v@.len() as int) =~= v@);
    out
}

/// A copy of a capability, equal to it as plain values.
pub fn clone_capability(c: &Capability) -> (r: Capability)
    ensures
        r@ == c@,
{
    match c {
        Capability::FilesystemRead { paths } => Capability::FilesystemRead { paths: clone_strings(paths) },
        Capability::FilesystemWrite { paths } => Capability::FilesystemWrite { paths: clone_strings(paths) },
        Capability::FilesystemCreate { paths } => Capability::FilesystemCreate { paths: clone_strings(paths) },
        Capability::NetworkAccess { hosts, ports } => Capability::NetworkAccess { hosts: clone_strings(hosts), ports: clone_ports(ports) },
        Capability::NetworkDns => Capability::NetworkDns,
        Capability::CpuCores(n) => Capability::CpuCores(*n),
        Capability::MemoryMB(n) => Capability::MemoryMB(*n),
        Capability::GpuCompute { device } => Capability::GpuCompute { device: *device },
        Capability::ProcessSpawn => Capability::ProcessSpawn,
        Capability::EnvironmentRead => Capability::EnvironmentRead,
        Capability::EnvironmentWrite => Capability::EnvironmentWrite,
        Capability::DatabaseAccess { connection_string } => Capability::DatabaseAccess { connection_string: owned(connection_string.as_str()) },
        Capability::BrowserAutomation => Capability::BrowserAutomation,
        Capability::AudioCapture => Capability::AudioCapture,
        Capability::VideoCapture => Capability::VideoCapture,
        Capability::SsmeRead => Capability::SsmeRead,
        Capability::SsmeWrite => Capability::SsmeWrite,
        Capability::BeliefGraphQuery => Capability::BeliefGraphQuery,
        Capability::InferenceProvider { provider } => Capability::InferenceProvider { provider: owned(provider.as_str()) },
    }
}

/// Authority that issued a capability grant.
#[derive(Debug, Clone, Copy, PartialEq, Eq, Structural)]
pub enum GrantAuthority {
    Orchestrator,
    Afa,
    Human,
    System,
}

/// A signed capability grant bound to a specific execution.
#[derive(Debug, Clone)]
pub struct CapabilityGrant {
    pub execution_id: String,
    pub capability: Capability,
    pub granted: bool,
    pub granted_by: GrantAuthority,
    pub reason: Option<String>,
    /// When the grant was made, in RFC 3339 notation.
    pub timestamp: String,
    /// Ed25519-signed JWT capability token.
    pub signature: String,
}

/// A grant as plain values.
pub struct GrantView {
    pub execution_id: Seq<char>,
    pub capability: CapabilityView,
    pub granted: bool,
    pub granted_by: GrantAuthority,
    pub reason: Option<Seq<char>>,
    pub timestamp: Seq<char>,
    pub signature: Seq<char>,
}

impl View for CapabilityGrant {
    type V = GrantView;

    open spec fn view(&self) -> GrantView {
        GrantView {
            execution_id: self.execution_id@,
            capability: self.capability@,
            granted: self.granted,
            granted_by: self.granted_by,
            reason: match self.reason {
                Some(r) => Some(r@),
                None => None,
            },
            timestamp: self.timestamp@,
            signature: self.signature@,
        }
    }
}

/// A copy of a grant, equal to it as plain values.
pub fn clone_grant(g: &CapabilityGrant) -> (r: CapabilityGrant)
    ensures
        r@ == g@,
{
    CapabilityGrant {
        execution_id: owned(g.execution_id.as_str()),
        capability: clone_capability(&g.capability),
        granted: g.granted,
        granted_by: g.granted_by,
        reason: match &g.reason {
            Some(r) => Some(owned(r.as_str())),
            None => None,
        },
        timestamp: owned(g.timestamp.as_str()),
        signature: owned(g.signature.as_str()),
    }
}

} // verus!
