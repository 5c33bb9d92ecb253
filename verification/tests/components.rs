use vico_vee::artifact::{artifact_id, blob_location, blob_path, kind_of, ArtifactKind};
use vico_vee::claims::{read_claims, write_claims, write_header, CapabilityClaims, JwtHeader};
use vico_vee::health::{extract_or_generate_id, RequestContext};
use vico_vee::landlock::{landlock_plan, limits_fit, rlimit_plan, HANDLED_ACCESS, MIB, OUT_ACCESS, RO_ACCESS, RW_ACCESS, RX_ACCESS};
use vico_vee::lcs::lcs_indices;
use vico_vee::migrations::{already_applied, Migration, MigrationPlan, Runner};
use vico_vee::openapi::registered_routes;
use vico_vee::sandbox::{file_kind, image_dimensions, log_level, mime_type, stdout_format, FileKind};
use vico_vee::seccomp::{allowed_syscall_list, build_seccomp_filter, network_syscall_list, SockFilter};
use vico_vee::tls::TlsConfig;
use vico_vee::types::artifact::{ImageFormat, LogLevel, TextFormat};
use vico_vee::types::budget::ExecutionBudget;

fn lines(v: &[&str]) -> Vec<String> {
    v.iter().map(|s| s.to_string()).collect()
}

#[test]
fn lcs_finds_longest_common_subsequence() {
    let a = lines(&["a", "b", "c", "d"]);
    let b = lines(&["b", "x", "c", "d", "e"]);
    let pairs = lcs_indices(&a, &b);
    assert_eq!(pairs.len(), 3);
    for w in pairs.windows(2) {
        assert!(w[0].0 < w[1].0 && w[0].1 < w[1].1);
    }
    for (i, j) in &pairs {
        assert_eq!(a[*i], b[*j]);
    }
    assert!(lcs_indices(&a, &vec![]).is_empty());
}

/// Runs a seccomp program on a system call number, as the kernel would.
fn run_filter(prog: &[SockFilter], nr: u32) -> u32 {
    let mut pc = 0usize;
    let mut acc = 0u32;
    loop {
        let ins = prog[pc];
        match ins.code {
            0x20 => {
                acc = nr;
                pc += 1;
            }
            0x15 => {
                pc += 1 + if acc == ins.k { ins.jt as usize } else { ins.jf as usize };
            }
            0x06 => return ins.k,
            _ => panic!("unexpected instruction"),
        }
    }
}

#[test]
fn seccomp_filter_allows_exactly_the_list() {
    let allowed = allowed_syscall_list();
    let network = network_syscall_list();
    let strict = build_seccomp_filter(true);
    let open = build_seccomp_filter(false);
    assert_eq!(strict.len(), 2 + 2 * allowed.len());
    assert_eq!(open.len(), 2 + 2 * (allowed.len() + network.len()));
    for nr in 0u32..500 {
        let expect_strict = if allowed.contains(&nr) { 0x7fff_0000 } else { 0 };
        assert_eq!(run_filter(&strict, nr), expect_strict);
        let expect_open = if allowed.contains(&nr) || network.contains(&nr) { 0x7fff_0000 } else { 0 };
        assert_eq!(run_filter(&open, nr), expect_open);
    }
    assert_eq!(run_filter(&strict, 41), 0);
    assert_eq!(run_filter(&open, 41), 0x7fff_0000);
}

#[test]
fn claims_json_round_trip() {
    let claims = CapabilityClaims {
        sub: "exec \"1\"\n".into(),
        cap: "ssme_read".into(),
        grt: false,
        aud: "human".into(),
        rsn: None,
        jti: "j\\k".into(),
        iat: -5,
        exp: 3595,
    };
    let text = write_claims(&claims);
    assert_eq!(serde_json::from_str::<serde_json::Value>(&text).unwrap()["sub"], "exec \"1\"\n");
    let back = read_claims(&text).unwrap();
    assert_eq!(back.sub, claims.sub);
    assert_eq!(back.jti, claims.jti);
    assert_eq!(back.iat, -5);
    assert_eq!(back.exp, 3595);
    assert!(!back.grt);
    assert!(back.rsn.is_none());
    assert!(read_claims("{\"sub\": \"x\"}").is_none());
    assert_eq!(write_header(&JwtHeader { alg: "EdDSA".into(), typ: "JWT".into() }), "{\"alg\":\"EdDSA\",\"typ\":\"JWT\"}");
}

fn migration(version: i64) -> Migration {
    Migration { version, name: format!("m{version}"), sql: String::new(), down_sql: None }
}

#[test]
fn migration_plans() {
    let runner = Runner::new(vec![migration(1), migration(2), migration(3)]);
    assert_eq!(runner.latest_version(), 3);
    match runner.plan(1, 3) {
        MigrationPlan::Up(v) => assert_eq!(v, vec![1, 2]),
        other => panic!("unexpected plan {:?}", other),
    }
    match runner.plan(3, 1) {
        MigrationPlan::Down(v) => assert_eq!(v, vec![2, 1]),
        other => panic!("unexpected plan {:?}", other),
    }
    assert!(matches!(runner.plan(2, 2), MigrationPlan::Nothing));
    assert!(already_applied("table foo already exists"));
    assert!(already_applied("duplicate column name: x"));
    assert!(!already_applied("syntax error"));
}

#[test]
fn sandbox_output_reading() {
    let mut png = vec![0x89, 0x50, 0x4e, 0x47, 0x0d, 0x0a, 0x1a, 0x0a, 0, 0, 0, 13, b'I', b'H', b'D', b'R'];
    png.extend_from_slice(&[0, 0, 1, 0, 0, 0, 0, 200]);
    assert_eq!(image_dimensions(&png), Some((256, 200)));
    let jpeg = vec![0xFF, 0xD8, 0xFF, 0xC0, 0x00, 0x11, 0x08, 0x00, 0x40, 0x00, 0x80, 0x03];
    assert_eq!(image_dimensions(&jpeg), Some((128, 64)));
    assert_eq!(image_dimensions(b"GIF89a"), None);
    assert_eq!(stdout_format("  {\"a\":1}"), TextFormat::Json);
    assert_eq!(stdout_format("hello"), TextFormat::Plain);
    assert_eq!(log_level("ERROR: x"), LogLevel::Error);
    assert_eq!(log_level("Warning"), LogLevel::Warn);
    assert_eq!(log_level("fine"), LogLevel::Info);
    assert_eq!(mime_type("yml"), "application/yaml");
    assert_eq!(mime_type("bin"), "application/octet-stream");
    assert_eq!(file_kind("png", 10, true, false), FileKind::Image(ImageFormat::Png));
    assert_eq!(file_kind("json", 10, true, true), FileKind::Json);
    assert_eq!(file_kind("json", 10, true, false), FileKind::Reference);
    assert_eq!(file_kind("png", 6_000_000, true, false), FileKind::Reference);
}

#[test]
fn landlock_and_rlimits() {
    let plan = landlock_plan("/work", "/out", &vec!["/in".to_string()], &vec!["/usr/bin".to_string(), "/bin".to_string()]);
    assert_eq!(plan.handled_access, HANDLED_ACCESS);
    assert_eq!(HANDLED_ACCESS, 0b1_1011_1111);
    let got: Vec<(&str, u64, bool)> = plan.rules.iter().map(|r| (r.path.as_str(), r.access, r.required)).collect();
    assert_eq!(
        got,
        vec![
            ("/work", RW_ACCESS, true),
            ("/out", OUT_ACCESS, true),
            ("/in", RO_ACCESS, false),
            ("/usr/bin", RX_ACCESS, false),
            ("/bin", RX_ACCESS, false),
        ]
    );
    for r in &plan.rules {
        assert_eq!(r.access & !plan.handled_access, 0);
    }
    let budget = ExecutionBudget { cpu_seconds: 2, memory_mb: 64, disk_mb: 10, token_budget: 0, wall_clock_seconds: 0 };
    let limits = rlimit_plan(&budget);
    assert_eq!((limits.cpu.soft, limits.cpu.hard), (2, 7));
    assert_eq!((limits.address_space.soft, limits.address_space.hard), (64 * MIB, 114 * MIB));
    assert_eq!((limits.file_size.soft, limits.file_size.hard), (10 * MIB, 10 * MIB));
    assert_eq!((limits.open_files.soft, limits.open_files.hard), (4096, 4096));
}

#[test]
fn artifact_identifiers_and_blobs() {
    assert_eq!(kind_of(ArtifactKind::Dataset), "dataset");
    let id = artifact_id(ArtifactKind::Image).unwrap();
    assert!(id.starts_with("art-image-"));
    assert_eq!(id.len(), "art-image-".len() + 36);
    assert_eq!(blob_path("/blobs", "abcdef"), "/blobs/ab/abcdef");
    assert_eq!(blob_path("/blobs/", "a"), "/blobs/a/a");
    let (hash, path) = blob_location("/b", b"hello");
    assert_eq!(hash, blake3::hash(b"hello").to_hex().to_string());
    assert_eq!(path, format!("/b/{}/{}", &hash[..2], hash));
}

#[test]
fn routes_tls_and_request_ids() {
    let routes = registered_routes();
    assert_eq!(routes.len(), 17);
    assert_eq!(routes[0], ("get", "/health"));
    assert!(!routes.contains(&("post", "/health")));
    assert!(routes.iter().all(|(m, _)| *m == "get" || *m == "post"));
    assert_eq!(routes[16], ("get", "/docs"));
    let tls = TlsConfig::new("/c.pem".into(), "/k.pem".into());
    assert_eq!(tls.cert_path, "/c.pem");
    assert_eq!(tls.key_path, "/k.pem");
    assert_eq!(RequestContext::default().request_id, "");
    assert_eq!(extract_or_generate_id(Some("abc")).unwrap(), "abc");
    assert_eq!(extract_or_generate_id(Some("")).unwrap().len(), 36);
    assert_eq!(extract_or_generate_id(None).unwrap().len(), 36);
}

#[test]
fn extract_or_generate_id_preserves_existing() {
    assert_eq!(extract_or_generate_id(Some("abc")).unwrap(), "abc");
}

#[test]
fn extract_or_generate_id_generates_missing() {
    let id = extract_or_generate_id(None).unwrap();
    assert!(!id.is_empty());
}

#[test]
fn migration_plan_down_then_up_reverses() {
    let m = |v: i64| Migration { version: v, name: format!("m{v}"), sql: String::new(), down_sql: None };
    let runner = Runner::new(vec![m(1), m(2), m(3)]);
    match runner.plan(3, 1) {
        MigrationPlan::Down(steps) => assert_eq!(steps, vec![2, 1]),
        _ => panic!("expected a down plan"),
    }
    match runner.plan(1, 3) {
        MigrationPlan::Up(steps) => assert_eq!(steps, vec![1, 2]),
        _ => panic!("expected an up plan"),
    }
    assert!(matches!(runner.plan(2, 2), MigrationPlan::Nothing));
}

#[test]
fn budgets_whose_limits_overflow_do_not_fit() {
    let b = |cpu: u64, mem: u64, disk: u64| ExecutionBudget {
        cpu_seconds: cpu,
        memory_mb: mem,
        disk_mb: disk,
        token_budget: 0,
        wall_clock_seconds: 0,
    };
    assert!(limits_fit(&b(30, 512, 100)));
    assert!(limits_fit(&b(u64::MAX - 5, 0, 0)));
    assert!(!limits_fit(&b(u64::MAX - 4, 0, 0)));
    let max_mem = (u64::MAX - 50 * MIB) / MIB;
    assert!(limits_fit(&b(0, max_mem, 0)));
    assert!(!limits_fit(&b(0, max_mem + 1, 0)));
    assert!(limits_fit(&b(0, 0, u64::MAX / MIB)));
    assert!(!limits_fit(&b(0, 0, u64::MAX / MIB + 1)));
}
