use base64::engine::general_purpose::URL_SAFE_NO_PAD;
use base64::Engine;
use ed25519_dalek::Signer;
use vico_vee::capability::{parse_csv, verify_token, CapabilityRegistry, CapabilityVerifier};
use vico_vee::claims::{read_claims, write_claims};
use vico_vee::types::capability::{Capability, CapabilityGrant, GrantAuthority};

fn now() -> i64 {
    std::time::SystemTime::now().duration_since(std::time::UNIX_EPOCH).unwrap().as_secs() as i64
}

fn extract_jti(token: &str) -> Option<String> {
    let parts: Vec<&str> = token.split('.').collect();
    if parts.len() != 3 {
        return None;
    }
    let bytes = URL_SAFE_NO_PAD.decode(parts[1]).ok()?;
    let text = String::from_utf8(bytes).ok()?;
    let claims = read_claims(&text)?;
    Some(claims.jti)
}

#[test]
fn test_registry_grant_and_verify_with_jwt() {
    let mut registry = CapabilityRegistry::new_with_seed([7u8; 32]);
    let cap = Capability::FilesystemRead { paths: vec!["/workspace".into()] };
    registry.grant("exec-001", cap.clone(), GrantAuthority::Orchestrator, Some("test".into())).unwrap();
    assert!(registry.verify("exec-001", "filesystem_read"));
    assert!(!registry.verify("exec-001", "network_access"));
    assert!(!registry.verify("exec-002", "filesystem_read"));
}

#[test]
fn tests_test_capability_registry_parse() {
    let caps = vec!["filesystem_read".into(), "network_access".into(), "unknown_cap".into()];
    let parsed = CapabilityRegistry::parse_capabilities(&caps);
    assert_eq!(parsed.len(), 2);
    assert_eq!(parsed[0].name(), "filesystem_read");
    assert_eq!(parsed[1].name(), "network_access");
}

#[test]
fn tests_test_capability_registry_parse_scoped_values() {
    let caps = vec![
        "filesystem_read:/home/sal/goten,/home/sal/egor".into(),
        "filesystem_write:/tmp/vico-out".into(),
        "inference_provider:ollama".into(),
    ];
    let parsed = CapabilityRegistry::parse_capabilities(&caps);
    assert_eq!(
        parsed[0],
        Capability::FilesystemRead { paths: vec!["/home/sal/goten".into(), "/home/sal/egor".into()] }
    );
    assert_eq!(parsed[1], Capability::FilesystemWrite { paths: vec!["/tmp/vico-out".into()] });
    assert_eq!(parsed[2], Capability::InferenceProvider { provider: "ollama".into() });
}

#[test]
fn test_jwt_tamper_detection() {
    let mut registry = CapabilityRegistry::new_with_seed([9u8; 32]);
    let cap = Capability::NetworkAccess { hosts: vec!["example.com".into()], ports: vec![443] };
    let grant = registry.grant("exec-003", cap, GrantAuthority::System, None).unwrap();
    assert!(registry.verify("exec-003", "network_access"));

    let mut tampered = grant;
    tampered.signature = tampered.signature[..tampered.signature.len().saturating_sub(1)].to_string();
    registry.replace_grants("exec-003", vec![tampered.clone()]);
    assert!(!registry.verify("exec-003", "network_access"));

    let parts: Vec<&str> = tampered.signature.split('.').collect();
    if parts.len() == 3 {
        let claims_bytes = URL_SAFE_NO_PAD.decode(parts[1]).expect("decode claims");
        let mut claims = read_claims(&String::from_utf8(claims_bytes).unwrap()).expect("parse claims");
        claims.cap = "filesystem_read".to_string();
        let tampered_claims_b64 = URL_SAFE_NO_PAD.encode(write_claims(&claims).as_bytes());
        let forged_signature = format!("{}.{}.{}", parts[0], tampered_claims_b64, parts[2]);
        let mut forged = tampered.clone();
        forged.signature = forged_signature;
        forged.capability = Capability::FilesystemRead { paths: vec![] };
        registry.replace_grants("exec-003", vec![forged]);
        assert!(!registry.verify("exec-003", "filesystem_read"));
    }
}

#[test]
fn test_revocation() {
    let mut registry = CapabilityRegistry::new_with_seed([11u8; 32]);
    let cap = Capability::ProcessSpawn;
    let grant = registry.grant("exec-004", cap, GrantAuthority::Human, None).unwrap();
    assert!(registry.verify("exec-004", "process_spawn"));

    let jti = extract_jti(&grant.signature).expect("jti present");
    registry.revoke(&jti).unwrap();
    assert!(registry.is_revoked(&jti));
    assert!(!registry.verify("exec-004", "process_spawn"));
}

#[test]
fn test_rotate_key_invalidate_grants() {
    let mut registry = CapabilityRegistry::new_with_seed([13u8; 32]);
    registry.grant("exec-005", Capability::EnvironmentRead, GrantAuthority::Orchestrator, None).unwrap();
    assert!(registry.verify("exec-005", "environment_read"));

    registry.rotate_key_with_seed([17u8; 32]);
    assert!(registry.get_grants("exec-005").is_empty());
    assert!(!registry.verify("exec-005", "environment_read"));
}

fn fixed_grant(registry: &mut CapabilityRegistry, granted: bool, at: i64) -> CapabilityGrant {
    if granted {
        registry.grant_at("exec-9", Capability::SsmeRead, GrantAuthority::Afa, Some("why".into()), at, "id-1", "2024-01-01T00:00:00+00:00".into())
    } else {
        registry.deny_at("exec-9", Capability::SsmeRead, GrantAuthority::Afa, "no".into(), at, "id-1", "2024-01-01T00:00:00+00:00".into())
    }
}

#[test]
fn token_claims_carry_the_grant() {
    let mut registry = CapabilityRegistry::new_with_seed([3u8; 32]);
    let g = fixed_grant(&mut registry, true, 1_000);
    let parts: Vec<&str> = g.signature.split('.').collect();
    assert_eq!(parts.len(), 3);
    let header = String::from_utf8(URL_SAFE_NO_PAD.decode(parts[0]).unwrap()).unwrap();
    assert_eq!(header, "{\"alg\":\"EdDSA\",\"typ\":\"JWT\"}");
    let claims = String::from_utf8(URL_SAFE_NO_PAD.decode(parts[1]).unwrap()).unwrap();
    assert_eq!(
        claims,
        "{\"sub\":\"exec-9\",\"cap\":\"ssme_read\",\"grt\":true,\"aud\":\"afa\",\"rsn\":\"why\",\"jti\":\"exec-9-id-1\",\"iat\":1000,\"exp\":4600}"
    );
    assert_eq!(URL_SAFE_NO_PAD.decode(parts[2]).unwrap().len(), 64);
    assert_eq!(g.timestamp, "2024-01-01T00:00:00+00:00");
    assert_eq!(registry.get_grants("exec-9").len(), 1);
}

#[test]
fn grant_verifies_until_expiry() {
    let mut registry = CapabilityRegistry::new_with_seed([5u8; 32]);
    let g = fixed_grant(&mut registry, true, 1_000);
    let v = registry.grant_verifier();
    assert_eq!(v.verify_grant_at(&g, 1_000), Ok(()));
    assert_eq!(v.verify_grant_at(&g, 4_600), Ok(()));
    assert_eq!(v.verify_grant_at(&g, 4_601), Err("capability grant expired".to_string()));
    assert!(registry.verify_at("exec-9", "ssme_read", 2_000));
    assert!(!registry.verify_at("exec-9", "ssme_read", 5_000));
    assert!(!registry.verify_at("exec-9", "ssme_write", 2_000));
}

#[test]
fn denied_grant_is_refused() {
    let mut registry = CapabilityRegistry::new_with_seed([5u8; 32]);
    let g = fixed_grant(&mut registry, false, 1_000);
    assert!(!g.granted);
    assert_eq!(g.reason, Some("no".to_string()));
    let v = registry.grant_verifier();
    assert_eq!(v.verify_grant_at(&g, 1_500), Err("capability was denied".to_string()));
    assert!(!registry.verify_at("exec-9", "ssme_read", 1_500));
}

#[test]
fn verify_errors_in_order() {
    let mut registry = CapabilityRegistry::new_with_seed([21u8; 32]);
    let g = fixed_grant(&mut registry, true, 1_000);
    let v = registry.grant_verifier();

    let mut bad = g.clone();
    bad.signature = "only.two".into();
    assert_eq!(v.verify_grant_at(&bad, 1_000), Err("invalid JWT format".to_string()));

    let parts: Vec<&str> = g.signature.split('.').collect();
    let mut bad = g.clone();
    bad.signature = format!("{}.{}.{}", parts[0], parts[1], "!!");
    assert!(v.verify_grant_at(&bad, 1_000).unwrap_err().starts_with("decode signature: "));

    let mut bad = g.clone();
    bad.signature = format!("{}.{}.{}", parts[0], parts[1], URL_SAFE_NO_PAD.encode([1u8; 10]));
    assert_eq!(v.verify_grant_at(&bad, 1_000), Err("signature length invalid".to_string()));

    let mut bad = g.clone();
    bad.signature = format!("{}.{}.{}", parts[0], parts[1], URL_SAFE_NO_PAD.encode([1u8; 64]));
    assert!(v.verify_grant_at(&bad, 1_000).unwrap_err().starts_with("signature verification failed: "));

    let mut bad = g.clone();
    bad.execution_id = "exec-other".into();
    assert_eq!(v.verify_grant_at(&bad, 1_000), Err("execution ID mismatch".to_string()));

    let mut bad = g.clone();
    bad.capability = Capability::SsmeWrite;
    assert_eq!(v.verify_grant_at(&bad, 1_000), Err("capability name mismatch".to_string()));
}

#[test]
fn unreadable_claims_are_refused() {
    let seed = [23u8; 32];
    let mut registry = CapabilityRegistry::new_with_seed(seed);
    let _ = fixed_grant(&mut registry, true, 1_000);
    // A token whose claims part is signed but not a claims object.
    let key = ed25519_dalek::SigningKey::from_bytes(&seed);
    let h = URL_SAFE_NO_PAD.encode(b"{}");
    let c = URL_SAFE_NO_PAD.encode(b"{\"sub\":1}");
    let input = format!("{}.{}", h, c);
    let sig = key.sign(input.as_bytes()).to_bytes();
    let token = format!("{}.{}", input, URL_SAFE_NO_PAD.encode(sig));
    let public = key.verifying_key().to_bytes();
    let r = verify_token(&public, &None, &token, "exec-9", "ssme_read", 1_000);
    assert_eq!(r, Err("parse claims: not a capability claims object".to_string()));
    let bad_c = format!("{}.{}", h, "%%");
    let sig2 = key.sign(bad_c.as_bytes()).to_bytes();
    let token2 = format!("{}.{}", bad_c, URL_SAFE_NO_PAD.encode(sig2));
    assert!(verify_token(&public, &None, &token2, "exec-9", "ssme_read", 1_000).unwrap_err().starts_with("decode claims: "));
}

#[test]
fn revoked_grant_is_refused_only_by_revocation_aware_verifiers() {
    let mut registry = CapabilityRegistry::new_with_seed([29u8; 32]);
    let g = fixed_grant(&mut registry, true, 1_000);
    registry.revoke("exec-9-id-1").unwrap();
    registry.revoke("exec-9-id-1").unwrap();
    assert!(registry.is_revoked("exec-9-id-1"));
    assert!(!registry.is_revoked("exec-9-id-2"));
    assert_eq!(registry.grant_verifier().verify_grant_at(&g, 1_000), Err("capability grant revoked".to_string()));
    let blind = CapabilityVerifier::from_public_key_hex(&registry.public_key_hex()).unwrap();
    assert_eq!(blind.verify_grant_at(&g, 1_000), Ok(()));
    let aware = blind.with_revoked_set(vec!["exec-9-id-1".to_string()]);
    assert_eq!(aware.verify_grant_at(&g, 1_000), Err("capability grant revoked".to_string()));
}

#[test]
fn public_key_hex_round_trips() {
    let registry = CapabilityRegistry::new_with_seed([31u8; 32]);
    let hex = registry.public_key_hex();
    assert_eq!(hex.len(), 64);
    assert!(hex.chars().all(|c| c.is_ascii_hexdigit() && !c.is_ascii_uppercase()));
    let expected = hex::encode(ed25519_dalek::SigningKey::from_bytes(&[31u8; 32]).verifying_key().to_bytes());
    assert_eq!(hex, expected);
    assert!(CapabilityVerifier::from_public_key_hex(&format!("  {}\n", hex)).is_ok());
}

#[test]
fn public_key_hex_errors() {
    assert!(CapabilityVerifier::from_public_key_hex("zz").err().unwrap().starts_with("decode pubkey: "));
    assert_eq!(
        CapabilityVerifier::from_public_key_hex("abcd").err().unwrap(),
        "public key must be 32 bytes".to_string()
    );
    let mut found = false;
    for b in 0u8..=255 {
        let mut bytes = [0u8; 32];
        bytes[0] = b;
        bytes[31] = 0x7f;
        if let Err(e) = CapabilityVerifier::from_public_key_hex(&hex::encode(bytes)) {
            assert_eq!(e, "invalid Ed25519 public key");
            found = true;
        }
    }
    assert!(found);
}

#[test]
fn grants_for_task() {
    let mut registry = CapabilityRegistry::new_with_seed([37u8; 32]);
    let a = registry.grant_at("task-1", Capability::NetworkDns, GrantAuthority::System, None, 1_000, "a", "t".into());
    let b = registry.grant_at("task-1", Capability::ProcessSpawn, GrantAuthority::System, None, 1_000, "b", "t".into());
    let v = registry.grant_verifier();
    let ok = v.verify_grants_for_task_at("task-1", &[a.clone(), b.clone()], &[Capability::ProcessSpawn], 1_000).unwrap();
    assert_eq!(ok, vec![Capability::NetworkDns, Capability::ProcessSpawn]);
    assert_eq!(
        v.verify_grants_for_task_at("task-2", &[a.clone()], &[], 1_000),
        Err("capability grant execution ID mismatch".to_string())
    );
    assert_eq!(
        v.verify_grants_for_task_at("task-1", &[a.clone()], &[Capability::SsmeRead], 1_000),
        Err("missing capability grant for 'ssme_read'".to_string())
    );
    let mut not_granted = b.clone();
    not_granted.granted = false;
    assert_eq!(
        v.verify_grants_for_task_at("task-1", &[a.clone(), not_granted], &[], 1_000),
        Err("capability 'process_spawn' was denied".to_string())
    );
    assert_eq!(
        v.verify_grants_for_task_at("task-1", &[a], &[], 9_000),
        Err("capability grant expired".to_string())
    );
    assert!(v.verify_grants_for_task("task-1", &[], &[]).unwrap().is_empty());
}

#[test]
fn verifier_from_signing_key_matches_registry() {
    let mut registry = CapabilityRegistry::new_with_seed([41u8; 32]);
    let g = fixed_grant(&mut registry, true, now());
    let v = CapabilityVerifier::from_signing_key(&[41u8; 32]);
    assert!(v.verify_grant(&g).is_ok());
    let other = CapabilityVerifier::from_signing_key(&[42u8; 32]);
    assert!(other.verify_grant(&g).unwrap_err().starts_with("signature verification failed: "));
}

#[test]
fn csv_parsing() {
    assert!(parse_csv(None).is_empty());
    assert_eq!(parse_csv(Some(" a , ,b,")), vec!["a".to_string(), "b".to_string()]);
    assert!(parse_csv(Some("")).is_empty());
}

#[test]
fn parse_capability_forms() {
    let caps: Vec<String> = vec![
        " network_access : h1, h2 ".into(),
        "gpu_compute".into(),
        "inference_provider".into(),
        "ssme_write:ignored".into(),
        "cpu_cores".into(),
    ];
    let parsed = CapabilityRegistry::parse_capabilities(&caps);
    assert_eq!(
        parsed,
        vec![
            Capability::NetworkAccess { hosts: vec!["h1".into(), "h2".into()], ports: vec![] },
            Capability::GpuCompute { device: None },
            Capability::SsmeWrite,
        ]
    );
}

#[test]
fn test_capability_registry_grant_and_verify() {
    let mut registry = CapabilityRegistry::new_with_seed([1u8; 32]);
    let cap = Capability::FilesystemRead { paths: vec!["/workspace".into()] };
    registry.grant("exec-001", cap.clone(), GrantAuthority::Orchestrator, Some("test".into())).unwrap();
    assert!(registry.verify("exec-001", "filesystem_read"));
    assert!(!registry.verify("exec-001", "network_access"));
    assert!(!registry.verify("exec-002", "filesystem_read"));
}
