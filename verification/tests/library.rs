use aes_gcm::aead::Aead;
use aes_gcm::KeyInit;
use sha2::Digest;

use validator_updater::configcmd::{apply_config_command, ConfigCmdError, ConfigCommands};
use validator_updater::envelope::{encrypt_env, CryptoError};
use validator_updater::hashing::{canonicalize_json, compute_app_id, compute_compose_hash};
use validator_updater::json::{sort_json, write_json, JsonField, JsonValue};
use validator_updater::manifest::{
    build_allowed_envs, build_app_manifest, resolve_vm_name, validate_vm_parameters,
    ManifestDefaults, ValidationError, VmParameters,
};
use validator_updater::platform::{build_env_vars, check_required_env, ensure_required_env, EnvVar, PlatformConfig};
use validator_updater::reconcile::{
    decide, decision_calls, find_managed_vm, teardown_after_remove, teardown_after_stop, Decision,
    ReconcilerState, RpcOutcome, StopOutcome, TeardownStep, VmCall, VmObservation, VmRecord,
};

fn env(key: &str, value: &str) -> EnvVar {
    EnvVar {
        key: key.to_string(),
        value: value.to_string(),
    }
}

fn config_with(url: Option<&str>, entries: Option<Vec<EnvVar>>) -> PlatformConfig {
    PlatformConfig {
        dstack_vmm_url: url.map(|u| u.to_string()),
        env: entries,
    }
}

fn observation(status: &str, app_id: Option<&str>) -> Option<VmObservation> {
    Some(VmObservation {
        vm_id: "vm-1".to_string(),
        status: status.to_string(),
        app_id: app_id.map(|a| a.to_string()),
    })
}

// Canonicalization is key-order-independent: a key-permuted copy hashes the
// same, including nested objects.
#[test]
fn hash_ignores_key_order() {
    let a = r#"{"b":2,"a":1,"c":{"y":true,"x":null}}"#;
    let b = r#"{"a":1,"c":{"x":null,"y":true},"b":2}"#;
    assert_eq!(
        compute_compose_hash(a, "img-1"),
        compute_compose_hash(b, "img-1")
    );
    assert_eq!(canonicalize_json(a.as_bytes()), canonicalize_json(b.as_bytes()));
}

#[test]
fn canonical_form_sorts_keys() {
    let text = r#"{"b":2,"a":1}"#;
    assert_eq!(canonicalize_json(text.as_bytes()), br#"{"a":1,"b":2}"#.to_vec());
}

#[test]
fn canonical_form_keeps_array_order() {
    let text = r#"{"a":[3,1,2]}"#;
    assert_eq!(canonicalize_json(text.as_bytes()), br#"{"a":[3,1,2]}"#.to_vec());
}

#[test]
fn unparseable_text_is_hashed_raw() {
    let text = "not json";
    assert_eq!(canonicalize_json(text.as_bytes()), text.as_bytes().to_vec());
    // The raw fallback still binds the image into the digest.
    let mut hasher = sha2::Sha256::new();
    hasher.update(b"not json");
    hasher.update(b"\0");
    hasher.update(b"img");
    let expected = hex::encode(hasher.finalize());
    assert_eq!(compute_compose_hash(text, "img"), expected);
}

// Hash sensitivity: a changed field or a changed image changes the hash.
#[test]
fn hash_differs_on_content_or_image() {
    let a = r#"{"a":1}"#;
    let b = r#"{"a":2}"#;
    assert_ne!(compute_compose_hash(a, "img"), compute_compose_hash(b, "img"));
    assert_ne!(compute_compose_hash(a, "img-1"), compute_compose_hash(a, "img-2"));
}

#[test]
fn app_id_is_hash_prefix() {
    let hash = compute_compose_hash(r#"{"a":1}"#, "img");
    let app_id = compute_app_id(r#"{"a":1}"#, "img");
    assert_eq!(app_id.len(), 40);
    assert_eq!(&hash[..40], app_id.as_str());
}

#[test]
fn string_escapes_follow_compact_json() {
    let v = JsonValue::Str(b"a\"b\\c\nd\x01".to_vec());
    let mut out = Vec::new();
    write_json(&v, &mut out);
    assert_eq!(out, br#""a\"b\\c\nd\u0001""#.to_vec());
}

#[test]
fn sort_json_orders_members_recursively() {
    let inner = JsonValue::Obj(vec![
        JsonField { key: b"z".to_vec(), value: JsonValue::Bool(true) },
        JsonField { key: b"y".to_vec(), value: JsonValue::Null },
    ]);
    let v = JsonValue::Obj(vec![
        JsonField { key: b"b".to_vec(), value: inner },
        JsonField { key: b"a".to_vec(), value: JsonValue::Num(b"1".to_vec()) },
    ]);
    let sorted = sort_json(v);
    let mut out = Vec::new();
    write_json(&sorted, &mut out);
    assert_eq!(out, br#"{"a":1,"b":{"y":null,"z":true}}"#.to_vec());
}

// The whitelist is sorted, deduplicated, and a superset of all three
// sources.
#[test]
fn allowed_envs_sorted_unique_superset() {
    let keys = vec!["ZETA".to_string(), "ALPHA".to_string(), "ZETA".to_string()];
    let required = vec!["MIDDLE".to_string(), "ALPHA".to_string()];
    let got = build_allowed_envs(&keys, &required);
    assert_eq!(
        got,
        vec![
            "ALPHA".to_string(),
            "DSTACK_VMM_URL".to_string(),
            "HOTKEY_PASSPHRASE".to_string(),
            "MIDDLE".to_string(),
            "VALIDATOR_BASE_URL".to_string(),
            "ZETA".to_string(),
        ]
    );
}

#[test]
fn allowed_envs_fixed_keys_always_present() {
    let got = build_allowed_envs(&vec![], &vec![]);
    assert_eq!(
        got,
        vec![
            "DSTACK_VMM_URL".to_string(),
            "HOTKEY_PASSPHRASE".to_string(),
            "VALIDATOR_BASE_URL".to_string(),
        ]
    );
}

#[test]
fn manifest_serializes_expected_fields() {
    let defaults = ManifestDefaults::default();
    let envs = vec!["A".to_string()];
    let manifest = build_app_manifest("content", &defaults, "fallback", &envs);
    let mut out = Vec::new();
    write_json(&manifest, &mut out);
    let text = String::from_utf8(out).unwrap();
    let expected = format!(
        "{}{}{}{}{}",
        r#"{"manifest_version":2,"name":"validator_vm","runner":"docker-compose","#,
        r#""docker_compose_file":"content","kms_enabled":true,"gateway_enabled":true,"#,
        r#""local_key_provider_enabled":false,"key_provider_id":"","public_logs":true,"#,
        r#""public_sysinfo":true,"public_tcbinfo":true,"allowed_envs":["A"],"#,
        r#""no_instance_id":false,"secure_time":false}"#
    );
    assert_eq!(text, expected);
}

#[test]
fn vm_name_resolution() {
    assert_eq!(resolve_vm_name(&Some("n".to_string()), "t"), "n");
    assert_eq!(resolve_vm_name(&Some(String::new()), "t"), "t");
    assert_eq!(resolve_vm_name(&None, "t"), "t");
}

#[test]
fn vm_parameter_validation_names_first_failure() {
    let mut p = VmParameters::default();
    assert!(validate_vm_parameters(&p).is_ok());
    p.vcpu = 0;
    assert!(matches!(validate_vm_parameters(&p), Err(ValidationError::NoVcpu)));
    p.vcpu = 1;
    p.memory = 0;
    assert!(matches!(validate_vm_parameters(&p), Err(ValidationError::NoMemory)));
    p.memory = 1;
    p.disk_size = 0;
    assert!(matches!(validate_vm_parameters(&p), Err(ValidationError::NoDiskSize)));
}

// Decision table conformance over (VM present?, status, app id?, match?).
#[test]
fn decision_table() {
    let hash = "ab".repeat(32);
    let matching = hash.clone();
    let other = "cd".repeat(32);
    assert_eq!(decide(&None, &hash), Decision::Create);
    for status in ["stopped", "exited", "killed", "error"] {
        assert_eq!(decide(&observation(status, Some(&matching)), &hash), Decision::Recreate);
        assert_eq!(decide(&observation(status, None), &hash), Decision::Recreate);
    }
    assert_eq!(decide(&observation("running", Some(&matching)), &hash), Decision::Keep);
    assert_eq!(decide(&observation("running", Some(&other)), &hash), Decision::Recreate);
    assert_eq!(decide(&observation("running", None), &hash), Decision::Recreate);
    // The comparison truncates both sides to forty characters.
    let long = format!("{}{}", &matching[..40], "ffffffffffffffffffffffff");
    assert_eq!(decide(&observation("running", Some(&long)), &hash), Decision::Keep);
}

// Scenario A: a required key without a local value fails validation and no
// mutating call is planned.
#[test]
fn missing_secret_fails_validation() {
    let config = config_with(None, None);
    let required = vec!["FOO".to_string()];
    match ensure_required_env(&required, &config) {
        Err(ValidationError::MissingEnvValues { keys }) => {
            assert_eq!(keys, vec!["FOO".to_string()]);
        }
        other => panic!("expected missing FOO, got {:?}", other.is_ok()),
    }
}

#[test]
fn endpoint_key_is_always_resolvable() {
    let config = config_with(None, None);
    let required = vec!["DSTACK_VMM_URL".to_string()];
    assert!(ensure_required_env(&required, &config).is_ok());
    let config = config_with(None, Some(vec![env("FOO", "1")]));
    let required = vec!["FOO".to_string(), "DSTACK_VMM_URL".to_string()];
    assert!(ensure_required_env(&required, &config).is_ok());
}

// Scenario B: running VM with matching truncated hash is kept; no mutating
// calls; the state adopts the id and hash.
#[test]
fn stable_state_keeps_vm() {
    let hash = "ab".repeat(32);
    let obs = observation("running", Some(&hash[..40].to_string()));
    let decision = decide(&obs, &hash);
    assert_eq!(decision, Decision::Keep);
    assert!(decision_calls(&decision).is_empty());
    let mut state = ReconcilerState::new();
    assert!(state.is_first_run());
    let o = obs.unwrap();
    state.commit(o.vm_id.clone(), hash.clone());
    assert_eq!(state.vm_id.as_deref(), Some("vm-1"));
    assert_eq!(state.current_hash.as_deref(), Some(hash.as_str()));
    assert!(!state.is_first_run());
}

// Scenario C: drift means stop, then removal with up to three attempts,
// then create, in that order.
#[test]
fn drift_recreates_in_order() {
    let hash = "ab".repeat(32);
    let other = "cd".repeat(32);
    let decision = decide(&observation("running", Some(&other)), &hash);
    assert_eq!(decision, Decision::Recreate);
    let calls = decision_calls(&decision);
    assert!(matches!(calls[0], VmCall::StopCall));
    assert!(matches!(calls[1], VmCall::RemoveCall));
    assert!(matches!(calls[2], VmCall::CreateCall));
    assert_eq!(calls.len(), 3);
    // Teardown: a failed stop still proceeds to removal.
    assert_eq!(teardown_after_stop(StopOutcome::StopFailed), TeardownStep::Removing { attempt: 1 });
    assert_eq!(
        teardown_after_stop(StopOutcome::StopTimedOut),
        TeardownStep::Removing { attempt: 1 }
    );
    // Removal retries exactly twice more, then the cycle is abandoned.
    assert_eq!(
        teardown_after_remove(1, RpcOutcome::Failure),
        TeardownStep::Removing { attempt: 2 }
    );
    assert_eq!(
        teardown_after_remove(2, RpcOutcome::Failure),
        TeardownStep::Removing { attempt: 3 }
    );
    assert_eq!(teardown_after_remove(3, RpcOutcome::Failure), TeardownStep::Failed);
    assert_eq!(teardown_after_remove(2, RpcOutcome::Success), TeardownStep::Done);
}

// Scenario D: a stopped VM is recreated whatever the hash says.
#[test]
fn stopped_vm_recreated_regardless_of_hash() {
    let hash = "ab".repeat(32);
    assert_eq!(
        decide(&observation("stopped", Some(&hash[..40].to_string())), &hash),
        Decision::Recreate
    );
    assert_eq!(decide(&observation("stopped", Some("0000")), &hash), Decision::Recreate);
}

#[test]
fn find_managed_vm_matches_name_or_app_id() {
    let vms = vec![
        VmRecord {
            id: Some("other".to_string()),
            name: Some("unrelated".to_string()),
            app_id: None,
            status: Some("running".to_string()),
        },
        VmRecord {
            id: Some("vm-7".to_string()),
            name: Some("validator_vm".to_string()),
            app_id: Some("abc".to_string()),
            status: None,
        },
    ];
    let found = find_managed_vm(&vms).unwrap();
    assert_eq!(found.vm_id, "vm-7");
    assert_eq!(found.status, "unknown");
    assert_eq!(found.app_id.as_deref(), Some("abc"));
    assert!(find_managed_vm(&vec![]).is_none());
    let no_id = vec![VmRecord {
        id: None,
        name: Some("validator_vm".to_string()),
        app_id: None,
        status: Some("running".to_string()),
    }];
    assert!(find_managed_vm(&no_id).is_none());
}

#[test]
fn env_vars_append_endpoint_unless_present() {
    let config = config_with(Some("http://vmm:1/"), Some(vec![env("FOO", "1")]));
    let vars = build_env_vars(&config);
    assert_eq!(vars.len(), 2);
    assert_eq!(vars[0].key, "FOO");
    assert_eq!(vars[1].key, "DSTACK_VMM_URL");
    assert_eq!(vars[1].value, "http://vmm:1/");
    let config = config_with(None, Some(vec![env("DSTACK_VMM_URL", "http://set:2/")]));
    let vars = build_env_vars(&config);
    assert_eq!(vars.len(), 1);
    assert_eq!(vars[0].value, "http://set:2/");
    let config = config_with(None, None);
    let vars = build_env_vars(&config);
    assert_eq!(vars.len(), 1);
    assert_eq!(vars[0].value, "http://10.0.2.2:10300/");
}

// Envelope round trip: the holder of the matching private key recovers the
// exact `{"env": ...}` payload.
#[test]
fn envelope_round_trip() {
    let recipient = x25519_dalek::StaticSecret::random_from_rng(rand::thread_rng());
    let recipient_public = x25519_dalek::PublicKey::from(&recipient);
    let pubkey_hex = hex::encode(recipient_public.as_bytes());
    let env_json = r#"[{"key":"FOO","value":"1"}]"#;
    let envelope_hex = encrypt_env(env_json, &pubkey_hex).unwrap();
    let envelope = hex::decode(envelope_hex).unwrap();
    let (eph_pub, rest) = envelope.split_at(32);
    let (nonce, ciphertext) = rest.split_at(12);
    let mut eph = [0u8; 32];
    eph.copy_from_slice(eph_pub);
    let shared = recipient.diffie_hellman(&x25519_dalek::PublicKey::from(eph));
    let cipher = aes_gcm::Aes256Gcm::new(shared.as_bytes().into());
    let plain = cipher.decrypt(nonce.into(), ciphertext).unwrap();
    assert_eq!(plain, format!(r#"{{"env":{}}}"#, env_json).into_bytes());
}

#[test]
fn envelope_accepts_prefixed_key() {
    let recipient = x25519_dalek::StaticSecret::random_from_rng(rand::thread_rng());
    let pubkey_hex = format!("0x{}", hex::encode(x25519_dalek::PublicKey::from(&recipient).as_bytes()));
    assert!(encrypt_env("[]", &pubkey_hex).is_ok());
}

// Invalid keys are rejected before any randomness is drawn.
#[test]
fn envelope_rejects_bad_keys() {
    assert!(matches!(encrypt_env("[]", "zz"), Err(CryptoError::InvalidHexKey)));
    assert!(matches!(encrypt_env("[]", "abc"), Err(CryptoError::InvalidHexKey)));
    match encrypt_env("[]", "abcd") {
        Err(CryptoError::WrongKeyLength { len }) => assert_eq!(len, 2),
        _ => panic!("expected wrong length"),
    }
    let long = "ab".repeat(33);
    match encrypt_env("[]", &long) {
        Err(CryptoError::WrongKeyLength { len }) => assert_eq!(len, 33),
        _ => panic!("expected wrong length"),
    }
}

#[test]
fn config_commands_edit_the_store() {
    let mut config = PlatformConfig::new();
    let set = ConfigCommands::SetEnv {
        key: "FOO".to_string(),
        value: "1".to_string(),
    };
    let outcome = apply_config_command(&mut config, &set).unwrap();
    assert!(outcome.save_needed);
    let get = ConfigCommands::GetEnv { key: "FOO".to_string() };
    let outcome = apply_config_command(&mut config, &get).unwrap();
    assert_eq!(outcome.value.as_deref(), Some("1"));
    assert!(!outcome.save_needed);
    // Setting again replaces the value instead of duplicating the key.
    let set2 = ConfigCommands::SetEnv {
        key: "FOO".to_string(),
        value: "2".to_string(),
    };
    apply_config_command(&mut config, &set2).unwrap();
    assert_eq!(config.env.as_ref().unwrap().len(), 1);
    let rm = ConfigCommands::RemoveEnv { key: "FOO".to_string() };
    assert!(apply_config_command(&mut config, &rm).is_ok());
    assert!(matches!(
        apply_config_command(&mut config, &rm),
        Err(ConfigCmdError::KeyNotFound { .. })
    ));
    let get_missing = ConfigCommands::GetEnv { key: "BAR".to_string() };
    assert!(matches!(
        apply_config_command(&mut config, &get_missing),
        Err(ConfigCmdError::KeyNotFound { .. })
    ));
    let url = ConfigCommands::SetVmmUrl { url: "http://x:1/".to_string() };
    apply_config_command(&mut config, &url).unwrap();
    assert_eq!(config.dstack_vmm_url.as_deref(), Some("http://x:1/"));
}

#[test]
fn find_managed_vm_returns_first_match() {
    let vms = vec![
        VmRecord {
            id: Some("vm-1".to_string()),
            name: Some("validator_vm".to_string()),
            app_id: Some("first".to_string()),
            status: Some("running".to_string()),
        },
        VmRecord {
            id: Some("vm-2".to_string()),
            name: Some("validator_vm".to_string()),
            app_id: Some("second".to_string()),
            status: Some("stopped".to_string()),
        },
    ];
    let found = find_managed_vm(&vms).unwrap();
    assert_eq!(found.vm_id, "vm-1");
    assert_eq!(found.app_id.as_deref(), Some("first"));
}

#[test]
fn missing_keys_keep_required_order_and_multiplicity() {
    let required = vec!["B".to_string(), "A".to_string(), "B".to_string()];
    let vars = vec![env("A", "1")];
    let missing = check_required_env(&required, &vars);
    assert_eq!(missing, vec!["B".to_string(), "B".to_string()]);
    assert_eq!(check_required_env(&vec![], &vars), Vec::<String>::new());
}

#[test]
fn set_env_keeps_other_entries_intact() {
    let mut config = PlatformConfig {
        dstack_vmm_url: None,
        env: Some(vec![env("FOO", "1"), env("BAR", "2")]),
    };
    let set = ConfigCommands::SetEnv {
        key: "FOO".to_string(),
        value: "9".to_string(),
    };
    apply_config_command(&mut config, &set).unwrap();
    let entries = config.env.as_ref().unwrap();
    assert_eq!(entries.len(), 2);
    assert_eq!(entries[0].key, "BAR");
    assert_eq!(entries[0].value, "2");
    assert_eq!(entries[1].key, "FOO");
    assert_eq!(entries[1].value, "9");
}

#[test]
fn remove_env_without_store_reports_it() {
    let mut config = PlatformConfig::new();
    let rm = ConfigCommands::RemoveEnv { key: "FOO".to_string() };
    assert!(matches!(
        apply_config_command(&mut config, &rm),
        Err(ConfigCmdError::NoEnvConfigured)
    ));
}

#[test]
fn ensure_env_map_creates_empty_list() {
    let mut config = PlatformConfig::new();
    config.ensure_env_map();
    assert_eq!(config.env.as_ref().unwrap().len(), 0);
    config.env.as_mut().unwrap().push(env("A", "1"));
    config.ensure_env_map();
    assert_eq!(config.env.as_ref().unwrap().len(), 1);
}
