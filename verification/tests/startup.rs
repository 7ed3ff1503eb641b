use yu_hailo_infer::startup::{finish_startup_contract, RawStartupContract, StartupError};

fn raw(token: &str, group: Option<&str>) -> RawStartupContract {
    RawStartupContract {
        instance_id: "inst-1".to_string(),
        scan_roots: vec!["/data/images".to_string(), "/data/more".to_string()],
        auth_token: token.to_string(),
        vdevice_group_id: group.map(str::to_string),
    }
}

#[test]
fn parses_valid_contract() {
    let contract = finish_startup_contract(raw("abc123", Some("contract-group")), Some("env".to_string())).unwrap();
    assert_eq!(contract.instance_id, "inst-1");
    assert_eq!(contract.scan_roots, vec!["/data/images".to_string(), "/data/more".to_string()]);
    assert_eq!(contract.auth_token, "abc123");
    assert_eq!(contract.vdevice_group_id, "contract-group");
}

#[test]
fn uses_env_group_id_when_contract_field_is_absent() {
    let contract = finish_startup_contract(raw("abc123", None), Some("env-group".to_string())).unwrap();
    assert_eq!(contract.vdevice_group_id, "env-group");
}

#[test]
fn uses_shared_default_when_group_id_sources_are_absent() {
    let contract = finish_startup_contract(raw("abc123", None), None).unwrap();
    assert_eq!(contract.vdevice_group_id, "YU_SHARED");
}

#[test]
fn rejects_empty_auth_token() {
    let err = finish_startup_contract(raw("", None), None).unwrap_err();
    assert!(matches!(err, StartupError::EmptyToken));
    assert_eq!(err.message(), "auth_token must not be empty");
}
