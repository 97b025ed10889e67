use servicing::config::{Orchestrators, UserProvidedConfig};
use servicing::dispatch::Dispatcher;
use servicing::ServicingError;

const MARKER: &str = "no ready replicas";

fn two_service_cache() -> Dispatcher {
    let mut d = Dispatcher::new();
    let config = UserProvidedConfig::new(
        Some(9000),
        Some(3),
        None,
        None,
        Some("gcp".to_string()),
        None,
        Some(200),
        None,
        None,
        Some("V100".to_string()),
        Some("pip install -r requirements.txt\n".to_string()),
        None,
    );
    d.add_service(
        "api".to_string(),
        Orchestrators::SkyPilot,
        Some(config),
        "/tmp/api_service.yaml".to_string(),
    );
    d.add_service(
        "worker".to_string(),
        Orchestrators::SkyPilot,
        None,
        "/tmp/worker_service.yaml".to_string(),
    );
    let name = "api".to_string();
    d.up_begin(&name).unwrap();
    d.up_finish(&name, "endpoint: 10.0.0.5:30000").unwrap();
    d.poll_step(&name, "ok", MARKER);
    d
}

#[test]
fn save_load_round_trip_reproduces_every_field() {
    let d = two_service_cache();
    let bytes = d.save_bytes();

    let mut fresh = Dispatcher::new();
    fresh.load_bytes(&bytes).unwrap();

    assert_eq!(fresh.list(), d.list());
    for name in ["api", "worker"] {
        let name = name.to_string();
        let before = d.status_render(&name, false).unwrap();
        let after = fresh.status_render(&name, false).unwrap();
        assert_eq!(before, after);
    }
    assert_eq!(fresh.get_url(&"api".to_string()).unwrap(), "10.0.0.5:30000");
}

#[test]
fn save_bytes_of_empty_registry_is_zero_count() {
    let d = Dispatcher::new();
    assert_eq!(d.save_bytes(), vec![0u8; 8]);
}

#[test]
fn load_merges_and_overwrites_same_names() {
    let d = two_service_cache();
    let bytes = d.save_bytes();

    let mut other = Dispatcher::new();
    other.add_service(
        "api".to_string(),
        Orchestrators::SkyPilot,
        None,
        "/tmp/stale_service.yaml".to_string(),
    );
    other.add_service(
        "extra".to_string(),
        Orchestrators::SkyPilot,
        None,
        "/tmp/extra_service.yaml".to_string(),
    );
    other.load_bytes(&bytes).unwrap();

    // Loaded entries overwrite records of the same name, others stay.
    assert_eq!(other.get_url(&"api".to_string()).unwrap(), "10.0.0.5:30000");
    let names = other.list();
    assert!(names.contains(&"api".to_string()));
    assert!(names.contains(&"worker".to_string()));
    assert!(names.contains(&"extra".to_string()));
    assert_eq!(names.len(), 3);
}

#[test]
fn load_rejects_malformed_payload() {
    let mut d = Dispatcher::new();
    let err = d.load_bytes(&[1, 2, 3]).unwrap_err();
    assert!(matches!(err, ServicingError::SerializationFailure));
    // Trailing garbage after a whole registry is rejected too.
    let good = two_service_cache().save_bytes();
    let mut trailing = good.clone();
    trailing.push(0);
    assert!(matches!(
        d.load_bytes(&trailing),
        Err(ServicingError::SerializationFailure)
    ));
    assert!(d.list().is_empty());
}

#[test]
fn base64_round_trip_reproduces_two_service_cache() {
    let d = two_service_cache();
    let payload = d.save_as_b64();

    let mut fresh = Dispatcher::new();
    fresh.load_from_b64(&payload).unwrap();

    let names = fresh.list();
    assert_eq!(names, vec!["api".to_string(), "worker".to_string()]);
    for name in ["api", "worker"] {
        let name = name.to_string();
        assert_eq!(
            fresh.status_render(&name, false).unwrap(),
            d.status_render(&name, false).unwrap()
        );
    }
}

#[test]
fn save_as_b64_is_base64_of_save_bytes() {
    let d = two_service_cache();
    let payload = d.save_as_b64();
    // The transport form decodes, through an independent path, to exactly
    // the persisted bytes.
    let decoded = base64::Engine::decode(&base64::prelude::BASE64_STANDARD, &payload).unwrap();
    assert_eq!(decoded, d.save_bytes());
}

#[test]
fn load_from_b64_rejects_bad_payloads() {
    let mut d = Dispatcher::new();
    assert!(matches!(
        d.load_from_b64("not base64!!"),
        Err(ServicingError::SerializationFailure)
    ));
    // Valid base64, but not a persisted registry.
    let junk = base64::Engine::encode(&base64::prelude::BASE64_STANDARD, [9u8, 9, 9]);
    assert!(matches!(
        d.load_from_b64(&junk),
        Err(ServicingError::SerializationFailure)
    ));
}

#[test]
fn services_to_check_selects_started_but_not_up() {
    let mut d = two_service_cache();
    // "api" is up, "worker" has no endpoint: neither qualifies.
    assert!(d.services_to_check().is_empty());
    // After a drift correction, "api" is down again but keeps its endpoint.
    d.status_probe_result(
        &"api".to_string(),
        &servicing::dispatch::ProbeOutcome::Failed,
        MARKER,
    );
    let to_check = d.services_to_check();
    assert_eq!(to_check.len(), 1);
    assert_eq!(to_check[0].0, "api");
    assert_eq!(to_check[0].1, "10.0.0.5:30000/");
}
