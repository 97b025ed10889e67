use servicing::config::{Orchestrators, UserProvidedConfig};
use servicing::dispatch::{probe_url, Dispatcher, PollStep, ProbeOutcome};
use servicing::ServicingError;

const MARKER: &str = "no ready replicas";

fn port_override(port: u16) -> UserProvidedConfig {
    UserProvidedConfig::new(
        Some(port),
        None,
        None,
        None,
        None,
        None,
        None,
        None,
        None,
        None,
        None,
        None,
    )
}

fn dispatcher_with(name: &str) -> Dispatcher {
    let mut d = Dispatcher::new();
    d.add_service(
        name.to_string(),
        Orchestrators::SkyPilot,
        Some(port_override(9000)),
        format!("/tmp/{name}_service.yaml"),
    );
    d
}

#[test]
fn up_scenario_reports_endpoint_before_readiness() {
    let name = "api".to_string();
    let mut d = dispatcher_with("api");

    let filepath = d.up_begin(&name).unwrap();
    assert_eq!(filepath, "/tmp/api_service.yaml");

    let status_output = "Services\nNAME  STATUS  ENDPOINT\napi   RUNNING 10.0.0.5:30000\n";
    let endpoint = d.up_finish(&name, status_output).unwrap();
    assert_eq!(endpoint, "10.0.0.5:30000");
    assert_eq!(d.get_url(&name).unwrap(), "10.0.0.5:30000");

    // Not up until the probe stops returning the not-ready marker.
    let snapshot = d.status_render(&name, false).unwrap();
    assert!(snapshot.contains("\"up\":false"));

    let step = d.poll_step(&name, "HTTP 503: no ready replicas yet", MARKER);
    assert_eq!(step, PollStep::NotReady);
    assert!(d.status_render(&name, false).unwrap().contains("\"up\":false"));

    let step = d.poll_step(&name, "{\"status\": \"ok\"}", MARKER);
    assert_eq!(step, PollStep::NowUp);
    assert!(d.status_render(&name, false).unwrap().contains("\"up\":true"));
}

#[test]
fn second_up_for_same_name_is_refused() {
    let name = "api".to_string();
    let mut d = dispatcher_with("api");
    d.up_begin(&name).unwrap();
    d.up_finish(&name, "endpoint 10.0.0.5:30000").unwrap();
    // The endpoint set by the first call is observed by the second.
    assert!(matches!(
        d.up_begin(&name),
        Err(ServicingError::AlreadyRunning)
    ));
}

#[test]
fn up_of_unknown_name_is_not_found() {
    let d = Dispatcher::new();
    let err = d.up_begin(&"ghost".to_string()).unwrap_err();
    assert!(matches!(err, ServicingError::NotFound(n) if n == "ghost"));
}

#[test]
fn up_without_endpoint_in_output_fails() {
    let name = "api".to_string();
    let mut d = dispatcher_with("api");
    d.up_begin(&name).unwrap();
    let err = d.up_finish(&name, "no endpoint here").unwrap_err();
    assert!(matches!(
        err,
        ServicingError::General(m) if m == "Cannot find service URL"
    ));
    // Nothing was stored.
    assert!(matches!(
        d.get_url(&name),
        Err(ServicingError::General(m)) if m == "Service is down"
    ));
}

#[test]
fn poller_marker_check_ignores_case() {
    let name = "api".to_string();
    let mut d = dispatcher_with("api");
    d.up_begin(&name).unwrap();
    d.up_finish(&name, "10.0.0.5:30000").unwrap();
    // The response is lowercased before the marker check.
    let step = d.poll_step(&name, "NO READY REPLICAS", MARKER);
    assert_eq!(step, PollStep::NotReady);
}

#[test]
fn poller_exits_when_record_vanished() {
    let mut d = Dispatcher::new();
    let step = d.poll_step(&"gone".to_string(), "all good", MARKER);
    assert_eq!(step, PollStep::Gone);
}

#[test]
fn poller_leaves_record_torn_down_meanwhile() {
    let name = "api".to_string();
    let mut d = dispatcher_with("api");
    d.up_begin(&name).unwrap();
    d.up_finish(&name, "10.0.0.5:30000").unwrap();
    d.down(&name, false).unwrap();
    // The endpoint is gone; a late poll answer must not mark the record up.
    let step = d.poll_step(&name, "all good", MARKER);
    assert_eq!(step, PollStep::Gone);
    assert!(d.status_render(&name, false).unwrap().contains("\"up\":false"));
}

#[test]
fn down_clears_endpoint_and_readiness() {
    let name = "api".to_string();
    let mut d = dispatcher_with("api");
    d.up_begin(&name).unwrap();
    d.up_finish(&name, "10.0.0.5:30000").unwrap();
    d.poll_step(&name, "ok", MARKER);
    assert_eq!(d.down(&name, false).unwrap(), true);
    assert!(matches!(
        d.get_url(&name),
        Err(ServicingError::General(m)) if m == "Service is down"
    ));
}

#[test]
fn down_on_never_started_requires_force() {
    let name = "api".to_string();
    let mut d = dispatcher_with("api");
    assert!(matches!(
        d.down(&name, false),
        Err(ServicingError::NotRunning)
    ));
    // With force, the decision is to still attempt the external subcommand.
    assert_eq!(d.down(&name, true).unwrap(), false);
}

#[test]
fn down_on_unknown_name_is_not_found() {
    let mut d = Dispatcher::new();
    let err = d.down(&"ghost".to_string(), true).unwrap_err();
    assert!(matches!(err, ServicingError::NotFound(n) if n == "ghost"));
}

#[test]
fn remove_refused_while_up_or_starting() {
    let name = "api".to_string();
    let mut d = dispatcher_with("api");
    d.up_begin(&name).unwrap();
    d.up_finish(&name, "10.0.0.5:30000").unwrap();
    // Endpoint set, not yet up: refused.
    let err = d.remove_begin(&name).unwrap_err();
    assert!(matches!(
        err,
        ServicingError::ProvisionFailed(m) if m == "Service api is starting"
    ));
    d.poll_step(&name, "ok", MARKER);
    // Up: refused, whatever order the calls came in.
    let err = d.remove_begin(&name).unwrap_err();
    assert!(matches!(
        err,
        ServicingError::ProvisionFailed(m) if m == "Service api is still up"
    ));
    let err = d.remove_finish(&name).unwrap_err();
    assert!(matches!(err, ServicingError::ProvisionFailed(_)));
    // Fully down: removal succeeds and destroys the record last.
    d.down(&name, false).unwrap();
    let filepath = d.remove_begin(&name).unwrap();
    assert_eq!(filepath.as_deref(), Some("/tmp/api_service.yaml"));
    d.remove_finish(&name).unwrap();
    assert!(matches!(
        d.status_begin(&name),
        Err(ServicingError::NotFound(_))
    ));
    assert!(d.list().is_empty());
}

#[test]
fn status_of_unregistered_name_is_not_found() {
    let d = Dispatcher::new();
    let err = d.status_begin(&"missing".to_string()).unwrap_err();
    assert!(matches!(err, ServicingError::NotFound(n) if n == "missing"));
    let err = d.status_render(&"missing".to_string(), false).unwrap_err();
    assert!(matches!(err, ServicingError::NotFound(n) if n == "missing"));
}

#[test]
fn status_probe_corrects_drift() {
    let name = "api".to_string();
    let mut d = dispatcher_with("api");
    d.up_begin(&name).unwrap();
    d.up_finish(&name, "10.0.0.5:30000").unwrap();
    d.poll_step(&name, "ok", MARKER);

    let probe = d.status_begin(&name).unwrap();
    assert_eq!(probe.filepath, "/tmp/api_service.yaml");
    assert_eq!(probe.probe_endpoint.as_deref(), Some("10.0.0.5:30000"));

    // A not-ready answer (case-insensitive) flips the record back to not-up.
    d.status_probe_result(
        &name,
        &ProbeOutcome::Responded("No Ready Replicas".to_string()),
        MARKER,
    );
    assert!(d.status_render(&name, false).unwrap().contains("\"up\":false"));

    // Once up again, a transport failure also flips it.
    d.poll_step(&name, "ok", MARKER);
    d.status_probe_result(&name, &ProbeOutcome::Failed, MARKER);
    assert!(d.status_render(&name, false).unwrap().contains("\"up\":false"));

    // A record that never claimed to be up is not probed and not changed.
    let probe = d.status_begin(&name).unwrap();
    assert!(probe.probe_endpoint.is_none());
    d.status_probe_result(&name, &ProbeOutcome::NotProbed, MARKER);
    assert!(d.status_render(&name, false).unwrap().contains("\"up\":false"));
}

#[test]
fn snapshot_exact_shape() {
    let name = "svc".to_string();
    let mut d = Dispatcher::new();
    d.add_service(
        name.clone(),
        Orchestrators::SkyPilot,
        None,
        "/tmp/svc_service.yaml".to_string(),
    );
    let plain = d.status_render(&name, false).unwrap();
    assert_eq!(
        plain,
        "{\"config\":null,\"orchestrator\":\"SkyPilot\",\"filepath\":\"/tmp/svc_service.yaml\",\"readiness_probe\":\"/\",\"url\":null,\"up\":false}"
    );
    let pretty = d.status_render(&name, true).unwrap();
    assert!(pretty.starts_with("{\n  \"config\": null,\n  \"orchestrator\": \"SkyPilot\""));
    assert!(pretty.ends_with("\"up\": false\n}"));
}

#[test]
fn list_and_get_url() {
    let mut d = Dispatcher::new();
    d.add_service(
        "one".to_string(),
        Orchestrators::SkyPilot,
        None,
        "/tmp/one_service.yaml".to_string(),
    );
    d.add_service(
        "two".to_string(),
        Orchestrators::SkyPilot,
        None,
        "/tmp/two_service.yaml".to_string(),
    );
    let names = d.list();
    assert_eq!(names, vec!["one".to_string(), "two".to_string()]);
    let err = d.get_url(&"three".to_string()).unwrap_err();
    assert!(matches!(err, ServicingError::NotFound(n) if n == "three"));
}

#[test]
fn probe_url_concatenates() {
    assert_eq!(
        probe_url("10.0.0.5:30000", "/health"),
        "http://10.0.0.5:30000/health"
    );
}

#[test]
fn error_messages_name_the_service() {
    let e = ServicingError::NotFound("api".to_string());
    assert_eq!(e.message(), "Service api not found");
    assert_eq!(
        ServicingError::NotRunning.message(),
        "Service is not running"
    );
    assert_eq!(
        ServicingError::ProvisionFailed("exit code 1".to_string()).message(),
        "Provisioning failed: exit code 1"
    );
    assert_eq!(
        ServicingError::BackendMissing.message(),
        "Orchestration backend is not installed"
    );
    assert_eq!(
        ServicingError::AlreadyRunning.message(),
        "Service is already running"
    );
    assert_eq!(ServicingError::IOFailure.message(), "File operation failed");
    assert_eq!(
        ServicingError::SerializationFailure.message(),
        "Serialization failed"
    );
    assert_eq!(
        ServicingError::LockFailure.message(),
        "Cache lock was poisoned"
    );
    assert_eq!(
        ServicingError::General("anything else".to_string()).message(),
        "anything else"
    );
}
