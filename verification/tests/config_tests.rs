use servicing::config::{test_config, Configuration, Orchestrators, Sky, UserProvidedConfig};

fn override_with_port(port: Option<u16>) -> UserProvidedConfig {
    UserProvidedConfig::new(
        port, None, None, None, None, None, None, None, None, None, None, None,
    )
}

#[test]
fn default_document_values() {
    let c = Configuration::default();
    assert_eq!(c.service.readiness_probe, "/health");
    assert_eq!(c.service.replicas, 2);
    assert_eq!(c.resources.ports, 8080);
    assert_eq!(c.resources.cloud, "aws");
    assert_eq!(c.resources.cpus, "4+");
    assert_eq!(c.resources.memory, "10+");
    assert_eq!(c.resources.disk_size, 100);
    assert!(c.resources.accelerators.is_none());
    assert_eq!(c.workdir, ".");
    assert_eq!(
        c.setup,
        "conda install cudatoolkit -y\npip install poetry\npoetry install\n"
    );
    assert_eq!(c.run, "poetry run python service.py\n");
}

#[test]
fn test_config_values() {
    let c = test_config();
    assert_eq!(c.service.readiness_probe, "/");
    assert_eq!(c.service.replicas, 1);
    assert_eq!(c.resources.disk_size, 50);
    assert_eq!(c.setup, "");
    assert_eq!(c.run, "python -m http.server 8080\n");
    let via_method = Configuration::test_config();
    assert_eq!(via_method.resources.disk_size, 50);
}

#[test]
fn merge_changes_exactly_present_fields() {
    let mut c = Configuration::default();
    let o = UserProvidedConfig::new(
        Some(9000),
        None,
        None,
        None,
        Some("azure".to_string()),
        None,
        None,
        None,
        None,
        Some("A100".to_string()),
        None,
        None,
    );
    c.update(&o);
    // Present fields take the override's value.
    assert_eq!(c.resources.ports, 9000);
    assert_eq!(c.resources.cloud, "azure");
    assert_eq!(c.resources.accelerators.as_deref(), Some("A100"));
    // Absent fields keep the default.
    assert_eq!(c.service.replicas, 2);
    assert_eq!(c.service.readiness_probe, "/health");
    assert_eq!(c.resources.cpus, "4+");
    assert_eq!(c.resources.memory, "10+");
    assert_eq!(c.resources.disk_size, 100);
    assert_eq!(c.workdir, ".");
    assert_eq!(c.run, "poetry run python service.py\n");
}

#[test]
fn merge_is_idempotent() {
    let o = UserProvidedConfig::new(
        Some(9000),
        Some(3),
        None,
        None,
        None,
        Some("/srv".to_string()),
        Some(200),
        Some("8+".to_string()),
        None,
        None,
        Some("make install\n".to_string()),
        Some("make run\n".to_string()),
    );
    let mut once = Configuration::default();
    once.update(&o);
    let mut twice = Configuration::default();
    twice.update(&o);
    twice.update(&o);
    assert_eq!(once.service.replicas, twice.service.replicas);
    assert_eq!(once.service.readiness_probe, twice.service.readiness_probe);
    assert_eq!(once.resources.ports, twice.resources.ports);
    assert_eq!(once.resources.cloud, twice.resources.cloud);
    assert_eq!(once.resources.cpus, twice.resources.cpus);
    assert_eq!(once.resources.memory, twice.resources.memory);
    assert_eq!(once.resources.disk_size, twice.resources.disk_size);
    assert_eq!(once.resources.accelerators, twice.resources.accelerators);
    assert_eq!(once.workdir, twice.workdir);
    assert_eq!(once.setup, twice.setup);
    assert_eq!(once.run, twice.run);
}

#[test]
fn sky_new_merges_override() {
    let sky = Sky::new(Some(override_with_port(Some(9000))));
    assert_eq!(sky.template.resources.ports, 9000);
    assert_eq!(sky.template.service.replicas, 2);
    assert!(sky.data.is_some());
    let bare = Sky::new(None);
    assert_eq!(bare.template.resources.ports, 8080);
    assert!(bare.data.is_none());
}

#[test]
fn sky_constants() {
    let sky = Sky::new(None);
    assert_eq!(sky.replica_check_string(), "no ready replicas");
    assert_eq!(sky.config_file_name("api"), "api_service.yaml");
}

#[test]
fn orchestrator_factory() {
    assert!(Orchestrators::SkyPilot.get_orchestrator().is_ok());
    let err = Orchestrators::Local.get_orchestrator().unwrap_err();
    assert!(matches!(
        err,
        servicing::ServicingError::General(m) if m == "Local orchestrator not implemented"
    ));
}
