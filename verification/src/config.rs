//! The mergeable configuration document sent to the external orchestrator,
//! and the sparse user-supplied override that is merged onto a fixed default.

use vstd::prelude::*;

use crate::errors::ServicingError;
use vstd::string::StringExecFns;

verus! {

/// A sparse override supplied by the caller. Every field is optional; a
/// missing field leaves the corresponding default untouched by the merge.
#[derive(Debug, Clone)]
pub struct UserProvidedConfig {
    pub port: Option<u16>,
    pub replicas: Option<u16>,
    pub readiness_probe: Option<String>,
    pub replica_up_check: Option<String>,
    pub cloud: Option<String>,
    pub workdir: Option<String>,
    pub disk_size: Option<u16>,
    pub cpu: Option<String>,
    pub memory: Option<String>,
    pub accelerators: Option<String>,
    pub setup: Option<String>,
    pub run: Option<String>,
}

/// The mathematical value of a `UserProvidedConfig`.
pub struct UserProvidedConfigView {
    pub port: Option<u16>,
    pub replicas: Option<u16>,
    pub readiness_probe: Option<Seq<char>>,
    pub replica_up_check: Option<Seq<char>>,
    pub cloud: Option<Seq<char>>,
    pub workdir: Option<Seq<char>>,
    pub disk_size: Option<u16>,
    pub cpu: Option<Seq<char>>,
    pub memory: Option<Seq<char>>,
    pub accelerators: Option<Seq<char>>,
    pub setup: Option<Seq<char>>,
    pub run: Option<Seq<char>>,
}

impl View for UserProvidedConfig {
    type V = UserProvidedConfigView;

    open spec fn view(&self) -> UserProvidedConfigView {
        UserProvidedConfigView {
            port: self.port,
            replicas: self.replicas,
            readiness_probe: self.readiness_probe.deep_view(),
            replica_up_check: self.replica_up_check.deep_view(),
            cloud: self.cloud.deep_view(),
            workdir: self.workdir.deep_view(),
            disk_size: self.disk_size,
            cpu: self.cpu.deep_view(),
            memory: self.memory.deep_view(),
            accelerators: self.accelerators.deep_view(),
            setup: self.setup.deep_view(),
            run: self.run.deep_view(),
        }
    }
}

impl UserProvidedConfig {
    /// Builds an override from its twelve optional fields.
    #[allow(clippy::too_many_arguments)]
    pub fn new(
        port: Option<u16>,
        replicas: Option<u16>,
        readiness_probe: Option<String>,
        replica_up_check: Option<String>,
        cloud: Option<String>,
        workdir: Option<String>,
        disk_size: Option<u16>,
        cpu: Option<String>,
        memory: Option<String>,
        accelerators: Option<String>,
        setup: Option<String>,
        run: Option<String>,
    ) -> (r: Self)
        ensures
            r@ == (UserProvidedConfigView {
                port,
                replicas,
                readiness_probe: readiness_probe.deep_view(),
                replica_up_check: replica_up_check.deep_view(),
                cloud: cloud.deep_view(),
                workdir: workdir.deep_view(),
                disk_size,
                cpu: cpu.deep_view(),
                memory: memory.deep_view(),
                accelerators: accelerators.deep_view(),
                setup: setup.deep_view(),
                run: run.deep_view(),
            }),
    {
        UserProvidedConfig {
            port,
            replicas,
            readiness_probe,
            replica_up_check,
            cloud,
            workdir,
            disk_size,
            cpu,
            memory,
            accelerators,
            setup,
            run,
        }
    }
}

/// The `service` section of the configuration document.
#[derive(Debug, Clone)]
pub struct Service {
    pub readiness_probe: String,
    pub replicas: u16,
}

/// The mathematical value of a `Service` section.
pub struct ServiceSectionView {
    pub readiness_probe: Seq<char>,
    pub replicas: u16,
}

impl View for Service {
    type V = ServiceSectionView;

    open spec fn view(&self) -> ServiceSectionView {
        ServiceSectionView { readiness_probe: self.readiness_probe@, replicas: self.replicas }
    }
}

/// The `resources` section of the configuration document.
#[derive(Debug, Clone)]
pub struct Resources {
    pub ports: u16,
    pub cloud: String,
    pub cpus: String,
    pub memory: String,
    pub disk_size: u16,
    pub accelerators: Option<String>,
}

/// The mathematical value of a `Resources` section.
pub struct ResourcesView {
    pub ports: u16,
    pub cloud: Seq<char>,
    pub cpus: Seq<char>,
    pub memory: Seq<char>,
    pub disk_size: u16,
    pub accelerators: Option<Seq<char>>,
}

impl View for Resources {
    type V = ResourcesView;

    open spec fn view(&self) -> ResourcesView {
        ResourcesView {
            ports: self.ports,
            cloud: self.cloud@,
            cpus: self.cpus@,
            memory: self.memory@,
            disk_size: self.disk_size,
            accelerators: self.accelerators.deep_view(),
        }
    }
}

/// The full configuration document: the `service` and `resources` sections
/// plus the top-level working directory, setup script and run script.
#[derive(Debug, Clone)]
pub struct Configuration {
    pub service: Service,
    pub resources: Resources,
    pub workdir: String,
    pub setup: String,
    pub run: String,
}

/// The mathematical value of a `Configuration`.
pub struct ConfigurationView {
    pub service: ServiceSectionView,
    pub resources: ResourcesView,
    pub workdir: Seq<char>,
    pub setup: Seq<char>,
    pub run: Seq<char>,
}

impl View for Configuration {
    type V = ConfigurationView;

    open spec fn view(&self) -> ConfigurationView {
        ConfigurationView {
            service: self.service@,
            resources: self.resources@,
            workdir: self.workdir@,
            setup: self.setup@,
            run: self.run@,
        }
    }
}

/// The fixed default document that every merge starts from.
pub open spec fn spec_default_configuration() -> ConfigurationView {
    ConfigurationView {
        service: ServiceSectionView { readiness_probe: "/health"@, replicas: 2 },
        resources: ResourcesView {
            ports: 8080,
            cloud: "aws"@,
            cpus: "4+"@,
            memory: "10+"@,
            disk_size: 100,
            accelerators: None,
        },
        workdir: "."@,
        setup: "conda install cudatoolkit -y\npip install poetry\npoetry install\n"@,
        run: "poetry run python service.py\n"@,
    }
}

/// The merge of one sparse override onto a document: each field present in
/// the override replaces the corresponding document field, every other field
/// is left as it was. The two probe-related override fields configure
/// readiness checking, not the document, so the merge ignores them.
pub open spec fn spec_merge(c: ConfigurationView, o: UserProvidedConfigView) -> ConfigurationView {
    ConfigurationView {
        service: ServiceSectionView {
            readiness_probe: c.service.readiness_probe,
            replicas: if o.replicas is Some {
                o.replicas->0
            } else {
                c.service.replicas
            },
        },
        resources: ResourcesView {
            ports: if o.port is Some {
                o.port->0
            } else {
                c.resources.ports
            },
            cloud: if o.cloud is Some {
                o.cloud->0
            } else {
                c.resources.cloud
            },
            cpus: if o.cpu is Some {
                o.cpu->0
            } else {
                c.resources.cpus
            },
            memory: if o.memory is Some {
                o.memory->0
            } else {
                c.resources.memory
            },
            disk_size: if o.disk_size is Some {
                o.disk_size->0
            } else {
                c.resources.disk_size
            },
            accelerators: if o.accelerators is Some {
                Some(o.accelerators->0)
            } else {
                c.resources.accelerators
            },
        },
        workdir: if o.workdir is Some {
            o.workdir->0
        } else {
            c.workdir
        },
        setup: if o.setup is Some {
            o.setup->0
        } else {
            c.setup
        },
        run: if o.run is Some {
            o.run->0
        } else {
            c.run
        },
    }
}

impl Configuration {
    /// Merges a sparse override into this document: exactly the fields
    /// present in the override are overwritten, all others keep their value.
    pub fn update(&mut self, config: &UserProvidedConfig)
        ensures
            final(self)@ == spec_merge(old(self)@, config@),
    {
        if let Some(port) = config.port {
            self.resources.ports = port;
        }
        if let Some(replicas) = config.replicas {
            self.service.replicas = replicas;
        }
        if let Some(cloud) = &config.cloud {
            self.resources.cloud = cloud.clone();
        }
        if let Some(workdir) = &config.workdir {
            self.workdir = workdir.clone();
        }
        if let Some(disk_size) = config.disk_size {
            self.resources.disk_size = disk_size;
        }
        if let Some(cpu) = &config.cpu {
            self.resources.cpus = cpu.clone();
        }
        if let Some(memory) = &config.memory {
            self.resources.memory = memory.clone();
        }
        if let Some(setup) = &config.setup {
            self.setup = setup.clone();
        }
        if let Some(run) = &config.run {
            self.run = run.clone();
        }
        if let Some(accelerators) = &config.accelerators {
            self.resources.accelerators = Some(accelerators.clone());
        }
    }

    /// A small fixed document for exercising the model.
    pub fn test_config() -> (r: Configuration)
        ensures
            r@ == spec_test_config(),
    {
        test_config()
    }
}

impl Default for Configuration {
    /// The fixed default document.
    fn default() -> (r: Configuration)
        ensures
            r@ == spec_default_configuration(),
    {
        Configuration {
            service: Service { readiness_probe: "/health".to_owned(), replicas: 2 },
            resources: Resources {
                ports: 8080,
                cpus: "4+".to_owned(),
                memory: "10+".to_owned(),
                cloud: "aws".to_owned(),
                disk_size: 100,
                accelerators: None,
            },
            workdir: ".".to_owned(),
            setup: "conda install cudatoolkit -y\npip install poetry\npoetry install\n".to_owned(),
            run: "poetry run python service.py\n".to_owned(),
        }
    }
}

/// The document that `test_config` returns.
pub open spec fn spec_test_config() -> ConfigurationView {
    ConfigurationView {
        service: ServiceSectionView { readiness_probe: "/"@, replicas: 1 },
        resources: ResourcesView {
            ports: 8080,
            cloud: "aws"@,
            cpus: "4+"@,
            memory: "10+"@,
            disk_size: 50,
            accelerators: None,
        },
        workdir: "."@,
        setup: ""@,
        run: "python -m http.server 8080\n"@,
    }
}

/// A small fixed document for exercising the model.
pub fn test_config() -> (r: Configuration)
    ensures
        r@ == spec_test_config(),
{
    Configuration {
        service: Service { readiness_probe: "/".to_owned(), replicas: 1 },
        resources: Resources {
            ports: 8080,
            cpus: "4+".to_owned(),
            memory: "10+".to_owned(),
            cloud: "aws".to_owned(),
            disk_size: 50,
            accelerators: None,
        },
        setup: "".to_owned(),
        workdir: ".".to_owned(),
        run: "python -m http.server 8080\n".to_owned(),
    }
}

/// Merging the same override a second time changes nothing: the merge is
/// idempotent.
pub proof fn lemma_merge_idempotent(c: ConfigurationView, o: UserProvidedConfigView)
    ensures
        spec_merge(spec_merge(c, o), o) == spec_merge(c, o),
{
}

/// The merge changes exactly the document fields that the override carries:
/// every field present in the override takes the override's value, and every
/// other field keeps the value it had.
pub proof fn lemma_merge_frame(c: ConfigurationView, o: UserProvidedConfigView)
    ensures
        spec_merge(c, o).service.readiness_probe == c.service.readiness_probe,
        o.replicas is Some ==> spec_merge(c, o).service.replicas == o.replicas->0,
        o.replicas is None ==> spec_merge(c, o).service.replicas == c.service.replicas,
        o.port is Some ==> spec_merge(c, o).resources.ports == o.port->0,
        o.port is None ==> spec_merge(c, o).resources.ports == c.resources.ports,
        o.cloud is Some ==> spec_merge(c, o).resources.cloud == o.cloud->0,
        o.cloud is None ==> spec_merge(c, o).resources.cloud == c.resources.cloud,
        o.cpu is Some ==> spec_merge(c, o).resources.cpus == o.cpu->0,
        o.cpu is None ==> spec_merge(c, o).resources.cpus == c.resources.cpus,
        o.memory is Some ==> spec_merge(c, o).resources.memory == o.memory->0,
        o.memory is None ==> spec_merge(c, o).resources.memory == c.resources.memory,
        o.disk_size is Some ==> spec_merge(c, o).resources.disk_size == o.disk_size->0,
        o.disk_size is None ==> spec_merge(c, o).resources.disk_size == c.resources.disk_size,
        o.accelerators is Some ==> spec_merge(c, o).resources.accelerators == Some(
            o.accelerators->0,
        ),
        o.accelerators is None ==> spec_merge(c, o).resources.accelerators
            == c.resources.accelerators,
        o.workdir is Some ==> spec_merge(c, o).workdir == o.workdir->0,
        o.workdir is None ==> spec_merge(c, o).workdir == c.workdir,
        o.setup is Some ==> spec_merge(c, o).setup == o.setup->0,
        o.setup is None ==> spec_merge(c, o).setup == c.setup,
        o.run is Some ==> spec_merge(c, o).run == o.run->0,
        o.run is None ==> spec_merge(c, o).run == c.run,
{
}

/// The orchestrator implementations a record can be owned by.
#[derive(Debug, Clone, PartialEq, Eq, Structural)]
pub enum Orchestrators {
    SkyPilot,
    Local,
}

/// The adapter for the one supported external orchestrator. It keeps the
/// resolved document that setup writes out for its service.
#[derive(Debug, Clone)]
pub struct Sky {
    pub data: Option<UserProvidedConfig>,
    pub template: Configuration,
}

impl Sky {
    /// Builds the adapter: the default document with the caller's override
    /// merged in, when one is given.
    pub fn new(config: Option<UserProvidedConfig>) -> (r: Self)
        ensures
            config is Some ==> r.template@ == spec_merge(
                spec_default_configuration(),
                config->0@,
            ),
            config is None ==> r.template@ == spec_default_configuration(),
            r.data is Some <==> config is Some,
            config matches Some(c) ==> r.data->0@ == c@,
    {
        let mut sky = Sky { data: None, template: Configuration::default() };
        if let Some(config) = config {
            sky.template.update(&config);
            sky.data = Some(config);
        }
        sky
    }

    /// The fixed substring that a readiness probe response contains while
    /// the backend's replicas are not yet serving traffic.
    pub fn replica_check_string(&self) -> (r: &'static str)
        ensures
            r@ == "no ready replicas"@,
    {
        "no ready replicas"
    }

    /// The name of the generated configuration file for a service.
    pub fn config_file_name(&self, name: &str) -> (r: String)
        ensures
            r@ == name@ + "_service.yaml"@,
    {
        let mut s = name.to_owned();
        s.append("_service.yaml");
        s
    }
}

impl Orchestrators {
    /// The adapter that implements this variant, with a fresh default
    /// document; the local orchestrator has no implementation yet.
    pub fn get_orchestrator(&self) -> (r: Result<Sky, ServicingError>)
        ensures
            r is Ok <==> self is SkyPilot,
            r matches Ok(sky) ==> sky.template@ == spec_default_configuration() && sky.data
                is None,
            r matches Err(e) ==> e matches ServicingError::General(m) && m@
                == "Local orchestrator not implemented"@,
    {
        match self {
            Orchestrators::SkyPilot => Ok(Sky::new(None)),
            Orchestrators::Local => Err(
                ServicingError::General("Local orchestrator not implemented".to_owned()),
            ),
        }
    }
}

} // verus!
