//! The façade that owns the service registry and decides every lifecycle
//! step.
//!
//! Each caller-facing operation is split at its I/O boundary: the functions
//! here validate against the registry and mutate it, while the surrounding
//! runtime performs the subprocess calls, HTTP probes and file accesses
//! between the phases and hands their outcomes back in as plain values.

use vstd::prelude::*;

use crate::cache::{Service, ServiceCache, ServiceView};
use crate::config::{Orchestrators, UserProvidedConfig};
use crate::b64::{b64_decode, b64_encode, b64_of};
use crate::codec::{cache_from_bytes, cache_to_bytes, dec_cache, enc_cache, kv_bounded, kv_records_wf};
use crate::cache::kv_to_map;
use crate::errors::ServicingError;
use crate::text::{contains_substring, lower_of, lowercase, spec_contains};
use vstd::string::StringExecFns;

verus! {

/// The error names exactly this missing service.
pub open spec fn is_not_found(e: ServicingError, name: Seq<char>) -> bool {
    &&& e matches ServicingError::NotFound(n)
    &&& n@ == name
}

/// What one step of the readiness poller observed.
#[derive(Debug, Clone, Copy, PartialEq, Eq, Structural)]
pub enum PollStep {
    /// The response still carries the not-ready marker: probe again later.
    NotReady,
    /// The service answered without the marker and was marked up.
    NowUp,
    /// The record is gone or was altered by a teardown: exit silently.
    Gone,
}

/// What a single synchronous status probe came to.
#[derive(Debug, Clone)]
pub enum ProbeOutcome {
    /// The record did not claim to be up, so no probe was made.
    NotProbed,
    /// The probe answered with this body.
    Responded(String),
    /// The probe failed at the transport level.
    Failed,
}

/// What the status operation needs from outside before it can answer: the
/// configuration file to reload, and the address to probe when the record
/// claims to be up.
#[derive(Debug)]
pub struct StatusProbe {
    pub filepath: String,
    pub probe_endpoint: Option<String>,
}

/// Routes caller requests against the shared registry.
pub struct Dispatcher {
    pub services: ServiceCache,
}

impl Dispatcher {
    /// The registry is well-formed.
    pub open spec fn wf(&self) -> bool {
        self.services.wf()
    }

    /// A dispatcher over an empty registry.
    pub fn new() -> (r: Dispatcher)
        ensures
            r.wf(),
            r.services@ == Map::<Seq<char>, ServiceView>::empty(),
            r.services.kv() =~= Seq::<(Seq<char>, ServiceView)>::empty(),
    {
        Dispatcher { services: ServiceCache::new() }
    }

    /// Registers a service under its name once its configuration document
    /// has been written to `filepath`: the record starts with no endpoint,
    /// not up, and the default probe path.
    pub fn add_service(
        &mut self,
        name: String,
        orchestrator: Orchestrators,
        config: Option<UserProvidedConfig>,
        filepath: String,
    )
        requires
            old(self).wf(),
        ensures
            final(self).wf(),
            final(self).services@ == old(self).services@.insert(
                name@,
                ServiceView {
                    config: match config {
                        Some(c) => Some(c@),
                        None => None,
                    },
                    orchestrator,
                    filepath: Some(filepath@),
                    readiness_probe: "/"@,
                    url: None,
                    up: false,
                },
            ),
    {
        let record = Service {
            config,
            orchestrator,
            filepath: Some(filepath),
            readiness_probe: "/".to_owned(),
            url: None,
            up: false,
        };
        self.services.insert(name, record);
    }

    /// Validates a request to bring a service up and hands back the path of
    /// its configuration file. Fails when the name is unknown, when the
    /// record already has an endpoint, or when setup never recorded a file.
    pub fn up_begin(&self, name: &String) -> (r: Result<String, ServicingError>)
        requires
            self.wf(),
        ensures
            r matches Ok(fp) ==> {
                &&& self.services@.contains_key(name@)
                &&& self.services@[name@].url is None
                &&& self.services@[name@].filepath == Some(fp@)
            },
            !self.services@.contains_key(name@) ==> (r matches Err(e) && is_not_found(e, name@)),
            self.services@.contains_key(name@) && self.services@[name@].url is Some ==> (r
                matches Err(e) && e is AlreadyRunning),
            self.services@.contains_key(name@) && self.services@[name@].url is None
                && self.services@[name@].filepath is Some ==> r is Ok,
            self.services@.contains_key(name@) && self.services@[name@].url is None
                && self.services@[name@].filepath is None ==> (r matches Err(e) && e matches
                ServicingError::General(m) && m@ == "filepath not found"@),
    {
        match self.services.get(name) {
            None => Err(ServicingError::NotFound(name.clone())),
            Some(record) => {
                if record.url.is_some() {
                    Err(ServicingError::AlreadyRunning)
                } else {
                    match &record.filepath {
                        Some(fp) => Ok(fp.clone()),
                        None => Err(ServicingError::General("filepath not found".to_owned())),
                    }
                }
            },
        }
    }

    /// After the external tool reported success, parses its status output
    /// for the service endpoint and stores it on the record. Fails when the
    /// record has disappeared meanwhile or when no endpoint token occurs in
    /// the output.
    pub fn up_finish(&mut self, name: &String, status_output: &str) -> (r: Result<
        String,
        ServicingError,
    >)
        requires
            old(self).wf(),
        ensures
            final(self).wf(),
            !old(self).services@.contains_key(name@) ==> (r matches Err(e) && is_not_found(
                e,
                name@,
            ) && final(self).services@ == old(self).services@),
            old(self).services@.contains_key(name@) ==> match r {
                Ok(u) => {
                    &&& exists|i: int, j: int|
                        crate::scan::token_match_at(status_output@, i, j) && u@
                            == status_output@.subrange(i, j)
                    &&& final(self).services@ == old(self).services@.insert(
                        name@,
                        old(self).services@[name@].with_url(Some(u@)),
                    )
                },
                Err(e) => {
                    &&& e matches ServicingError::General(m) && m@ == "Cannot find service URL"@
                    &&& forall|i: int, j: int| !crate::scan::token_match_at(status_output@, i, j)
                    &&& final(self).services@ == old(self).services@
                },
            },
    {
        if !self.services.contains(name) {
            return Err(ServicingError::NotFound(name.clone()));
        }
        match crate::scan::find_endpoint(status_output) {
            Some(url) => {
                let stored = url.clone();
                self.services.set_endpoint(name, stored);
                Ok(url)
            },
            None => Err(ServicingError::General("Cannot find service URL".to_owned())),
        }
    }

    /// One step of the background readiness loop: given the probe response,
    /// either the not-ready marker is still present and the poller must try
    /// again, or the record is marked up. A record that vanished or lost its
    /// endpoint to a concurrent teardown is left untouched.
    pub fn poll_step(&mut self, name: &String, response: &str, marker: &str) -> (r: PollStep)
        requires
            old(self).wf(),
        ensures
            final(self).wf(),
            spec_contains(lower_of(response@), marker@) ==> (r == PollStep::NotReady && final(self).services@ == old(self).services@),
            !spec_contains(lower_of(response@), marker@) && old(self).services@.contains_key(
                name@,
            ) && old(self).services@[name@].url is Some ==> (r == PollStep::NowUp && final(self).services@ == old(self).services@.insert(
                name@,
                old(self).services@[name@].with_up(true),
            )),
            !spec_contains(lower_of(response@), marker@) && !(old(self).services@.contains_key(
                name@,
            ) && old(self).services@[name@].url is Some) ==> (r == PollStep::Gone && final(self).services@ == old(self).services@),
    {
        let folded = lowercase(response);
        if contains_substring(folded.as_str(), marker) {
            PollStep::NotReady
        } else {
            if self.services.mark_up(name) {
                PollStep::NowUp
            } else {
                PollStep::Gone
            }
        }
    }

    /// Decides a teardown request. A record that is up or has an endpoint is
    /// cleared unconditionally and the external subcommand must follow; a
    /// record that never came up is refused with `NotRunning` unless `force`
    /// is set, in which case the subcommand is still attempted. The result
    /// says whether runtime state was cleared.
    pub fn down(&mut self, name: &String, force: bool) -> (r: Result<bool, ServicingError>)
        requires
            old(self).wf(),
        ensures
            final(self).wf(),
            !old(self).services@.contains_key(name@) ==> (r matches Err(e) && is_not_found(
                e,
                name@,
            ) && final(self).services@ == old(self).services@),
            old(self).services@.contains_key(name@) && (old(self).services@[name@].up || old(self).services@[name@].url is Some) ==> (r == Ok::<bool, ServicingError>(true) && final(self).services@ == old(self).services@.insert(
                name@,
                old(self).services@[name@].stopped(),
            )),
            old(self).services@.contains_key(name@) && !old(self).services@[name@].up && old(self).services@[name@].url is None && force ==> (r == Ok::<bool, ServicingError>(false)
                && final(self).services@ == old(self).services@),
            old(self).services@.contains_key(name@) && !old(self).services@[name@].up && old(self).services@[name@].url is None && !force ==> (r matches Err(e) && e is NotRunning
                && final(self).services@ == old(self).services@),
    {
        let running = match self.services.get(name) {
            None => {
                return Err(ServicingError::NotFound(name.clone()));
            },
            Some(record) => record.up || record.url.is_some(),
        };
        if running {
            self.services.clear_endpoint(name);
            Ok(true)
        } else if force {
            Ok(false)
        } else {
            Err(ServicingError::NotRunning)
        }
    }

    /// Validates a status request: hands back the configuration file to
    /// reload and, when the record claims to be up, the endpoint to probe
    /// once.
    pub fn status_begin(&self, name: &String) -> (r: Result<StatusProbe, ServicingError>)
        requires
            self.wf(),
        ensures
            !self.services@.contains_key(name@) ==> (r matches Err(e) && is_not_found(
                e,
                name@,
            )),
            self.services@.contains_key(name@) && self.services@[name@].filepath is None ==> (r
                matches Err(e) && e matches ServicingError::General(m) && m@
                == "filepath not found"@),
            self.services@.contains_key(name@) && self.services@[name@].filepath is Some ==> (r
                matches Ok(p) && {
                &&& Some(p.filepath@) == self.services@[name@].filepath
                &&& p.probe_endpoint is Some <==> (self.services@[name@].up
                    && self.services@[name@].url is Some)
                &&& (self.services@[name@].up && self.services@[name@].url is Some)
                    ==> p.probe_endpoint.deep_view() == self.services@[name@].url
            }),
    {
        match self.services.get(name) {
            None => Err(ServicingError::NotFound(name.clone())),
            Some(record) => {
                let filepath = match &record.filepath {
                    Some(fp) => fp.clone(),
                    None => {
                        return Err(ServicingError::General("filepath not found".to_owned()));
                    },
                };
                let probe_endpoint = if record.up {
                    match &record.url {
                        Some(u) => Some(u.clone()),
                        None => None,
                    }
                } else {
                    None
                };
                Ok(StatusProbe { filepath, probe_endpoint })
            },
        }
    }

    /// Finishes a status request once the probe outcome is known: a failed
    /// or still-not-ready probe on a record that claimed to be up flips it
    /// back to not-up before the snapshot is taken.
    pub fn status_probe_result(&mut self, name: &String, outcome: &ProbeOutcome, marker: &str)
        requires
            old(self).wf(),
        ensures
            final(self).wf(),
            ({
                let bad = match outcome {
                    ProbeOutcome::NotProbed => false,
                    ProbeOutcome::Responded(t) => spec_contains(lower_of(t@), marker@),
                    ProbeOutcome::Failed => true,
                };
                if bad && old(self).services@.contains_key(name@) {
                    final(self).services@ == old(self).services@.insert(
                        name@,
                        old(self).services@[name@].with_up(false),
                    )
                } else {
                    final(self).services@ == old(self).services@
                }
            }),
    {
        let bad = match outcome {
            ProbeOutcome::NotProbed => false,
            ProbeOutcome::Responded(t) => contains_substring(
                lowercase(t.as_str()).as_str(),
                marker,
            ),
            ProbeOutcome::Failed => true,
        };
        if bad {
            self.services.mark_not_up(name);
        }
    }

    /// Serializes the snapshot of a service's record, plain or
    /// pretty-printed, as a status request answers after its probe.
    pub fn status_render(&self, name: &String, pretty: bool) -> (r: Result<
        String,
        ServicingError,
    >)
        requires
            self.wf(),
        ensures
            !self.services@.contains_key(name@) ==> (r matches Err(e) && is_not_found(
                e,
                name@,
            )),
            self.services@.contains_key(name@) ==> (r matches Ok(s) && s@
                == crate::snapshot::spec_snapshot(self.services@[name@], pretty)),
    {
        match self.services.get(name) {
            None => Err(ServicingError::NotFound(name.clone())),
            Some(record) => Ok(crate::snapshot::render_snapshot(record, pretty)),
        }
    }

    /// The registered names, in insertion order and without duplicates.
    pub fn list(&self) -> (r: Vec<String>)
        requires
            self.wf(),
        ensures
            r@.len() == self.services.kv().len(),
            forall|i: int| 0 <= i < r@.len() ==> r@[i]@ == self.services.kv()[i].0,
            forall|i: int| 0 <= i < r@.len() ==> self.services@.contains_key(#[trigger] r@[i]@),
            forall|k: Seq<char>| self.services@.contains_key(k) ==> exists|i: int|
                0 <= i < r@.len() && r@[i]@ == k,
    {
        self.services.keys()
    }

    /// The endpoint of a service: its `host:port` once provisioning stored
    /// one, an error while it is down or unknown.
    pub fn get_url(&self, name: &String) -> (r: Result<String, ServicingError>)
        requires
            self.wf(),
        ensures
            !self.services@.contains_key(name@) ==> (r matches Err(e) && is_not_found(
                e,
                name@,
            )),
            self.services@.contains_key(name@) && self.services@[name@].url is Some ==> (r
                matches Ok(u) && Some(u@) == self.services@[name@].url),
            self.services@.contains_key(name@) && self.services@[name@].url is None ==> (r
                matches Err(e) && e matches ServicingError::General(m) && m@
                == "Service is down"@),
    {
        match self.services.get(name) {
            None => Err(ServicingError::NotFound(name.clone())),
            Some(record) => match &record.url {
                Some(u) => Ok(u.clone()),
                None => Err(ServicingError::General("Service is down".to_owned())),
            },
        }
    }

    /// Validates a removal: a service that is up or still has an endpoint
    /// must be brought down first, whatever order the calls came in. On
    /// success hands back the configuration file to delete.
    pub fn remove_begin(&self, name: &String) -> (r: Result<Option<String>, ServicingError>)
        requires
            self.wf(),
        ensures
            !self.services@.contains_key(name@) ==> (r matches Err(e) && is_not_found(
                e,
                name@,
            )),
            self.services@.contains_key(name@) && self.services@[name@].up ==> (r matches Err(e)
                && e matches ServicingError::ProvisionFailed(m) && m@ == "Service "@ + name@
                + " is still up"@),
            self.services@.contains_key(name@) && !self.services@[name@].up
                && self.services@[name@].url is Some ==> (r matches Err(e) && e matches
                ServicingError::ProvisionFailed(m) && m@ == "Service "@ + name@
                + " is starting"@),
            self.services@.contains_key(name@) && !self.services@[name@].up
                && self.services@[name@].url is None ==> (r matches Ok(fp) && fp.deep_view()
                == self.services@[name@].filepath),
    {
        match self.services.get(name) {
            None => Err(ServicingError::NotFound(name.clone())),
            Some(record) => {
                if record.up {
                    let mut m = "Service ".to_owned();
                    m.append(name.as_str());
                    m.append(" is still up");
                    Err(ServicingError::ProvisionFailed(m))
                } else if record.url.is_some() {
                    let mut m = "Service ".to_owned();
                    m.append(name.as_str());
                    m.append(" is starting");
                    Err(ServicingError::ProvisionFailed(m))
                } else {
                    match &record.filepath {
                        Some(fp) => Ok(Some(fp.clone())),
                        None => Ok(None),
                    }
                }
            },
        }
    }

    /// Destroys the record as the last step of a removal, after the
    /// configuration file is gone. The same guards as in the validation
    /// apply, whatever happened in between.
    pub fn remove_finish(&mut self, name: &String) -> (r: Result<(), ServicingError>)
        requires
            old(self).wf(),
        ensures
            final(self).wf(),
            !old(self).services@.contains_key(name@) ==> (r matches Err(e) && is_not_found(
                e,
                name@,
            ) && final(self).services@ == old(self).services@),
            old(self).services@.contains_key(name@) && (old(self).services@[name@].up || old(self).services@[name@].url is Some) ==> (r is Err && final(self).services@ == old(self).services@),
            old(self).services@.contains_key(name@) && !old(self).services@[name@].up && old(self).services@[name@].url is None ==> (r is Ok && final(self).services@ == old(self).services@.remove(name@)),
    {
        let ok = match self.services.get(name) {
            None => {
                return Err(ServicingError::NotFound(name.clone()));
            },
            Some(record) => !record.up && record.url.is_none(),
        };
        if !ok {
            let mut m = "Service ".to_owned();
            m.append(name.as_str());
            m.append(" is not fully down");
            return Err(ServicingError::ProvisionFailed(m));
        }
        self.services.remove(name);
        Ok(())
    }
}

impl Dispatcher {
    /// The persisted byte form of the registry, for writing to the cache
    /// file.
    pub fn save_bytes(&self) -> (r: Vec<u8>)
        requires
            self.wf(),
        ensures
            r@ == enc_cache(self.services.kv()),
            kv_bounded(self.services.kv()),
    {
        cache_to_bytes(&self.services)
    }

    /// Merges a persisted registry read from disk into the live one;
    /// existing names are overwritten by loaded entries. A payload that is
    /// not exactly one encoded registry is rejected unchanged.
    pub fn load_bytes(&mut self, bytes: &[u8]) -> (r: Result<(), ServicingError>)
        requires
            old(self).wf(),
        ensures
            final(self).wf(),
            r is Ok <==> (dec_cache(bytes@) matches Some(kv) && kv_records_wf(kv)),
            r is Ok ==> (dec_cache(bytes@) matches Some(kv) && final(self).services@ == old(self).services@.union_prefer_right(kv_to_map(kv))),
            r matches Err(e) ==> e is SerializationFailure && final(self).services@ == old(self).services@,
    {
        match cache_from_bytes(bytes) {
            Ok(loaded) => {
                self.services.extend(loaded);
                Ok(())
            },
            Err(e) => Err(e),
        }
    }

    /// The persisted registry as a base64 string, for out-of-band transport.
    pub fn save_as_b64(&self) -> (r: String)
        requires
            self.wf(),
        ensures
            r@ == b64_of(enc_cache(self.services.kv())),
            kv_bounded(self.services.kv()),
    {
        let bytes = self.save_bytes();
        b64_encode(bytes.as_slice())
    }

    /// Merges a base64-carried registry into the live one, exactly as
    /// loading its bytes would; anything that is not base64 of a persisted
    /// registry is rejected unchanged.
    pub fn load_from_b64(&mut self, data: &str) -> (r: Result<(), ServicingError>)
        requires
            old(self).wf(),
        ensures
            final(self).wf(),
            r is Ok ==> exists|bytes: Seq<u8>|
                {
                    &&& data@ == b64_of(bytes)
                    &&& dec_cache(bytes) matches Some(kv)
                    &&& (dec_cache(bytes) matches Some(kv) ==> kv_records_wf(kv) && final(self).services@ == old(self).services@.union_prefer_right(kv_to_map(kv)))
                },
            forall|bytes: Seq<u8>|
                (data@ == b64_of(bytes) && (dec_cache(bytes) matches Some(kv)
                    && kv_records_wf(kv))) ==> r is Ok,
            r matches Err(e) ==> e is SerializationFailure && final(self).services@ == old(self).services@,
    {
        let bytes = match b64_decode(data) {
            Ok(v) => v,
            Err(_) => {
                return Err(ServicingError::SerializationFailure);
            },
        };
        let r = self.load_bytes(bytes.as_slice());
        proof {
            if r is Ok {
                assert(data@ == b64_of(bytes@));
            }
        }
        r
    }

    /// The services worth re-polling after a load: those that are not up but
    /// already have an endpoint, each with the address its readiness probe
    /// must fetch.
    pub fn services_to_check(&self) -> (r: Vec<(String, String)>)
        requires
            self.wf(),
        ensures
            forall|k: int|
                0 <= k < r@.len() ==> {
                    let key = (#[trigger] r@[k]).0@;
                    &&& self.services@.contains_key(key)
                    &&& !self.services@[key].up
                    &&& self.services@[key].url is Some
                    &&& r@[k].1@ == self.services@[key].url->0
                        + self.services@[key].readiness_probe
                },
            forall|key: Seq<char>|
                (self.services@.contains_key(key) && !self.services@[key].up
                    && self.services@[key].url is Some) ==> exists|k: int|
                    0 <= k < r@.len() && (#[trigger] r@[k]).0@ == key,
    {
        let n = self.services.entries.len();
        let mut r: Vec<(String, String)> = Vec::new();
        for i in 0..n
            invariant
                self.wf(),
                n == self.services.entries.len(),
                n == self.services.kv().len(),
                forall|k: int|
                    0 <= k < r@.len() ==> {
                        let key = (#[trigger] r@[k]).0@;
                        &&& self.services@.contains_key(key)
                        &&& !self.services@[key].up
                        &&& self.services@[key].url is Some
                        &&& r@[k].1@ == self.services@[key].url->0
                            + self.services@[key].readiness_probe
                    },
                forall|j: int|
                    0 <= j < i && !(#[trigger] self.services.kv()[j]).1.up
                        && self.services.kv()[j].1.url is Some ==> exists|k: int|
                        0 <= k < r@.len() && (#[trigger] r@[k]).0@ == self.services.kv()[j].0,
        {
            let record = &self.services.entries[i].1;
            proof {
                crate::cache::lemma_kv_to_map_index(self.services.kv(), i as int);
            }
            if !record.up && record.url.is_some() {
                let mut target = match &record.url {
                    Some(u) => u.clone(),
                    None => String::new(),
                };
                target.append(record.readiness_probe.as_str());
                let ghost prev = r@;
                r.push((self.services.entries[i].0.clone(), target));
                proof {
                    assert(r@[prev.len() as int].0@ == self.services.kv()[i as int].0);
                    assert(forall|k: int| 0 <= k < prev.len() ==> r@[k] == prev[k]);
                }
            }
        }
        proof {
            assert forall|key: Seq<char>|
                (self.services@.contains_key(key) && !self.services@[key].up
                    && self.services@[key].url is Some) implies exists|k: int|
                0 <= k < r@.len() && (#[trigger] r@[k]).0@ == key by {
                crate::cache::lemma_kv_to_map_dom(self.services.kv(), key);
                let j = choose|j: int|
                    0 <= j < self.services.kv().len() && self.services.kv()[j].0 == key;
                crate::cache::lemma_kv_to_map_index(self.services.kv(), j);
                assert(!self.services.kv()[j].1.up && self.services.kv()[j].1.url is Some);
            }
        }
        r
    }
}

/// The address a readiness probe must fetch: the service endpoint with the
/// probe path appended, as an HTTP URL.
pub fn probe_url(endpoint: &str, probe_path: &str) -> (r: String)
    ensures
        r@ == "http://"@ + endpoint@ + probe_path@,
{
    let mut s = "http://".to_owned();
    s.append(endpoint);
    s.append(probe_path);
    s
}

} // verus!
