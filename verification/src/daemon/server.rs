//! The daemon's configuration, its errors, and what it does between connections.

use crate::daemon::frame::IpcError;
use crate::daemon::idle::IdleExitTracker;
use crate::daemon::limits::ResourceLimits;
use crate::daemon::runtime::RuntimeError;
use crate::daemon::scheduler::SchedulerConfig;
use crate::domain::command::{DomainError, DomainErrorCode};
use crate::text::opt_view;
use vstd::prelude::*;

verus! {

/// Which embedding the daemon runs.
#[derive(Debug, Clone, Default, PartialEq, Eq)]
pub enum EmbeddingMode {
    /// None: recall is lexical.
    #[default]
    Disabled,
    /// The small model in this directory, loaded at the start.
    E5SmallCached { cache_dir: String },
}

/// The configuration of the daemon.
#[derive(Debug, Clone)]
pub struct DaemonConfig {
    /// Where the store is.
    pub store_path: String,
    /// Where the sessions are kept between runs.
    pub sessions_path: String,
    /// Where the search projection is; empty for none.
    pub search_path: String,
    pub limits: ResourceLimits,
    /// How long the daemon waits without a connection before it exits; zero to
    /// serve for ever.
    pub idle_timeout_millis: u64,
    pub embedding: EmbeddingMode,
    pub scheduler: SchedulerConfig,
}

impl Default for DaemonConfig {
    fn default() -> (r: Self)
        ensures
            r.store_path@.len() == 0,
            r.sessions_path@.len() == 0,
            r.search_path@.len() == 0,
            r.limits.max_clients == 64,
            r.limits.max_queued_per_client == 128,
            r.limits.max_in_flight_storage == 32,
            r.limits.max_response_bytes == 8_388_608,
            r.idle_timeout_millis == 0,
            r.embedding is Disabled,
            r.scheduler.max_queue_depth == 1024,
    {
        DaemonConfig {
            store_path: String::new(),
            sessions_path: String::new(),
            search_path: String::new(),
            limits: ResourceLimits::default(),
            idle_timeout_millis: 0,
            embedding: EmbeddingMode::Disabled,
            scheduler: SchedulerConfig::default(),
        }
    }
}

/// Whether a peer may connect: only the user that runs the daemon.
pub fn peer_authorized(peer_uid: u32, own_uid: u32) -> (r: bool)
    ensures
        r == (peer_uid == own_uid),
{
    peer_uid == own_uid
}

/// What went wrong in the daemon.
#[derive(Debug)]
pub enum DaemonError {
    Runtime(RuntimeError),
    Io(String),
    Serde(String),
    Domain { code: DomainErrorCode, message: String },
    Ipc(IpcError),
    Embedding { message: String },
}

/// The variant of an error code, by name.
pub open spec fn code_name(code: DomainErrorCode) -> Seq<char> {
    match code {
        DomainErrorCode::NotFound => "NotFound"@,
        DomainErrorCode::RevisionConflict => "RevisionConflict"@,
        DomainErrorCode::DuplicateAlias => "DuplicateAlias"@,
        DomainErrorCode::DuplicateEdge => "DuplicateEdge"@,
        DomainErrorCode::SelfSupersession => "SelfSupersession"@,
        DomainErrorCode::SupersessionCycle => "SupersessionCycle"@,
        DomainErrorCode::InvalidLifecycleTransition => "InvalidLifecycleTransition"@,
        DomainErrorCode::StaleReplay => "StaleReplay"@,
        DomainErrorCode::KeyReuseDifferentInput => "KeyReuseDifferentInput"@,
        DomainErrorCode::OutOfScope => "OutOfScope"@,
        DomainErrorCode::Validation => "Validation"@,
    }
}

fn name_of_code(code: DomainErrorCode) -> (r: &'static str)
    ensures
        r@ == code_name(code),
{
    match code {
        DomainErrorCode::NotFound => "NotFound",
        DomainErrorCode::RevisionConflict => "RevisionConflict",
        DomainErrorCode::DuplicateAlias => "DuplicateAlias",
        DomainErrorCode::DuplicateEdge => "DuplicateEdge",
        DomainErrorCode::SelfSupersession => "SelfSupersession",
        DomainErrorCode::SupersessionCycle => "SupersessionCycle",
        DomainErrorCode::InvalidLifecycleTransition => "InvalidLifecycleTransition",
        DomainErrorCode::StaleReplay => "StaleReplay",
        DomainErrorCode::KeyReuseDifferentInput => "KeyReuseDifferentInput",
        DomainErrorCode::OutOfScope => "OutOfScope",
        DomainErrorCode::Validation => "Validation",
    }
}

impl DaemonError {
    /// The message for the reader.
    pub open spec fn text(self) -> Seq<char> {
        match self {
            DaemonError::Runtime(e) => "runtime: "@ + e.text(),
            DaemonError::Io(e) => "io: "@ + e@,
            DaemonError::Serde(e) => "serde: "@ + e@,
            DaemonError::Domain { code, message } => "domain: "@ + code_name(code) + ": "@
                + message@,
            DaemonError::Ipc(e) => "ipc: "@ + e.text(),
            DaemonError::Embedding { message } => "embedding: "@ + message@,
        }
    }

    pub fn message(&self) -> (r: String)
        ensures
            r@ == self.text(),
    {
        match self {
            DaemonError::Runtime(e) => "runtime: ".to_owned().concat(e.message().as_str()),
            DaemonError::Io(e) => "io: ".to_owned().concat(e.as_str()),
            DaemonError::Serde(e) => "serde: ".to_owned().concat(e.as_str()),
            DaemonError::Domain { code, message } => "domain: ".to_owned().concat(
                name_of_code(*code),
            ).concat(": ").concat(message.as_str()),
            DaemonError::Ipc(e) => "ipc: ".to_owned().concat(e.message().as_str()),
            DaemonError::Embedding { message } => "embedding: ".to_owned().concat(
                message.as_str(),
            ),
        }
    }

    /// An error of the domain.
    pub fn of_domain(e: DomainError) -> (r: Self)
        ensures
            r == (DaemonError::Domain { code: e.code, message: e.message }),
    {
        DaemonError::Domain { code: e.code, message: e.message }
    }

    /// An error of the protocol. One of input and output stays what it is.
    pub fn of_ipc(e: IpcError) -> (r: Self)
        ensures
            r == (match e {
                IpcError::Io(t) => DaemonError::Io(t),
                _ => DaemonError::Ipc(e),
            }),
    {
        match e {
            IpcError::Io(t) => DaemonError::Io(t),
            other => DaemonError::Ipc(other),
        }
    }
}

/// The directory of the model that is to be loaded, if any. A model needs a
/// search projection.
pub open spec fn model_dir(config: DaemonConfig) -> Result<Option<Seq<char>>, Seq<char>> {
    match config.embedding {
        EmbeddingMode::Disabled => Ok(None),
        EmbeddingMode::E5SmallCached { cache_dir } => if config.search_path@.len() == 0 {
            Err("E5 embedding requires search_path for the projection table"@)
        } else {
            Ok(Some(cache_dir@))
        },
    }
}

/// What embedding to start with.
pub fn plan_embedding(config: &DaemonConfig) -> (r: Result<Option<String>, DaemonError>)
    ensures
        match model_dir(*config) {
            Ok(dir) => r is Ok && opt_view(r->Ok_0) == dir,
            Err(m) => r is Err && r->Err_0 is Embedding && r->Err_0->Embedding_message@ == m,
        },
{
    match &config.embedding {
        EmbeddingMode::Disabled => Ok(None),
        EmbeddingMode::E5SmallCached { cache_dir } => if config.search_path.as_str().is_empty() {
            Err(
                DaemonError::Embedding {
                    message: "E5 embedding requires search_path for the projection table".to_owned(),
                },
            )
        } else {
            Ok(Some(cache_dir.clone()))
        },
    }
}

/// What came of waiting for a connection.
#[derive(Debug, Clone, Copy, PartialEq, Eq, Structural)]
pub enum Waited {
    Connected,
    /// The wait was interrupted.
    Interrupted,
    Failed,
    /// The idle timeout went by.
    TimedOut,
}

/// What the daemon does next.
#[derive(Debug, Clone, Copy, PartialEq, Eq, Structural)]
pub enum ServeStep {
    /// Serve the connection, and wait for the next.
    Serve,
    Wait,
    Stop,
    Fail,
}

/// What the daemon does after waiting for a connection. It stops only where it
/// was idle for the timeout.
pub fn after_wait(tracker: &mut IdleExitTracker, waited: Waited, now: u64, timeout: u64) -> (r:
    ServeStep)
    requires
        old(tracker).active < usize::MAX,
    ensures
        r == (match waited {
            Waited::Connected => ServeStep::Serve,
            Waited::Interrupted => ServeStep::Wait,
            Waited::Failed => ServeStep::Fail,
            Waited::TimedOut => if old(tracker).idle(now, timeout) {
                ServeStep::Stop
            } else {
                ServeStep::Wait
            },
        }),
        waited is Connected ==> final(tracker).active == old(tracker).active + 1
            && final(tracker).last_activity == now,
        !(waited is Connected) ==> *final(tracker) == *old(tracker),
{
    match waited {
        Waited::Connected => {
            tracker.note_connect(now);
            ServeStep::Serve
        },
        Waited::Interrupted => ServeStep::Wait,
        Waited::Failed => ServeStep::Fail,
        Waited::TimedOut => if tracker.should_exit(now, timeout) {
            ServeStep::Stop
        } else {
            ServeStep::Wait
        },
    }
}

} // verus!
