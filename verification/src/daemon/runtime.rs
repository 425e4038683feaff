//! Where a store's socket and lock are, and what may be done with what is found
//! there.

use crate::domain::id::StoreGeneration;
use crate::text::chars_of;
use vstd::prelude::*;

verus! {

/// Why the runtime could not be set up.
#[derive(Debug, PartialEq, Eq)]
pub enum RuntimeError {
    /// The system reported an error.
    Io(String),
    /// Another daemon holds the lock at this path.
    AlreadyRunning(String),
    /// The path is a symbolic link.
    UnsafePath(String),
}

impl RuntimeError {
    /// The message for the reader.
    pub open spec fn text(self) -> Seq<char> {
        match self {
            RuntimeError::Io(e) => "io error: "@ + e@,
            RuntimeError::AlreadyRunning(p) => "another daemon already owns the store lock ("@ + p@
                + ")"@,
            RuntimeError::UnsafePath(p) => "runtime path is a symlink or not a regular dir: "@ + p@,
        }
    }

    pub fn message(&self) -> (r: String)
        ensures
            r@ == self.text(),
    {
        match self {
            RuntimeError::Io(e) => "io error: ".to_owned().concat(e.as_str()),
            RuntimeError::AlreadyRunning(p) => "another daemon already owns the store lock (".to_owned().concat(
                p.as_str(),
            ).concat(")"),
            RuntimeError::UnsafePath(p) =>
                "runtime path is a symlink or not a regular dir: ".to_owned().concat(p.as_str()),
        }
    }
}

/// A path with another pushed onto it: an absolute one replaces it, any other
/// is appended after a separator.
pub open spec fn path_join(base: Seq<char>, part: Seq<char>) -> Seq<char> {
    if part.len() > 0 && part[0] == '/' {
        part
    } else if base.len() == 0 {
        part
    } else if base.last() == '/' {
        base + part
    } else {
        base + "/"@ + part
    }
}

/// Pushes a path onto another.
fn join_path(base: &str, part: &str) -> (r: String)
    ensures
        r@ == path_join(base@, part@),
{
    let b = chars_of(base);
    let p = chars_of(part);
    if p.len() > 0 && p[0] == '/' {
        part.to_owned()
    } else if b.len() == 0 {
        part.to_owned()
    } else if b[b.len() - 1] == '/' {
        base.to_owned().concat(part)
    } else {
        base.to_owned().concat("/").concat(part)
    }
}

/// The paths of one store, kept apart by the store's identity.
#[derive(Debug, Clone, PartialEq, Eq)]
pub struct RuntimePaths {
    /// The private directory of the socket and the lock.
    pub runtime_dir: String,
    pub lock_path: String,
    pub socket_path: String,
}

/// The runtime directory of a store.
pub open spec fn runtime_dir_of(base: Seq<char>, identity: Seq<char>) -> Seq<char> {
    path_join(path_join(base, "ltmrs"@), identity)
}

impl RuntimePaths {
    pub fn resolve(base_dir: &str, store_identity: &str) -> (r: Self)
        ensures
            r.runtime_dir@ == runtime_dir_of(base_dir@, store_identity@),
            r.lock_path@ == path_join(r.runtime_dir@, "daemon.lock"@),
            r.socket_path@ == path_join(r.runtime_dir@, "daemon.sock"@),
    {
        let root = join_path(base_dir, "ltmrs");
        let runtime_dir = join_path(root.as_str(), store_identity);
        RuntimePaths {
            lock_path: join_path(runtime_dir.as_str(), "daemon.lock"),
            socket_path: join_path(runtime_dir.as_str(), "daemon.sock"),
            runtime_dir,
        }
    }
}

proof fn lemma_join_injective(base: Seq<char>, a: Seq<char>, b: Seq<char>)
    requires
        !(a.len() > 0 && a[0] == '/'),
        !(b.len() > 0 && b[0] == '/'),
        path_join(base, a) == path_join(base, b),
    ensures
        a == b,
{
    let head = if base.len() == 0 {
        Seq::<char>::empty()
    } else if base.last() == '/' {
        base
    } else {
        base + "/"@
    };
    assert(path_join(base, a) =~= head + a);
    assert(path_join(base, b) =~= head + b);
    assert(a =~= (head + a).skip(head.len() as int));
    assert(b =~= (head + b).skip(head.len() as int));
}

/// Stores with different relative identities have different runtime
/// directories under one base.
pub proof fn law_store_identities_stay_apart(base: Seq<char>, a: Seq<char>, b: Seq<char>)
    requires
        a != b,
        !(a.len() > 0 && a[0] == '/'),
        !(b.len() > 0 && b[0] == '/'),
    ensures
        runtime_dir_of(base, a) != runtime_dir_of(base, b),
{
    if runtime_dir_of(base, a) == runtime_dir_of(base, b) {
        lemma_join_injective(path_join(base, "ltmrs"@), a, b);
    }
}

/// What to do with the runtime directory.
#[derive(Debug, Clone, Copy, PartialEq, Eq, Structural)]
pub enum DirectoryAction {
    /// Create it, for the owner alone.
    Create,
    /// Use it as it is.
    Use,
    /// Refuse it: it is a symbolic link.
    Refuse,
}

/// A directory that is not there is created; one that is there is used unless
/// it is a symbolic link.
pub fn directory_action(exists: bool, symlink: bool) -> (r: DirectoryAction)
    ensures
        r == (if !exists {
            DirectoryAction::Create
        } else if symlink {
            DirectoryAction::Refuse
        } else {
            DirectoryAction::Use
        }),
{
    if exists {
        if symlink {
            DirectoryAction::Refuse
        } else {
            DirectoryAction::Use
        }
    } else {
        DirectoryAction::Create
    }
}

/// What to do with a socket that is found after the lock was won.
#[derive(Debug, Clone, Copy, PartialEq, Eq, Structural)]
pub enum SocketAction {
    /// There is none.
    Nothing,
    /// Remove it: whoever made it is gone.
    Remove,
    /// Refuse it: it is a symbolic link.
    Refuse,
}

/// A socket that is left over is removed unless it is a symbolic link.
pub fn socket_action(exists: bool, symlink: bool) -> (r: SocketAction)
    ensures
        r == (if !exists {
            SocketAction::Nothing
        } else if symlink {
            SocketAction::Refuse
        } else {
            SocketAction::Remove
        }),
{
    if exists {
        if symlink {
            SocketAction::Refuse
        } else {
            SocketAction::Remove
        }
    } else {
        SocketAction::Nothing
    }
}

/// What the daemon tells of itself in the handshake.
#[derive(Debug, Clone, Copy, PartialEq, Eq, Structural)]
pub struct DaemonIdentity {
    pub store_generation: StoreGeneration,
    pub protocol_version: u32,
}

} // verus!
