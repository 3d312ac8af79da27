//! Settings of a sync process.

use crate::path::SyncPath;
use vstd::prelude::*;
use vstd::string::{StrSliceExecFns, StringExecFns};

verus! {

/// How a conflict between a local and a remote change is resolved.
#[derive(Clone, Copy, Debug, PartialEq, Eq, Structural)]
pub enum ConflictStrategy {
    /// The newer change wins, by timestamp.
    LastWriteWins,
    /// The local copy is renamed to `<name>.local.<extension>` and the remote
    /// version is accepted.
    KeepBoth,
}

/// Which side of a sync pair a process is.
#[derive(Clone, Copy, Debug, PartialEq, Eq, Structural)]
pub enum Role {
    /// The first process, which creates the shared-memory segment.
    Host,
    /// The second process, which connects to the segment of the host.
    Join,
}

/// Settings of a sync process.
#[derive(Debug)]
pub struct Cli {
    /// Which side of the pair the process is.
    pub role: Role,
    /// Directory to monitor and sync.
    pub input: SyncPath,
    /// Shared memory segment name; the same for both processes.
    pub shm_name: String,
    /// Shared memory size in bytes.
    pub shm_size: usize,
    /// How often verbose output was asked for.
    pub verbose: u8,
    /// Conflict resolution strategy.
    pub conflict: ConflictStrategy,
    /// How long changes are collected before they are sent, in milliseconds.
    pub debounce_ms: u64,
    /// Directories to ignore.
    pub ignore: Vec<String>,
}

/// Shared memory segment name, unless another is given.
pub const DEFAULT_SHM_NAME: &'static str = "dirsync_shm";

/// Shared memory size in bytes, unless another is given.
pub const DEFAULT_SHM_SIZE: usize = 67108864;

/// How long changes are collected, unless otherwise given.
pub const DEFAULT_DEBOUNCE_MS: u64 = 100;

/// How much is logged.
#[derive(Clone, Copy, Debug, PartialEq, Eq, Structural)]
pub enum LogLevel {
    Info,
    Debug,
    Trace,
}

/// Why a directory cannot be synchronised.
#[derive(Clone, Copy, Debug, PartialEq, Eq, Structural)]
pub enum InputError {
    /// It does not exist.
    Missing,
    /// It is not a directory.
    NotADirectory,
}

/// How a system names shared memory segments.
#[derive(Clone, Copy, Debug, PartialEq, Eq, Structural)]
pub enum NameStyle {
    /// With a leading slash, as POSIX asks for.
    Posix,
    /// Without one, since it would become a part of the name.
    Windows,
}

/// A text without its leading slashes.
pub open spec fn without_slashes(name: Seq<char>) -> Seq<char>
    decreases name.len(),
{
    if name.len() > 0 && name[0] == '/' {
        without_slashes(name.skip(1))
    } else {
        name
    }
}

/// The name of a shared memory segment as the system takes it.
pub open spec fn system_name(style: NameStyle, name: Seq<char>) -> Seq<char> {
    match style {
        NameStyle::Posix => if name.len() > 0 && name[0] == '/' {
            name
        } else {
            seq!['/'] + name
        },
        NameStyle::Windows => without_slashes(name),
    }
}

/// The name of a shared memory segment as the system takes it.
pub fn normalize_shm_name(style: NameStyle, name: &str) -> (normalized: String)
    ensures
        normalized@ == system_name(style, name@),
{
    let len: usize = name.unicode_len();
    match style {
        NameStyle::Posix => {
            if len > 0 && name.get_char(0) == '/' {
                return String::from_str(name);
            }
            proof {
                reveal_strlit("/");
            }
            let mut normalized = String::from_str("/");
            normalized.append(name);
            assert(normalized@ =~= seq!['/'] + name@);
            normalized
        },
        NameStyle::Windows => {
            let mut from: usize = 0;
            assert(name@.skip(0) =~= name@);
            while from < len && name.get_char(from) == '/'
                invariant
                    from <= len,
                    len == name@.len(),
                    without_slashes(name@) == without_slashes(name@.skip(from as int)),
                decreases len - from,
            {
                assert(name@.skip(from as int).skip(1) =~= name@.skip(from + 1));
                from += 1;
            }
            assert(name@.subrange(from as int, len as int) =~= name@.skip(from as int));
            String::from_str(name.substring_char(from, len))
        },
    }
}

/// How much is logged, by how often verbose output was asked for.
pub fn log_level(verbose: u8) -> (level: LogLevel)
    ensures
        level == (if verbose == 0 {
            LogLevel::Info
        } else if verbose == 1 {
            LogLevel::Debug
        } else {
            LogLevel::Trace
        }),
{
    match verbose {
        0 => LogLevel::Info,
        1 => LogLevel::Debug,
        _ => LogLevel::Trace,
    }
}

/// Checks the directory to sync, of which it is known whether it exists and
/// whether it is a directory.
pub fn check_input(exists: bool, is_dir: bool) -> (checked: Result<(), InputError>)
    ensures
        checked == (if !exists {
            Err::<(), InputError>(InputError::Missing)
        } else if !is_dir {
            Err(InputError::NotADirectory)
        } else {
            Ok(())
        }),
{
    if !exists {
        return Err(InputError::Missing);
    }
    if !is_dir {
        return Err(InputError::NotADirectory);
    }
    Ok(())
}

/// On either system a name is normalized once and for all, and names that
/// differ only in a leading slash name the same segment.
pub proof fn law_normalized_names(style: NameStyle, name: Seq<char>)
    ensures
        system_name(style, system_name(style, name)) == system_name(style, name),
        name.len() > 0 && name[0] != '/' ==> system_name(style, seq!['/'] + name) == system_name(
            style,
            name,
        ),
{
    lemma_without_slashes(name);
    let slashed = seq!['/'] + name;
    assert(slashed.skip(1) =~= name);
    assert(without_slashes(slashed) == without_slashes(name));
}

proof fn lemma_without_slashes(name: Seq<char>)
    ensures
        without_slashes(name).len() == 0 || without_slashes(name)[0] != '/',
    decreases name.len(),
{
    if name.len() > 0 && name[0] == '/' {
        lemma_without_slashes(name.skip(1));
    }
}

} // verus!
