//! The settings of a database.

use vstd::prelude::*;

use crate::message::{self, Message};

verus! {

pub const SUPPORTED_CONFIG_VERSION: u32 = 1;

pub const MIN_CACHE_SIZE_MB: u64 = 1;

pub const MAX_CACHE_SIZE_MB: u64 = 1024 * 1024;

pub const BYTES_PER_MB: u64 = 1024 * 1024;

#[derive(Clone, Debug, PartialEq, Eq)]
pub struct Config {
    pub version: u32,
    pub storage: StorageConfig,
    pub durability: DurabilityConfig,
    pub logging: LoggingConfig,
}

#[derive(Clone, Debug, PartialEq, Eq)]
pub struct StorageConfig {
    pub path: String,
    pub cache_size_mb: u64,
    pub create_if_missing: bool,
    pub read_only: bool,
}

#[derive(Clone, Copy, Debug, PartialEq, Eq, Structural)]
pub struct DurabilityConfig {
    pub sync_on_commit: bool,
    pub page_checksums: bool,
}

#[derive(Clone, Copy, Debug, PartialEq, Eq, Structural)]
pub struct LoggingConfig {
    pub level: LogLevel,
}

#[derive(Clone, Copy, Debug, PartialEq, Eq, Structural)]
pub enum LogLevel {
    Error,
    Warn,
    Info,
    Debug,
    Trace,
}

/// Why settings cannot be used.
pub enum ConfigFault {
    Read { path: Seq<char>, source: Seq<char> },
    Parse { path: Seq<char>, source: Seq<char> },
    UnsupportedVersion { found: u32, supported: u32 },
    InvalidValue { field: &'static str, reason: Seq<char> },
}

impl Config {
    /// What is wrong with the settings; `None` where they can be used.
    pub open spec fn fault(self) -> Option<ConfigFault> {
        if self.version != SUPPORTED_CONFIG_VERSION {
            Some(
                ConfigFault::UnsupportedVersion {
                    found: self.version,
                    supported: SUPPORTED_CONFIG_VERSION,
                },
            )
        } else if self.storage.path@.len() == 0 {
            Some(
                ConfigFault::InvalidValue { field: "storage.path", reason: "must not be empty"@ },
            )
        } else if !(MIN_CACHE_SIZE_MB <= self.storage.cache_size_mb <= MAX_CACHE_SIZE_MB) {
            Some(
                ConfigFault::InvalidValue {
                    field: "storage.cache_size_mb",
                    reason: "must be between 1 and 1048576 MiB"@,
                },
            )
        } else if self.storage.read_only && self.storage.create_if_missing {
            Some(
                ConfigFault::InvalidValue {
                    field: "storage.create_if_missing",
                    reason: "cannot be true when storage.read_only is true"@,
                },
            )
        } else {
            None
        }
    }

    /// Checks that the settings can be used.
    pub fn validate(&self) -> (result: Result<(), ConfigError>)
        ensures
            match self.fault() {
                Some(fault) => result matches Err(error) && error@ == fault,
                None => result is Ok,
            },
    {
        if self.version != SUPPORTED_CONFIG_VERSION {
            return Err(
                ConfigError::UnsupportedVersion {
                    found: self.version,
                    supported: SUPPORTED_CONFIG_VERSION,
                },
            );
        }
        if is_empty(self.storage.path.as_str()) {
            return Err(
                ConfigError::InvalidValue {
                    field: "storage.path",
                    reason: "must not be empty".to_owned(),
                },
            );
        }
        if !(MIN_CACHE_SIZE_MB <= self.storage.cache_size_mb && self.storage.cache_size_mb
            <= MAX_CACHE_SIZE_MB) {
            return Err(
                ConfigError::InvalidValue {
                    field: "storage.cache_size_mb",
                    reason: "must be between 1 and 1048576 MiB".to_owned(),
                },
            );
        }
        if self.storage.read_only && self.storage.create_if_missing {
            return Err(
                ConfigError::InvalidValue {
                    field: "storage.create_if_missing",
                    reason: "cannot be true when storage.read_only is true".to_owned(),
                },
            );
        }
        Ok(())
    }

    pub fn cache_size_bytes(&self) -> (size: u64)
        requires
            self.storage.cache_size_mb * BYTES_PER_MB <= u64::MAX,
        ensures
            size == self.storage.cache_size_mb * BYTES_PER_MB,
    {
        self.storage.cache_size_mb * BYTES_PER_MB
    }

    /// Resolves a relative database path against the directory of the settings
    /// file. Of paths that platforms read in different ways, such as a database path
    /// with a drive, it is left open what comes of them.
    pub fn resolve_storage_path(&mut self, config_path: &str)
        ensures
            is_joinable(old(self).storage.path@) && (config_path@.len() == 0 || is_plain_path(
                config_path@,
            )) ==> is_resolved(
                final(self).storage.path@,
                base_of(config_path@),
                old(self).storage.path@,
            ),
            final(self).version == old(self).version,
            final(self).storage == (StorageConfig {
                path: final(self).storage.path,
                ..old(self).storage
            }),
            final(self).durability == old(self).durability,
            final(self).logging == old(self).logging,
    {
        proof {
            reveal_strlit(".");
            assert("."@ =~= seq!['.']);
            if is_plain_path(config_path@) {
                lemma_directory(config_path@, config_path@.len() as int);
                assert(config_path@.take(config_path@.len() as int) =~= config_path@);
            }
        }
        let absolute = is_absolute(self.storage.path.as_str());
        let directory = base_directory(parent_directory(config_path));
        let joined = join_path(directory.as_str(), self.storage.path.as_str());
        self.place_storage(absolute, joined);
    }

    /// Takes `joined` for the database path, unless the path is absolute.
    pub fn place_storage(&mut self, absolute: bool, joined: String)
        ensures
            final(self).version == old(self).version,
            final(self).storage == (StorageConfig {
                path: if absolute {
                    old(self).storage.path
                } else {
                    joined
                },
                ..old(self).storage
            }),
            final(self).durability == old(self).durability,
            final(self).logging == old(self).logging,
    {
        if !absolute {
            self.storage.path = joined;
        }
    }
}

/// The directory that relative paths are resolved against: that of the settings
/// file, or the current one where it has none.
pub fn base_directory(parent: Option<String>) -> (directory: String)
    ensures
        directory@ == match parent {
            Some(parent) => parent@,
            None => "."@,
        },
{
    match parent {
        Some(parent) => parent,
        None => ".".to_owned(),
    }
}

fn is_empty(text: &str) -> (empty: bool)
    ensures
        empty == (text@.len() == 0),
{
    proof {
        vstd::utf8::encode_utf8_decode_utf8(text@);
        vstd::utf8::encode_utf8_decode_utf8(Seq::<char>::empty());
        if vstd::utf8::encode_utf8(text@).len() == 0 {
            assert(vstd::utf8::encode_utf8(text@) =~= vstd::utf8::encode_utf8(
                Seq::<char>::empty(),
            ));
        } else if text@.len() == 0 {
            assert(text@ =~= Seq::<char>::empty());
        }
    }
    text.as_bytes().len() == 0
}

/// Settings that can be used have a cache size that fits.
pub proof fn usable_configs_have_a_cache_size(config: Config)
    requires
        config.fault() is None,
    ensures
        BYTES_PER_MB <= config.storage.cache_size_mb * BYTES_PER_MB <= u64::MAX,
{
}

/// Whether every platform reads the path in the same way: as names with a slash
/// between them, maybe after a slash at the start. It has no drive, no other
/// separator, and no name behind a slash that is empty or a single dot.
pub open spec fn is_plain_path(path: Seq<char>) -> bool {
    &&& path.len() > 0
    &&& path.last() != '/'
    &&& has_plain_names(path)
}

pub open spec fn has_plain_names(path: Seq<char>) -> bool {
    &&& forall|i: int| 0 <= i < path.len() ==> #[trigger] path[i] != '\\' && path[i] != ':'
    &&& forall|i: int, j: int|
        0 <= i < path.len() && #[trigger] path[i] == '/' && j == i + 1 && j < path.len()
            ==> #[trigger] path[j] != '/' && !(path[j] == '.' && (j + 1 == path.len() || path[j + 1]
            == '/'))
}

/// What stands before the last slash of a path; for the slash at its start, that
/// slash.
pub open spec fn directory_of(path: Seq<char>) -> Seq<char>
    decreases path.len(),
{
    if path.len() == 0 {
        path
    } else if path.last() != '/' {
        directory_of(path.drop_last())
    } else if path.len() == 1 {
        path
    } else {
        path.drop_last()
    }
}

/// Whether every platform reads the path as a directory in the same way.
pub open spec fn is_plain_directory(path: Seq<char>) -> bool {
    path.len() == 0 || path == seq!['/'] || is_plain_path(path)
}

/// The directory of a settings file with this name: the current one where the name
/// is empty.
pub open spec fn base_of(config_path: Seq<char>) -> Seq<char> {
    if config_path.len() == 0 {
        seq!['.']
    } else {
        directory_of(config_path)
    }
}

/// Whether every platform joins the path to a plain directory in the same way: it
/// has no drive, and no separator at its start but a single slash.
pub open spec fn is_joinable(path: Seq<char>) -> bool {
    &&& path.len() > 0
    &&& path[0] != '\\'
    &&& path[0] == '/' && path.len() > 1 ==> path[1] != '/' && path[1] != '\\'
    &&& !path.contains(':')
}

/// Whether `resolved` is the path, taken from the directory: a path that starts
/// with a slash stays, and another one follows the directory and the separator of
/// the platform.
pub open spec fn is_resolved(resolved: Seq<char>, directory: Seq<char>, path: Seq<char>) -> bool {
    if path[0] == '/' || directory.len() == 0 {
        resolved == path
    } else if directory.last() == '/' {
        resolved == directory + path
    } else {
        ||| resolved == directory.push('/') + path
        ||| resolved == directory.push('\\') + path
    }
}

/// The directory of a path with plain names, or of its first `count` characters, is
/// a plain one.
proof fn lemma_directory(path: Seq<char>, count: int)
    requires
        has_plain_names(path),
        0 <= count <= path.len(),
    ensures
        is_plain_directory(directory_of(path.take(count))),
    decreases count,
{
    let start = path.take(count);
    if count > 0 {
        let shorter = path.take(count - 1);
        assert(start.drop_last() =~= shorter);
        if path[count - 1] != '/' {
            lemma_directory(path, count - 1);
        } else if count == 1 {
            assert(start =~= seq!['/']);
        } else {
            assert(path[count - 1] == '/');
            assert(path[count - 2] != '/');
            assert forall|i: int| 0 <= i < shorter.len() implies #[trigger] shorter[i] != '\\'
                && shorter[i] != ':' by {
                assert(shorter[i] == path[i]);
            }
            assert forall|i: int, j: int|
                0 <= i < shorter.len() && #[trigger] shorter[i] == '/' && j == i + 1 && j
                    < shorter.len() implies #[trigger] shorter[j] != '/' && !(shorter[j] == '.' && (
            j + 1 == shorter.len() || shorter[j + 1] == '/')) by {
                assert(path[i] == '/' && path[j] == shorter[j]);
            }
        }
    }
}

/// Calls `std::path::Path::is_absolute`. An absolute path starts with the root, on
/// Windows after a prefix, so a path without drive that starts with no separator is
/// not absolute. Of other paths nothing is claimed, as the rule depends on the
/// platform.
#[verifier::external_body]
fn is_absolute(path: &str) -> (absolute: bool)
    ensures
        is_joinable(path@) && path@[0] != '/' ==> !absolute,
{
    std::path::Path::new(path).is_absolute()
}

/// Calls `std::path::Path::parent`, which gives the path without its final
/// component: nothing for the empty path, the empty path where there is one
/// component, and for a plain path what stands before its last slash. Of other
/// paths nothing is claimed, as the components depend on the platform.
#[verifier::external_body]
fn parent_directory(path: &str) -> (parent: Option<String>)
    ensures
        path@.len() == 0 ==> parent is None,
        is_plain_path(path@) ==> parent is Some && parent->0@ == directory_of(path@),
{
    std::path::Path::new(path).parent().map(|parent| parent.to_string_lossy().into_owned())
}

/// Calls `std::path::Path::join`, which extends the directory by a relative path,
/// with the separator of the platform where one is missing. A path with a root
/// replaces the directory but for its prefix, and a plain directory has none. Of
/// other paths nothing is claimed, as their reading depends on the platform.
#[verifier::external_body]
fn join_path(directory: &str, path: &str) -> (joined: String)
    ensures
        is_plain_directory(directory@) && is_joinable(path@) ==> is_resolved(
            joined@,
            directory@,
            path@,
        ),
{
    std::path::Path::new(directory).join(path).to_string_lossy().into_owned()
}

#[derive(Clone, Debug, PartialEq, Eq)]
pub enum ConfigError {
    /// The settings file could not be read, for the reason that the system gave.
    Read { path: String, source: String },
    /// The settings file is no valid YAML, for the reason that the parser gave.
    Parse { path: String, source: String },
    UnsupportedVersion { found: u32, supported: u32 },
    InvalidValue { field: &'static str, reason: String },
}

impl View for ConfigError {
    type V = ConfigFault;

    open spec fn view(&self) -> ConfigFault {
        match *self {
            ConfigError::Read { path, source } => {
                ConfigFault::Read { path: path@, source: source@ }
            },
            ConfigError::Parse { path, source } => {
                ConfigFault::Parse { path: path@, source: source@ }
            },
            ConfigError::UnsupportedVersion { found, supported } => {
                ConfigFault::UnsupportedVersion { found, supported }
            },
            ConfigError::InvalidValue { field, reason } => {
                ConfigFault::InvalidValue { field, reason: reason@ }
            },
        }
    }
}

impl ConfigFault {
    pub open spec fn text(self) -> Seq<char> {
        match self {
            ConfigFault::Read { path, source } => "failed to read "@ + path + ": "@ + source,
            ConfigFault::Parse { path, source } => "invalid YAML in "@ + path + ": "@ + source,
            ConfigFault::UnsupportedVersion { found, supported } => {
                "unsupported configuration version "@ + message::decimal(found as int)
                    + "; North supports version "@ + message::decimal(supported as int)
            },
            ConfigFault::InvalidValue { field, reason } => "invalid "@ + field@ + ": "@ + reason,
        }
    }
}

impl ConfigError {
    /// What went wrong, for people to read.
    pub fn message(&self) -> (message: String)
        ensures
            message@ == self@.text(),
    {
        match self {
            Self::Read { path, source } => Message::new("failed to read ").text(
                path.as_str(),
            ).text(": ").text(source.as_str()).finish(),
            Self::Parse { path, source } => Message::new("invalid YAML in ").text(
                path.as_str(),
            ).text(": ").text(source.as_str()).finish(),
            Self::UnsupportedVersion { found, supported } => Message::new(
                "unsupported configuration version ",
            ).number(*found as u64).text("; North supports version ").number(
                *supported as u64,
            ).finish(),
            Self::InvalidValue { field, reason } => Message::new("invalid ").text(field).text(
                ": ",
            ).text(reason.as_str()).finish(),
        }
    }
}

/// Settings can be used where they have version 1, a path, a cache size from 1 to
/// 1048576 MiB, and do not ask to create a file that is only to be read; and no
/// others.
pub proof fn usable_configs(config: Config)
    ensures
        config.fault() is None <==> {
            &&& config.version == 1
            &&& config.storage.path@.len() > 0
            &&& 1 <= config.storage.cache_size_mb <= 1048576
            &&& !(config.storage.read_only && config.storage.create_if_missing)
        },
{
}

/// What is said of settings that cannot be used names the first thing that is wrong:
/// version, path, cache size, and the two flags that exclude each other.
pub proof fn config_faults_are_true(config: Config)
    ensures
        config.version != 1 ==> config.fault() == Some(
            ConfigFault::UnsupportedVersion { found: config.version, supported: 1 },
        ),
        config.version == 1 ==> {
            let storage = config.storage;
            let empty = storage.path@.len() == 0;
            let outside = storage.cache_size_mb < 1 || storage.cache_size_mb > 1048576;
            &&& empty ==> config.fault() == Some(
                ConfigFault::InvalidValue { field: "storage.path", reason: "must not be empty"@ },
            )
            &&& !empty && outside ==> config.fault() == Some(
                ConfigFault::InvalidValue {
                    field: "storage.cache_size_mb",
                    reason: "must be between 1 and 1048576 MiB"@,
                },
            )
            &&& !empty && !outside && storage.read_only && storage.create_if_missing
                ==> config.fault() == Some(
                ConfigFault::InvalidValue {
                    field: "storage.create_if_missing",
                    reason: "cannot be true when storage.read_only is true"@,
                },
            )
        },
{
}

/// Whether the path is this name, which has no slash in it, in that directory.
pub open spec fn lies_in(path: Seq<char>, directory: Seq<char>, name: Seq<char>) -> bool {
    &&& name.len() > 0
    &&& !name.contains('/')
    &&& path == directory.push('/') + name || (directory == seq!['/'] && path == directory + name)
}

/// The directory of a path is what stands before its last slash: with the slash and a
/// name behind it, it is the path again. A path without slashes has the empty
/// directory, and a name in the root has the root.
pub proof fn directories_are_followed_by_names(path: Seq<char>)
    requires
        path.len() > 0,
        path.last() != '/',
    ensures
        !path.contains('/') ==> directory_of(path) == Seq::<char>::empty(),
        path.contains('/') ==> exists|name: Seq<char>| #[trigger]
            lies_in(path, directory_of(path), name),
{
    lemma_name_follows(path, path.len() as int);
    assert(path.take(path.len() as int) =~= path);
    if path.contains('/') {
        let i = choose|i: int| 0 <= i < path.len() && path[i] == '/';
        assert(path[i] == '/');
    }
}

/// The directory of a path whose characters from `count` on are no slashes.
proof fn lemma_name_follows(path: Seq<char>, count: int)
    requires
        path.len() > 0,
        path.last() != '/',
        0 <= count <= path.len(),
        forall|i: int| count <= i < path.len() ==> #[trigger] path[i] != '/',
    ensures
        !path.contains('/') ==> directory_of(path.take(count)) == Seq::<char>::empty(),
        path.contains('/') ==> exists|name: Seq<char>| #[trigger]
            lies_in(path, directory_of(path.take(count)), name),
    decreases count,
{
    let start = path.take(count);
    if count == 0 {
        assert(start =~= Seq::<char>::empty());
        if path.contains('/') {
            let i = choose|i: int| 0 <= i < path.len() && path[i] == '/';
            assert(path[i] != '/');
        }
    } else {
        assert(start.drop_last() =~= path.take(count - 1));
        assert(start.last() == path[count - 1]);
        if path[count - 1] != '/' {
            lemma_name_follows(path, count - 1);
            assert(directory_of(start) == directory_of(path.take(count - 1)));
            if path.contains('/') {
                let name = choose|name: Seq<char>| #[trigger]
                    lies_in(path, directory_of(path.take(count - 1)), name);
                assert(lies_in(path, directory_of(start), name));
            }
        } else {
            let name = path.skip(count);
            let directory = directory_of(start);
            assert(path.contains('/'));
            assert(!name.contains('/')) by {
                if name.contains('/') {
                    let i = choose|i: int| 0 <= i < name.len() && name[i] == '/';
                    assert(path[count + i] == '/');
                }
            }
            if count == 1 {
                assert(start =~= seq!['/']);
                assert(path =~= start + name);
            } else {
                assert(path =~= directory.push('/') + name);
            }
            assert(lies_in(path, directory, name));
        }
    }
}

/// The directory of a name in a directory is that directory.
proof fn lemma_directory_of_name(directory: Seq<char>, name: Seq<char>)
    requires
        directory.len() > 0,
        !name.contains('/'),
    ensures
        directory_of(directory.push('/') + name) == directory,
    decreases name.len(),
{
    let path = directory.push('/') + name;
    if name.len() == 0 {
        assert(path =~= directory.push('/'));
        assert(path.drop_last() =~= directory);
    } else {
        let shorter = name.drop_last();
        assert(path.last() == name.last());
        assert(name.contains(name.last()));
        assert(!shorter.contains('/')) by {
            if shorter.contains('/') {
                let i = choose|i: int| 0 <= i < shorter.len() && shorter[i] == '/';
                assert(name[i] == '/');
            }
        }
        assert(path.drop_last() =~= directory.push('/') + shorter);
        lemma_directory_of_name(directory, shorter);
    }
}

/// A relative database path is taken from the directory that the settings file lies in,
/// with a separator between them; a path with a root stays as it is.
pub proof fn paths_are_taken_from_the_directory_of_the_settings(
    directory: Seq<char>,
    name: Seq<char>,
    path: Seq<char>,
    resolved: Seq<char>,
)
    requires
        directory.len() > 0,
        directory.last() != '/',
        !name.contains('/'),
        path.len() > 0,
        is_resolved(resolved, base_of(directory.push('/') + name), path),
    ensures
        path[0] == '/' ==> resolved == path,
        path[0] != '/' ==> resolved == directory + seq!['/'] + path || resolved == directory
            + seq!['\\'] + path,
{
    lemma_directory_of_name(directory, name);
    assert(directory.push('/') =~= directory + seq!['/']);
    assert(directory.push('\\') =~= directory + seq!['\\']);
}

/// A relative database path stays as it is where the settings file is named without a
/// directory. Where it is not named at all, the path is taken from the current
/// directory.
pub proof fn paths_stay_without_a_directory(
    name: Seq<char>,
    path: Seq<char>,
    resolved: Seq<char>,
)
    requires
        !name.contains('/'),
        path.len() > 0,
        is_resolved(resolved, base_of(name), path),
    ensures
        name.len() > 0 || path[0] == '/' ==> resolved == path,
        name.len() == 0 && path[0] != '/' ==> resolved == seq!['.', '/'] + path || resolved == seq![
            '.',
            '\\',
        ] + path,
{
    if name.len() > 0 {
        assert(name.contains(name.last()));
        directories_are_followed_by_names(name);
    } else {
        assert(seq!['.'].push('/') =~= seq!['.', '/']);
        assert(seq!['.'].push('\\') =~= seq!['.', '\\']);
    }
}

/// Whether a name is read in the same way everywhere.
pub open spec fn is_plain_name(name: Seq<char>) -> bool {
    &&& name.len() > 0
    &&& name != seq!['.']
    &&& forall|i: int|
        0 <= i < name.len() ==> #[trigger] name[i] != '/' && name[i] != '\\' && name[i] != ':'
}

/// Such a name is a plain path, and a plain path stays one with such a name behind it.
/// It can be joined to a directory.
pub proof fn names_make_plain_paths(path: Seq<char>, name: Seq<char>)
    requires
        is_plain_name(name),
    ensures
        is_plain_path(name),
        is_plain_path(path) ==> is_plain_path(path.push('/') + name),
        is_plain_path(seq!['/'] + name),
        is_joinable(name),
        is_plain_path(path) ==> is_joinable(path),
{
    if name.contains(':') {
        let i = choose|i: int| 0 <= i < name.len() && name[i] == ':';
        assert(name[i] != ':');
    }
    lemma_plain_after_slash(Seq::empty(), name);
    assert(Seq::<char>::empty().push('/') + name =~= seq!['/'] + name);
    if is_plain_path(path) {
        lemma_plain_after_slash(path, name);
        if path.contains(':') {
            let i = choose|i: int| 0 <= i < path.len() && path[i] == ':';
            assert(path[i] != ':');
        }
        assert(path[0] != '\\');
        if path[0] == '/' && path.len() > 1 {
            assert(path[1] != '/' && path[1] != '\\');
        }
    }
}

proof fn lemma_plain_after_slash(path: Seq<char>, name: Seq<char>)
    requires
        path.len() == 0 || is_plain_path(path),
        is_plain_name(name),
    ensures
        is_plain_path(path.push('/') + name),
{
    let whole = path.push('/') + name;
    let start = path.len() + 1;
    assert(whole.last() == name[name.len() - 1]);
    assert forall|i: int| 0 <= i < whole.len() implies #[trigger] whole[i] != '\\' && whole[i]
        != ':' by {
        if i < path.len() {
            assert(whole[i] == path[i]);
        } else if i >= start {
            assert(whole[i] == name[i - start]);
        }
    }
    assert forall|i: int, j: int|
        0 <= i < whole.len() && #[trigger] whole[i] == '/' && j == i + 1 && j
            < whole.len() implies #[trigger] whole[j] != '/' && !(whole[j] == '.' && (j + 1
        == whole.len() || whole[j + 1] == '/')) by {
        if i >= start {
            assert(whole[i] == name[i - start]);
        } else if i == path.len() {
            assert(whole[j] == name[0]);
            if whole[j] == '.' {
                if name.len() == 1 {
                    assert(name =~= seq!['.']);
                } else {
                    assert(whole[j + 1] == name[1]);
                }
            }
        } else {
            assert(whole[i] == path[i]);
            assert(i < path.len() - 1);
            assert(whole[j] == path[j]);
            if j + 1 < path.len() {
                assert(whole[j + 1] == path[j + 1]);
            }
        }
    }
}

} // verus!
