//! How to reach a daemon, and how to pace the watch over its delegations.
use vstd::prelude::*;
use vstd::string::*;
use crate::records;
use crate::text;

verus! {

/// How the watch over delegation results is paced, in milliseconds.
#[derive(Debug, Clone, Copy)]
pub struct PollConfig {
    /// Between scans while tasks are pending.
    pub interval_ms: u64,
    /// Between scans once tasks have been pending for half a minute.
    pub settle_backoff_ms: u64,
    /// After how long a task that has not ended is reported as lost.
    pub stale_after_ms: u64,
}

impl Default for PollConfig {
    fn default() -> (poll: PollConfig)
        ensures
            poll == (PollConfig {
                interval_ms: 500,
                settle_backoff_ms: 2_000,
                stale_after_ms: 900_000,
            }),
    {
        PollConfig { interval_ms: 500, settle_backoff_ms: 2_000, stale_after_ms: 900_000 }
    }
}

/// What is needed to connect.
#[derive(Debug)]
pub struct ZeroclawLmConfig {
    /// The daemon's socket. `None` looks it up in the environment.
    pub socket_path: Option<String>,
    /// The agent the session runs as.
    pub agent_alias: String,
    /// A stable session to attach to again. `None` makes up a fresh one each run.
    pub session_id: Option<String>,
    /// Whether the daemon leaves semantic memory out.
    pub exclude_memory: bool,
    /// Whether the daemon's tool calls are shown. They are never dispatched: the daemon
    /// carries them out itself.
    pub surface_tool_calls: bool,
    /// How delegations are watched.
    pub poll: PollConfig,
}

/// `name` under the directory `base`.
pub open spec fn joined(base: Seq<char>, name: Seq<char>) -> Seq<char> {
    if base.len() == 0 || base.last() == '/' {
        base + name
    } else {
        base.push('/') + name
    }
}

/// `name` under the directory `base`.
fn join(base: &str, name: &str) -> (path: String)
    ensures
        path@ == joined(base@, name@),
{
    let mut path = base.to_owned();
    let chars = text::chars_of(base);
    if chars.len() > 0 && chars[chars.len() - 1] != '/' {
        path.push('/');
    }
    path.append(name);
    path
}

/// An environment variable that is set and not blank.
pub open spec fn set_variable(value: Option<Seq<char>>) -> Option<Seq<char>> {
    match value {
        Some(value) => if text::trimmed(value).len() > 0 {
            Some(value)
        } else {
            None
        },
        None => None,
    }
}

/// Where the socket is.
#[derive(Debug)]
pub enum SocketPlace {
    /// At this path.
    At(String),
    /// At this path under the home directory.
    UnderHome(String),
}

/// What a [`SocketPlace`] says.
pub enum PlaceModel {
    At(Seq<char>),
    UnderHome(Seq<char>),
}

impl View for SocketPlace {
    type V = PlaceModel;

    open spec fn view(&self) -> PlaceModel {
        match self {
            SocketPlace::At(path) => PlaceModel::At(path@),
            SocketPlace::UnderHome(path) => PlaceModel::UnderHome(path@),
        }
    }
}

/// The socket's place: the explicit one, else the one the environment names, else `daemon.sock`
/// in the data directory under the configuration directory, which is the one the
/// environment names or `.zeroclaw` under the home directory.
pub open spec fn place_of(
    config: ZeroclawLmConfig,
    socket_variable: Option<Seq<char>>,
    config_dir_variable: Option<Seq<char>>,
) -> PlaceModel {
    match config.socket_path {
        Some(path) => PlaceModel::At(path@),
        None => match set_variable(socket_variable) {
            Some(path) => PlaceModel::At(path),
            None => match set_variable(config_dir_variable) {
                Some(dir) => PlaceModel::At(joined(joined(dir, "data"@), "daemon.sock"@)),
                None => PlaceModel::UnderHome(".zeroclaw/data/daemon.sock"@),
            },
        },
    }
}

/// The path of a place, with the home directory.
pub open spec fn path_of(place: PlaceModel, home: Option<Seq<char>>) -> Seq<char> {
    match (place, home) {
        (PlaceModel::At(path), _) => path,
        (PlaceModel::UnderHome(path), Some(home)) => joined(home, path),
        (PlaceModel::UnderHome(path), None) => path,
    }
}

impl ZeroclawLmConfig {
    /// A configuration for `agent_alias`: the socket from the environment, a session made
    /// up each run, memory on, tool calls shown.
    pub fn new(agent_alias: &str) -> (config: ZeroclawLmConfig)
        ensures
            config.socket_path is None,
            config.agent_alias@ == agent_alias@,
            config.session_id is None,
            !config.exclude_memory,
            config.surface_tool_calls,
            config.poll == (PollConfig {
                interval_ms: 500,
                settle_backoff_ms: 2_000,
                stale_after_ms: 900_000,
            }),
    {
        ZeroclawLmConfig {
            socket_path: None,
            agent_alias: agent_alias.to_owned(),
            session_id: None,
            exclude_memory: false,
            surface_tool_calls: true,
            poll: PollConfig::default(),
        }
    }

    /// Sets the daemon's socket.
    #[must_use]
    pub fn with_socket_path(self, path: &str) -> (config: ZeroclawLmConfig)
        ensures
            config.socket_path matches Some(set) && set@ == path@,
            config == (ZeroclawLmConfig { socket_path: config.socket_path, ..self }),
    {
        ZeroclawLmConfig { socket_path: Some(path.to_owned()), ..self }
    }

    /// Sets a stable session.
    #[must_use]
    pub fn with_session_id(self, session_id: &str) -> (config: ZeroclawLmConfig)
        ensures
            config.session_id matches Some(set) && set@ == session_id@,
            config == (ZeroclawLmConfig { session_id: config.session_id, ..self }),
    {
        ZeroclawLmConfig { session_id: Some(session_id.to_owned()), ..self }
    }

    /// Leaves semantic memory out, or not.
    #[must_use]
    pub fn with_exclude_memory(self, exclude: bool) -> (config: ZeroclawLmConfig)
        ensures
            config == (ZeroclawLmConfig { exclude_memory: exclude, ..self }),
    {
        ZeroclawLmConfig { exclude_memory: exclude, ..self }
    }

    /// Shows tool calls, or not.
    #[must_use]
    pub fn with_surface_tool_calls(self, surface: bool) -> (config: ZeroclawLmConfig)
        ensures
            config == (ZeroclawLmConfig { surface_tool_calls: surface, ..self }),
    {
        ZeroclawLmConfig { surface_tool_calls: surface, ..self }
    }

    /// Sets how delegations are watched.
    #[must_use]
    pub fn with_poll(self, poll: PollConfig) -> (config: ZeroclawLmConfig)
        ensures
            config == (ZeroclawLmConfig { poll, ..self }),
    {
        ZeroclawLmConfig { poll, ..self }
    }

    /// Where the socket to dial is, with the values of `$ZEROCLAW_SOCKET` and
    /// `$ZEROCLAW_CONFIG_DIR`.
    pub fn socket_place(&self, socket_variable: Option<&str>, config_dir_variable: Option<&str>) -> (
    place: SocketPlace)
        ensures
            place@ == place_of(
                *self,
                records::optional_str(socket_variable),
                records::optional_str(config_dir_variable),
            ),
    {
        match &self.socket_path {
            Some(path) => {
                return SocketPlace::At(path.clone());
            },
            None => {},
        }
        match socket_variable {
            Some(path) => if !text::is_blank(path) {
                return SocketPlace::At(path.to_owned());
            },
            None => {},
        }
        match config_dir_variable {
            Some(dir) => if !text::is_blank(dir) {
                return SocketPlace::At(join(join(dir, "data").as_str(), "daemon.sock"));
            },
            None => {},
        }
        SocketPlace::UnderHome(".zeroclaw/data/daemon.sock".to_owned())
    }

    /// The socket to dial, with the values of `$ZEROCLAW_SOCKET`, `$ZEROCLAW_CONFIG_DIR`
    /// and `$HOME`.
    pub fn resolve_socket_path(
        &self,
        socket_variable: Option<&str>,
        config_dir_variable: Option<&str>,
        home: Option<&str>,
    ) -> (path: String)
        ensures
            path@ == path_of(
                place_of(
                    *self,
                    records::optional_str(socket_variable),
                    records::optional_str(config_dir_variable),
                ),
                records::optional_str(home),
            ),
    {
        match (self.socket_place(socket_variable, config_dir_variable), home) {
            (SocketPlace::At(path), _) => path,
            (SocketPlace::UnderHome(path), Some(home)) => join(home, path.as_str()),
            (SocketPlace::UnderHome(path), None) => path,
        }
    }
}

/// Why connecting failed.
#[derive(Debug)]
pub enum ZeroclawLmBuildError {
    /// The socket could not be dialed.
    Dial(String),
    /// The handshake failed or took too long.
    Handshake(String),
    /// The session was refused.
    Session(String),
}

/// What a [`ZeroclawLmBuildError`] says.
pub enum BuildErrorModel {
    Dial(Seq<char>),
    Handshake(Seq<char>),
    Session(Seq<char>),
}

impl View for ZeroclawLmBuildError {
    type V = BuildErrorModel;

    open spec fn view(&self) -> BuildErrorModel {
        match self {
            ZeroclawLmBuildError::Dial(message) => BuildErrorModel::Dial(message@),
            ZeroclawLmBuildError::Handshake(message) => BuildErrorModel::Handshake(message@),
            ZeroclawLmBuildError::Session(message) => BuildErrorModel::Session(message@),
        }
    }
}

/// What an error tells.
pub open spec fn error_text(error: BuildErrorModel) -> Seq<char> {
    match error {
        BuildErrorModel::Dial(message) => "dialing the zeroclaw daemon socket failed: "@ + message,
        BuildErrorModel::Handshake(message) => "zeroclaw daemon handshake failed: "@ + message,
        BuildErrorModel::Session(message) => "zeroclaw session bootstrap failed: "@ + message,
    }
}

/// That the socket at `path` could not be dialed.
pub fn dial_failed(path: &str, error: &str) -> (failure: ZeroclawLmBuildError)
    ensures
        failure@ == BuildErrorModel::Dial(path@ + ": "@ + error@),
{
    let mut message = path.to_owned();
    message.append(": ");
    message.append(error);
    ZeroclawLmBuildError::Dial(message)
}

impl ZeroclawLmBuildError {
    /// What the error tells.
    pub fn message(&self) -> (text: String)
        ensures
            text@ == error_text(self@),
    {
        let (mut text, message) = match self {
            ZeroclawLmBuildError::Dial(message) => (
                "dialing the zeroclaw daemon socket failed: ".to_owned(),
                message,
            ),
            ZeroclawLmBuildError::Handshake(message) => (
                "zeroclaw daemon handshake failed: ".to_owned(),
                message,
            ),
            ZeroclawLmBuildError::Session(message) => (
                "zeroclaw session bootstrap failed: ".to_owned(),
                message,
            ),
        };
        text.append(message.as_str());
        text
    }
}

/// The socket is where it was said to be: explicitly first, by its own variable next,
/// and under the configuration directory last. A blank variable is as good as none.
pub proof fn the_socket_is_where_it_was_said_to_be(
    config: ZeroclawLmConfig,
    socket_variable: Option<Seq<char>>,
    config_dir_variable: Option<Seq<char>>,
    home: Seq<char>,
    value: Seq<char>,
)
    ensures
        config.socket_path matches Some(path) ==> place_of(
            config,
            socket_variable,
            config_dir_variable,
        ) == PlaceModel::At(path@),
        config.socket_path is None && text::trimmed(value).len() > 0 ==> place_of(
            config,
            Some(value),
            config_dir_variable,
        ) == PlaceModel::At(value),
        text::trimmed(value).len() == 0 ==> place_of(config, Some(value), config_dir_variable)
            == place_of(config, None, config_dir_variable),
        text::trimmed(value).len() == 0 ==> place_of(config, socket_variable, Some(value))
            == place_of(config, socket_variable, None),
        config.socket_path is None && text::trimmed(value).len() > 0 && value.last() != '/'
            ==> place_of(config, None, Some(value)) == PlaceModel::At(
            value + "/data/daemon.sock"@,
        ),
        config.socket_path is None && home.len() > 0 && home.last() != '/' ==> path_of(
            place_of(config, None, None),
            Some(home),
        ) == home + "/.zeroclaw/data/daemon.sock"@,
        path_of(PlaceModel::At(value), Some(home)) == value,
        path_of(PlaceModel::At(value), None) == value,
{
    reveal_strlit("data");
    assert("data"@.len() == 4);
    reveal_strlit("daemon.sock");
    assert("daemon.sock"@.len() == 11);
    reveal_strlit("/data/daemon.sock");
    assert("/data/daemon.sock"@.len() == 17);
    reveal_strlit(".zeroclaw/data/daemon.sock");
    assert(".zeroclaw/data/daemon.sock"@.len() == 26);
    reveal_strlit("/.zeroclaw/data/daemon.sock");
    assert("/.zeroclaw/data/daemon.sock"@.len() == 27);
    if text::trimmed(value).len() > 0 {
        if value.len() == 0 {
            assert(text::trimmed(value).len() == 0);
        }
        if value.last() != '/' {
            assert(joined(value, "data"@).last() == 'a');
            assert(joined(joined(value, "data"@), "daemon.sock"@) =~= value
                + "/data/daemon.sock"@);
        }
    }
    if home.len() > 0 && home.last() != '/' {
        assert(joined(home, ".zeroclaw/data/daemon.sock"@) =~= home
            + "/.zeroclaw/data/daemon.sock"@);
    }
}

/// An error says what failed and then why.
pub proof fn errors_end_with_the_reason(message: Seq<char>)
    ensures
        error_text(BuildErrorModel::Dial(message))
            == "dialing the zeroclaw daemon socket failed: "@ + message,
        error_text(BuildErrorModel::Handshake(message)) == "zeroclaw daemon handshake failed: "@
            + message,
        error_text(BuildErrorModel::Session(message)) == "zeroclaw session bootstrap failed: "@
            + message,
        message.is_suffix_of(error_text(BuildErrorModel::Dial(message))),
        message.is_suffix_of(error_text(BuildErrorModel::Handshake(message))),
        message.is_suffix_of(error_text(BuildErrorModel::Session(message))),
{
    let dial = error_text(BuildErrorModel::Dial(message));
    let handshake = error_text(BuildErrorModel::Handshake(message));
    let session = error_text(BuildErrorModel::Session(message));
    assert(dial.subrange(dial.len() - message.len(), dial.len() as int) =~= message);
    assert(handshake.subrange(handshake.len() - message.len(), handshake.len() as int)
        =~= message);
    assert(session.subrange(session.len() - message.len(), session.len() as int) =~= message);
}

} // verus!
