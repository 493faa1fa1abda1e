//! Plain configuration records describing how a debug adapter is reached
//! and started: which adapter to run, whether to launch a program or
//! attach to one, and where a TCP adapter listens. Reading or writing
//! these from disk, and schema generation over them, belong to the host
//! application, not here.

use std::collections::HashMap;
use vstd::prelude::*;

verus! {

/// An IPv4 address, held as its four octets.
#[derive(Clone, Copy, Debug, PartialEq, Eq)]
pub struct Ipv4Address {
    pub octets: [u8; 4],
}

impl Ipv4Address {
    /// The loopback address, the fallback host for a debug adapter.
    pub fn localhost() -> (r: Ipv4Address)
        ensures
            r == (Ipv4Address { octets: [127u8, 0u8, 0u8, 1u8] }),
    {
        Ipv4Address { octets: [127, 0, 0, 1] }
    }
}

/// Host information of a debug adapter reached over TCP.
#[derive(Clone, Copy, Debug, PartialEq, Eq)]
pub struct TCPHost {
    /// The port the adapter listens on; none asks for any open port.
    pub port: Option<u16>,
    /// The host the adapter listens on; none means loopback.
    pub host: Option<Ipv4Address>,
    /// Milliseconds to wait for the TCP connection before reporting an
    /// error; none takes the default.
    pub timeout: Option<u64>,
}

impl TCPHost {
    /// The configured host, or the loopback fallback.
    pub fn host(&self) -> (r: Ipv4Address)
        ensures
            r == match self.host {
                Some(h) => h,
                None => (Ipv4Address { octets: [127u8, 0u8, 0u8, 1u8] }),
            },
    {
        match self.host {
            Some(h) => h,
            None => Ipv4Address::localhost(),
        }
    }
}

impl Default for TCPHost {
    /// Everything left to its fallback.
    fn default() -> (r: TCPHost)
        ensures
            r.port is None,
            r.host is None,
            r.timeout is None,
    {
        TCPHost { port: None, host: None, timeout: None }
    }
}

/// The attach request information of a debug adapter.
#[derive(Clone, Copy, Debug, PartialEq, Eq)]
pub struct AttachConfig {
    /// The process to attach to; none asks the user to pick one.
    pub process_id: Option<u32>,
}

impl Default for AttachConfig {
    /// No process chosen yet.
    fn default() -> (r: AttachConfig)
        ensures
            r.process_id is None,
    {
        AttachConfig { process_id: None }
    }
}

/// Which request starts the session on the debug adapter.
#[derive(Clone, Copy, Debug, PartialEq, Eq)]
pub enum DebugRequestType {
    /// Launch the program under the adapter.
    Launch,
    /// Attach the adapter to a running process.
    Attach(AttachConfig),
}

impl Default for DebugRequestType {
    /// Launching is the default.
    fn default() -> (r: DebugRequestType)
        ensures
            r == DebugRequestType::Launch,
    {
        DebugRequestType::Launch
    }
}

impl DebugRequestType {
    /// The attach configuration of an attach request; a launch request
    /// has none.
    pub fn attach_config(&self) -> (r: Option<AttachConfig>)
        ensures
            r == match self {
                DebugRequestType::Attach(c) => Some(*c),
                DebugRequestType::Launch => None::<AttachConfig>,
            },
    {
        match self {
            DebugRequestType::Attach(config) => Some(*config),
            _ => None,
        }
    }
}

/// How a custom debug adapter is connected to.
#[derive(Clone, Debug, PartialEq, Eq)]
pub enum DebugConnectionType {
    /// Over TCP, at the given host.
    TCP(TCPHost),
    /// Over the adapter process's standard streams.
    STDIO,
}

impl Default for DebugConnectionType {
    /// TCP at the fallback host.
    fn default() -> (r: DebugConnectionType)
        ensures
            r == DebugConnectionType::TCP(
                (TCPHost { port: None, host: None, timeout: None }),
            ),
    {
        DebugConnectionType::TCP(TCPHost::default())
    }
}

/// Arguments that set up a custom debug adapter.
#[derive(Clone, Debug, PartialEq, Eq)]
pub struct CustomArgs {
    /// The connection a custom adapter should use.
    pub connection: DebugConnectionType,
    /// The command that starts the adapter.
    pub command: String,
    /// Its command-line arguments.
    pub args: Option<Vec<String>>,
    /// Its environment variables.
    pub envs: Option<HashMap<String, String>>,
}

/// The debug adapter to use.
#[derive(Clone, Debug, PartialEq, Eq)]
pub enum DebugAdapterKind {
    /// A manually configured adapter.
    Custom(CustomArgs),
    /// debugpy.
    Python(TCPHost),
    /// vscode-php-debug.
    Php(TCPHost),
    /// vscode-js-debug.
    Javascript(TCPHost),
    /// delve.
    Go(TCPHost),
    /// lldb.
    Lldb,
    /// GDB's built-in debug adapter support.
    Gdb,
}

impl DebugAdapterKind {
    /// The adapter kind's display name.
    pub fn display_name(&self) -> (r: &str)
        ensures
            r@ == match self {
                DebugAdapterKind::Custom(_) => "Custom"@,
                DebugAdapterKind::Python(_) => "Python"@,
                DebugAdapterKind::Php(_) => "PHP"@,
                DebugAdapterKind::Javascript(_) => "JavaScript"@,
                DebugAdapterKind::Go(_) => "Go"@,
                DebugAdapterKind::Lldb => "LLDB"@,
                DebugAdapterKind::Gdb => "GDB"@,
            },
    {
        match self {
            DebugAdapterKind::Custom(_) => "Custom",
            DebugAdapterKind::Python(_) => "Python",
            DebugAdapterKind::Php(_) => "PHP",
            DebugAdapterKind::Javascript(_) => "JavaScript",
            DebugAdapterKind::Go(_) => "Go",
            DebugAdapterKind::Lldb => "LLDB",
            DebugAdapterKind::Gdb => "GDB",
        }
    }
}

/// A plain shell task run around a debug session.
#[derive(Clone, Debug, PartialEq, Eq)]
pub struct DebugShellTask {
    /// The path to an executable to run.
    pub command: String,
    /// Additional command-line arguments to pass on invocation.
    pub args: Option<Vec<String>>,
    /// Environment variables to set for the invocation.
    pub envs: Option<HashMap<String, String>>,
}

} // verus!
