//! The command line: what can be asked for, and its limits.

use crate::text::{list_items, split_list, texts};
use vstd::prelude::*;

verus! {

/// Time between two pings, unless told otherwise.
pub const DEFAULT_PING_INTERVAL_MS: u64 = 1000;

/// Time that a ping may take, unless told otherwise.
pub const DEFAULT_PING_TIMEOUT_MS: u64 = 1500;

/// Shortest time between two pings that can be asked for.
pub const MIN_PING_INTERVAL_MS: u64 = 50;

/// Port of the TCP fallback, unless told otherwise.
pub const DEFAULT_TCP_PORT: u16 = 80;

/// Time that a DNS query may take, unless told otherwise.
pub const DEFAULT_DNS_TIMEOUT_MS: u64 = 2000;

/// Shortest time for a DNS query that can be asked for.
pub const MIN_DNS_TIMEOUT_MS: u64 = 100;

/// Time between two prints of the capture, unless told otherwise.
pub const DEFAULT_WATCH_INTERVAL_MS: u64 = 1000;

/// A parsed command line.
#[derive(Debug)]
pub struct Cli {
    pub command: Commands,
}

/// The subcommands.
#[derive(Debug)]
pub enum Commands {
    /// Measure latency over ICMP, falling back to TCP.
    Ping { hosts: Vec<String>, interval: u64, timeout: u64, tcp_port: u16 },
    /// Resolve domains and measure how long it takes.
    Dns { domains: Vec<String>, record_type: RecordTypeCli, timeout: u64 },
    /// Capture passively, counting by protocol and by flow.
    Watch { interface: Option<String>, interval: u64 },
    /// Everything at once, on one screen.
    Dashboard {
        ping_hosts: String,
        dns_domains: String,
        interface: Option<String>,
        ping_interval: u64,
        ping_timeout: u64,
    },
}

/// The record types that can be queried.
#[derive(Copy, Clone, Debug, PartialEq, Eq, PartialOrd, Ord, Structural)]
pub enum RecordTypeCli {
    A,
    Aaaa,
    Cname,
    Mx,
    Txt,
}

impl RecordTypeCli {
    /// The name under which the type is shown.
    pub open spec fn label_text(self) -> Seq<char> {
        match self {
            RecordTypeCli::A => "A"@,
            RecordTypeCli::Aaaa => "Aaaa"@,
            RecordTypeCli::Cname => "Cname"@,
            RecordTypeCli::Mx => "Mx"@,
            RecordTypeCli::Txt => "Txt"@,
        }
    }

    /// The name under which the type is shown.
    pub fn label(&self) -> (label: &'static str)
        ensures
            label@ == self.label_text(),
    {
        match self {
            RecordTypeCli::A => "A",
            RecordTypeCli::Aaaa => "Aaaa",
            RecordTypeCli::Cname => "Cname",
            RecordTypeCli::Mx => "Mx",
            RecordTypeCli::Txt => "Txt",
        }
    }

    /// The number of the type in the DNS protocol.
    pub open spec fn spec_code(self) -> u16 {
        match self {
            RecordTypeCli::A => 1,
            RecordTypeCli::Aaaa => 28,
            RecordTypeCli::Cname => 5,
            RecordTypeCli::Mx => 15,
            RecordTypeCli::Txt => 16,
        }
    }

    /// The number of the type in the DNS protocol.
    pub fn code(&self) -> (code: u16)
        ensures
            code == self.spec_code(),
    {
        match self {
            RecordTypeCli::A => 1,
            RecordTypeCli::Aaaa => 28,
            RecordTypeCli::Cname => 5,
            RecordTypeCli::Mx => 15,
            RecordTypeCli::Txt => 16,
        }
    }
}

impl Commands {
    /// The command's times are within the limits.
    pub open spec fn within_limits(&self) -> bool {
        match *self {
            Commands::Ping { interval, .. } => interval >= MIN_PING_INTERVAL_MS,
            Commands::Dns { timeout, .. } => timeout >= MIN_DNS_TIMEOUT_MS,
            Commands::Watch { .. } => true,
            Commands::Dashboard { ping_interval, .. } => ping_interval >= MIN_PING_INTERVAL_MS,
        }
    }

    /// Whether the command's times are within the limits.
    pub fn is_within_limits(&self) -> (yes: bool)
        ensures
            yes == self.within_limits(),
    {
        match self {
            Commands::Ping { interval, .. } => *interval >= MIN_PING_INTERVAL_MS,
            Commands::Dns { timeout, .. } => *timeout >= MIN_DNS_TIMEOUT_MS,
            Commands::Watch { .. } => true,
            Commands::Dashboard { ping_interval, .. } => *ping_interval >= MIN_PING_INTERVAL_MS,
        }
    }
}

/// The hosts or domains in a comma-separated option.
pub fn parse_list(option: &str) -> (items: Vec<String>)
    ensures
        texts(items@) == list_items(option@),
{
    split_list(option)
}

/// Pings are at least 50 milliseconds apart, and a DNS query is given at least 100;
/// nothing else is limited.
pub proof fn limits_are_kept(command: Commands)
    ensures
        command.within_limits() <==> match command {
            Commands::Ping { interval, .. } => interval >= 50,
            Commands::Dns { timeout, .. } => timeout >= 100,
            Commands::Watch { .. } => true,
            Commands::Dashboard { ping_interval, .. } => ping_interval >= 50,
        },
{
}

/// Record types have the numbers and names that DNS gives them.
pub proof fn record_types_have_their_numbers()
    ensures
        RecordTypeCli::A.spec_code() == 1 && RecordTypeCli::A.label_text() == "A"@,
        RecordTypeCli::Aaaa.spec_code() == 28 && RecordTypeCli::Aaaa.label_text() == "Aaaa"@,
        RecordTypeCli::Cname.spec_code() == 5 && RecordTypeCli::Cname.label_text() == "Cname"@,
        RecordTypeCli::Mx.spec_code() == 15 && RecordTypeCli::Mx.label_text() == "Mx"@,
        RecordTypeCli::Txt.spec_code() == 16 && RecordTypeCli::Txt.label_text() == "Txt"@,
{
}

} // verus!
