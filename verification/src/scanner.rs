//! The scan orchestrator's decision core: configuration, target selection,
//! the rescan port fan-out, the line formats of the external port scanners,
//! the command lines they are launched with, the permit accounting that caps
//! concurrent ping sessions, the supervisor's backoff schedule, and the
//! final handling of one ping attempt. The application around it owns the
//! sockets, channels, subprocesses and storage and acts on what is decided
//! here.

use crate::protocol::Ipv4Address;
use crate::protocol::SocketAddrV4;
use crate::response::format_description;
use crate::response::Server;
use crate::targeting::spec_parse_ipv4;
use crate::targeting::parse_ipv4;
use crate::text::dec_chars;
use crate::text::lemma_split_nonempty;
use crate::text::seq_contains;
use crate::text::space_fields;
use crate::text::spec_parse_u16;
use crate::text::split_fields;
use crate::text::split_on;
use crate::text::split_string;
use crate::text::parse_u16;
use crate::text::u16_to_decimal;
use crate::utils::pow2;
use vstd::prelude::*;
use vstd::string::*;

verus! {

/// The per-attempt time budget, in seconds, for connecting and for each of
/// the two ping strategies.
pub const TIMEOUT_SECS: u64 = 5;

/// How many ping sessions may be in flight at once, process-wide.
pub const PERMIT_COUNT: u64 = 1000;

/// How long a rescan iteration waits after draining its channel so spawned
/// workers can finish, in seconds.
pub const QUIESCE_SECS: u64 = 10;

/// The capacity of the channel between the rescan producer and the worker
/// spawner.
pub const CHANNEL_CAPACITY: usize = 10;

/// How long the supervisor waits before restarting after a clean
/// completion, in seconds.
pub const RESTART_DELAY_SECS: u64 = 5;

/// Which pipeline the scanner runs.
#[derive(Debug, Clone, Copy, PartialEq, Eq, Structural)]
pub enum Mode {
    /// Consume `host:port` hits from an external port scanner.
    Discovery,
    /// Stream known hosts from storage and ping them again.
    Rescanner,
}

impl Default for Mode {
    fn default() -> (m: Mode)
        ensures
            m == Mode::Discovery,
    {
        Mode::Discovery
    }
}

/// Which external port scanner discovery launches.
#[derive(Debug, Clone, Copy, PartialEq, Eq, Structural)]
pub enum ScanEngine {
    Masscan,
    Rustscan,
}

/// The scan settings the orchestrator decides by.
#[derive(Debug, Clone)]
pub struct ScanConfig {
    pub port_range_start: u16,
    pub port_range_end: u16,
    pub repeat: bool,
    pub scan_delay: u64,
    pub engine: ScanEngine,
    pub custom_target: Option<String>,
    pub country: Option<String>,
    pub masscan_config_file: String,
    pub rustscan_command: String,
}

impl Default for ScanConfig {
    fn default() -> (c: ScanConfig)
        ensures
            c.port_range_start == 25565,
            c.port_range_end == 25565,
            !c.repeat,
            c.scan_delay == 0,
            c.engine == ScanEngine::Masscan,
            c.custom_target is None,
            c.country is None,
            c.masscan_config_file@ == "masscan.conf"@,
            c.rustscan_command@ == "rustscan"@,
    {
        ScanConfig {
            port_range_start: 25565,
            port_range_end: 25565,
            repeat: false,
            scan_delay: 0,
            engine: ScanEngine::Masscan,
            custom_target: None,
            country: None,
            masscan_config_file: String::from_str("masscan.conf"),
            rustscan_command: String::from_str("rustscan"),
        }
    }
}

/// Where an iteration's targets come from, by priority: an explicit CIDR or
/// address wins over a country code; with neither the engine scans without
/// a target argument.
#[derive(Debug, Clone, PartialEq)]
pub enum TargetSelection {
    Direct(String),
    Country(String),
    Unspecified,
}

/// A resolved target handed to the engine's command line: a file of
/// addresses or a direct CIDR or address literal.
#[derive(Debug, Clone, PartialEq)]
pub enum TargetSpec {
    File(String),
    Direct(String),
}

/// What happens after an iteration finishes.
#[derive(Debug, Clone, Copy, PartialEq, Eq, Structural)]
pub enum IterationEnd {
    /// A single scan was requested; the scanner exits.
    Exit,
    /// Wait this many seconds, then run the next iteration.
    Continue { delay_secs: u64 },
}

/// The scanner: its settings and the pipeline it runs. The storage handle
/// and the running tasks live in the application.
#[derive(Debug, Clone)]
pub struct Scanner {
    pub config: ScanConfig,
    pub mode: Mode,
}

/// The masscan command line: the config file, the mandatory broadcast
/// exclusion, and the target as a file list or a direct literal.
pub open spec fn spec_masscan_args(
    config_file: Seq<char>,
    target: Option<&TargetSpec>,
) -> Seq<Seq<char>> {
    let base = seq!["masscan"@, "-c"@, config_file, "--exclude"@, "255.255.255.255"@];
    match target {
        None => base,
        Some(t) => match t {
            TargetSpec::File(p) => base + seq!["-iL"@, p@],
            TargetSpec::Direct(c) => base + seq![c@],
        },
    }
}

/// The rustscan command line: the port or port range, the target, and no
/// scripts.
pub open spec fn spec_rustscan_args(
    command: Seq<char>,
    start: u16,
    end: u16,
    target: Seq<char>,
) -> Seq<Seq<char>> {
    seq![command] + (if start != end {
        seq!["-r"@, dec_chars(start as nat) + "-"@ + dec_chars(end as nat)]
    } else {
        seq!["-p"@, dec_chars(start as nat)]
    }) + seq!["-a"@, target, "--scripts"@, "none"@]
}

impl Scanner {
    pub fn new(config: ScanConfig, mode: Mode) -> (s: Scanner)
        ensures
            s.config == config,
            s.mode == mode,
    {
        Scanner { config, mode }
    }

    /// How many sockets one address contributes to a rescan iteration.
    pub fn total_ports(&self) -> (n: u32)
        ensures
            self.config.port_range_start <= self.config.port_range_end ==> n
                == self.config.port_range_end - self.config.port_range_start + 1,
            self.config.port_range_start > self.config.port_range_end ==> n == 0,
    {
        if self.config.port_range_start <= self.config.port_range_end {
            (self.config.port_range_end - self.config.port_range_start) as u32 + 1
        } else {
            0
        }
    }

    /// Picks the target source for a discovery iteration: an explicit
    /// target always wins over a country code.
    pub fn select_target(&self) -> (t: TargetSelection)
        ensures
            match self.config.custom_target {
                Some(c) => t matches TargetSelection::Direct(s) && s@ == c@,
                None => match self.config.country {
                    Some(c) => t matches TargetSelection::Country(s) && s@ == c@,
                    None => t == TargetSelection::Unspecified,
                },
            },
    {
        match &self.config.custom_target {
            Some(c) => TargetSelection::Direct(c.clone()),
            None => match &self.config.country {
                Some(c) => TargetSelection::Country(c.clone()),
                None => TargetSelection::Unspecified,
            },
        }
    }

    /// Decides what follows a finished iteration: exit unless repeating,
    /// else wait the configured delay.
    pub fn after_iteration(&self) -> (e: IterationEnd)
        ensures
            !self.config.repeat ==> e == IterationEnd::Exit,
            self.config.repeat ==> e == (IterationEnd::Continue {
                delay_secs: self.config.scan_delay,
            }),
    {
        if !self.config.repeat {
            IterationEnd::Exit
        } else {
            IterationEnd::Continue { delay_secs: self.config.scan_delay }
        }
    }

    /// The argument list masscan is launched with.
    pub fn masscan_args(&self, target: Option<&TargetSpec>) -> (v: Vec<String>)
        ensures
            v.deep_view() == spec_masscan_args(self.config.masscan_config_file@, target),
    {
        let mut v: Vec<String> = Vec::new();
        v.push(String::from_str("masscan"));
        v.push(String::from_str("-c"));
        v.push(self.config.masscan_config_file.clone());
        v.push(String::from_str("--exclude"));
        v.push(String::from_str("255.255.255.255"));
        match target {
            None => {},
            Some(t) => match t {
                TargetSpec::File(p) => {
                    v.push(String::from_str("-iL"));
                    v.push(p.clone());
                },
                TargetSpec::Direct(c) => {
                    v.push(c.clone());
                },
            },
        }
        proof {
            assert(v.deep_view() =~= spec_masscan_args(self.config.masscan_config_file@, target));
        }
        v
    }

    /// The argument list rustscan is launched with, for an already resolved
    /// target (a file of addresses or a direct literal).
    pub fn rustscan_args(&self, target: &str) -> (v: Vec<String>)
        ensures
            v.deep_view() == spec_rustscan_args(
                self.config.rustscan_command@,
                self.config.port_range_start,
                self.config.port_range_end,
                target@,
            ),
    {
        let mut v: Vec<String> = Vec::new();
        v.push(self.config.rustscan_command.clone());
        if self.config.port_range_start != self.config.port_range_end {
            v.push(String::from_str("-r"));
            let mut range = u16_to_decimal(self.config.port_range_start);
            range.append("-");
            let end = u16_to_decimal(self.config.port_range_end);
            range.append(end.as_str());
            v.push(range);
        } else {
            v.push(String::from_str("-p"));
            v.push(u16_to_decimal(self.config.port_range_start));
        }
        v.push(String::from_str("-a"));
        v.push(String::from_str(target));
        v.push(String::from_str("--scripts"));
        v.push(String::from_str("none"));
        proof {
            assert(v.deep_view() =~= spec_rustscan_args(
                self.config.rustscan_command@,
                self.config.port_range_start,
                self.config.port_range_end,
                target@,
            ));
        }
        v
    }
}

/// The sockets a rescan pings for one stored address: every port of the
/// configured range on that address, in ascending order.
pub fn sockets_for_address(ip: Ipv4Address, start: u16, end: u16) -> (v: Vec<SocketAddrV4>)
    requires
        start <= end,
    ensures
        v@.len() == end - start + 1,
        forall|i: int|
            0 <= i < v@.len() ==> v@[i] == (SocketAddrV4 { ip, port: (start + i) as u16 }),
{
    let count: usize = (end - start) as usize + 1;
    let mut v: Vec<SocketAddrV4> = Vec::new();
    let mut i: usize = 0;
    while i < count
        invariant
            i <= count,
            count == end - start + 1,
            v@.len() == i,
            forall|j: int|
                0 <= j < i ==> v@[j] == (SocketAddrV4 { ip, port: (start + j) as u16 }),
        decreases count - i,
    {
        v.push(SocketAddrV4 { ip, port: start + (i as u16) });
        i = i + 1;
    }
    v
}

/// What a masscan output line yields: the line's whitespace-separated
/// fields hold `port/proto` fourth and the address sixth; a line that does
/// not fit is skipped.
pub open spec fn spec_parse_masscan_line(line: Seq<char>) -> Option<SocketAddrV4> {
    let fields = space_fields(line);
    if fields.len() < 6 {
        None
    } else {
        let ptok = split_on(fields[3], '/')[0];
        match spec_parse_u16(ptok) {
            Some(port) => match spec_parse_ipv4(fields[5]) {
                Some(ip) => Some((SocketAddrV4 { ip, port })),
                None => None,
            },
            None => None,
        }
    }
}

/// Parses one line of masscan output into the discovered socket.
pub fn parse_masscan_line(line: &str) -> (r: Option<SocketAddrV4>)
    ensures
        r == spec_parse_masscan_line(line@),
{
    let fields = split_fields(line);
    if fields.len() < 6 {
        return None;
    }
    let ptoks = split_string(fields[3].as_str(), '/');
    proof {
        lemma_split_nonempty(fields.deep_view()[3], '/');
    }
    let port = match parse_u16(ptoks[0].as_str()) {
        Some(p) => p,
        None => {
            return None;
        },
    };
    let ip = match parse_ipv4(fields[5].as_str()) {
        Some(ip) => ip,
        None => {
            return None;
        },
    };
    Some(SocketAddrV4 { ip, port })
}

/// What a rustscan output line yields: a line opening with `Open` whose
/// second field is `host:port`; anything else is skipped.
pub open spec fn spec_parse_rustscan_line(line: Seq<char>) -> Option<SocketAddrV4> {
    if line.len() >= 4 && line.take(4) == "Open"@ {
        let fields = space_fields(line);
        if fields.len() < 2 {
            None
        } else {
            let hp = split_on(fields[1], ':');
            if hp.len() == 2 {
                match spec_parse_ipv4(hp[0]) {
                    Some(ip) => match spec_parse_u16(hp[1]) {
                        Some(port) => Some((SocketAddrV4 { ip, port })),
                        None => None,
                    },
                    None => None,
                }
            } else {
                None
            }
        }
    } else {
        None
    }
}

/// Parses one line of rustscan output into the discovered socket.
pub fn parse_rustscan_line(line: &str) -> (r: Option<SocketAddrV4>)
    ensures
        r == spec_parse_rustscan_line(line@),
{
    proof {
        reveal_strlit("Open");
    }
    let len = line.unicode_len();
    if len < 4 {
        return None;
    }
    if line.get_char(0) != 'O' || line.get_char(1) != 'p' || line.get_char(2) != 'e'
        || line.get_char(3) != 'n' {
        proof {
            assert(line@.take(4)[0] == line@[0]);
            assert(line@.take(4)[1] == line@[1]);
            assert(line@.take(4)[2] == line@[2]);
            assert(line@.take(4)[3] == line@[3]);
            assert(line@.take(4) != "Open"@);
        }
        return None;
    }
    proof {
        assert(line@.take(4) =~= "Open"@);
    }
    let fields = split_fields(line);
    if fields.len() < 2 {
        return None;
    }
    let hp = split_string(fields[1].as_str(), ':');
    if hp.len() != 2 {
        return None;
    }
    let ip = match parse_ipv4(hp[0].as_str()) {
        Some(ip) => ip,
        None => {
            return None;
        },
    };
    let port = match parse_u16(hp[1].as_str()) {
        Some(p) => p,
        None => {
            return None;
        },
    };
    Some(SocketAddrV4 { ip, port })
}

/// Permit accounting for the worker cap: a fixed capacity and the number of
/// permits currently held. Every operation keeps the count within the
/// capacity, so the number of in-flight ping sessions never exceeds it.
#[derive(Debug, Clone, Copy, PartialEq, Eq, Structural)]
pub struct PermitPool {
    pub capacity: u64,
    pub in_flight: u64,
}

/// The concurrency cap: never more permits out than the capacity.
pub open spec fn permits_ok(p: PermitPool) -> bool {
    p.in_flight <= p.capacity
}

impl PermitPool {
    pub fn new(capacity: u64) -> (p: PermitPool)
        ensures
            p.capacity == capacity,
            p.in_flight == 0,
            permits_ok(p),
    {
        PermitPool { capacity, in_flight: 0 }
    }

    /// Takes a permit if one is free; a worker may only be spawned when
    /// this succeeds.
    pub fn try_acquire(&mut self) -> (ok: bool)
        requires
            permits_ok(*old(self)),
        ensures
            permits_ok(*final(self)),
            final(self).capacity == old(self).capacity,
            old(self).in_flight < old(self).capacity ==> ok && final(self).in_flight == old(
                self,
            ).in_flight + 1,
            old(self).in_flight >= old(self).capacity ==> !ok && *final(self) == *old(self),
    {
        if self.in_flight < self.capacity {
            self.in_flight = self.in_flight + 1;
            true
        } else {
            false
        }
    }

    /// Returns a permit when a worker finishes, on every exit path.
    pub fn release(&mut self)
        requires
            permits_ok(*old(self)),
            old(self).in_flight >= 1,
        ensures
            permits_ok(*final(self)),
            final(self).capacity == old(self).capacity,
            final(self).in_flight == old(self).in_flight - 1,
    {
        self.in_flight = self.in_flight - 1;
    }
}

/// The supervisor's restart state: how long the next sleep after a crash
/// will be, in seconds.
#[derive(Debug, Clone, Copy, PartialEq, Eq, Structural)]
pub struct Supervisor {
    pub backoff_secs: u64,
}

/// A well-formed supervisor sleeps between one second and the ceiling.
pub open spec fn supervisor_ok(s: Supervisor) -> bool {
    1 <= s.backoff_secs <= 60
}

/// The doubling step of the backoff, capped at one minute.
pub open spec fn next_backoff(b: nat) -> nat {
    if 2 * b <= 60 {
        2 * b
    } else {
        60
    }
}

/// The backoff a fresh supervisor holds after `k` consecutive crashes.
pub open spec fn backoff_after(k: nat) -> nat
    decreases k,
{
    if k == 0 {
        1
    } else {
        next_backoff(backoff_after((k - 1) as nat))
    }
}

impl Supervisor {
    pub fn new() -> (s: Supervisor)
        ensures
            s.backoff_secs == backoff_after(0),
            supervisor_ok(s),
    {
        Supervisor { backoff_secs: 1 }
    }

    /// Called when the scanner task crashes: returns how long to sleep
    /// before the restart and doubles the backoff, capped at one minute.
    pub fn on_crash(&mut self) -> (sleep_secs: u64)
        requires
            supervisor_ok(*old(self)),
        ensures
            supervisor_ok(*final(self)),
            sleep_secs == old(self).backoff_secs,
            final(self).backoff_secs as nat == next_backoff(old(self).backoff_secs as nat),
    {
        let sleep_secs = self.backoff_secs;
        if self.backoff_secs <= 30 {
            self.backoff_secs = self.backoff_secs * 2;
        } else {
            self.backoff_secs = 60;
        }
        sleep_secs
    }

    /// Called when the scanner finishes cleanly: the backoff resets.
    pub fn on_success(&mut self)
        ensures
            supervisor_ok(*final(self)),
            final(self).backoff_secs == 1,
    {
        self.backoff_secs = 1;
    }
}

/// The backoff schedule: after `k` consecutive crashes of a fresh
/// supervisor, the sleep before the next attempt is `2^k` seconds, capped
/// at one minute. The chain follows the `on_crash` postconditions.
pub proof fn lemma_backoff_schedule(k: nat)
    ensures
        backoff_after(k) == (if pow2(k) <= 60 {
            pow2(k)
        } else {
            60nat
        }),
    decreases k,
{
    if k > 0 {
        lemma_backoff_schedule((k - 1) as nat);
        crate::utils::lemma_pow2_pos((k - 1) as nat);
    }
}

/// How one ping attempt ends.
#[derive(Debug)]
pub enum TaskOutcome {
    /// The status parsed; the finished record is ready for storage.
    Success(Server),
    /// The response deviated from the protocol.
    MalformedResponse,
    /// The connection failed or broke.
    IoError,
    /// Both strategies ran out of their time budget.
    TimedOut,
    /// The response arrived but its JSON did not parse as a status.
    ParseError,
    /// The server's MOTD carries the opt-out marker; the record is
    /// discarded.
    OptOut,
}

/// The formatted description a finished record will carry, derived from
/// the raw description tree.
pub open spec fn finalized_formatted(inp: Server) -> Option<Seq<char>> {
    match inp.description_raw {
        Some(d) => Some(format_description(d)),
        None => None,
    }
}

/// Whether the finished record would carry the opt-out marker.
pub open spec fn finalized_opt_out(inp: Server) -> bool {
    match inp.description_raw {
        Some(d) => seq_contains(format_description(d), "§b§d§f§d§b"@),
        None => false,
    }
}

/// The finished record: the parsed status with the measured latency set
/// and the formatted description derived; everything else is kept.
pub open spec fn is_finalized(out: Server, inp: Server, latency: i32) -> bool {
    &&& out.latency == Some(latency)
    &&& out.version == inp.version
    &&& out.favicon == inp.favicon
    &&& out.players == inp.players
    &&& out.description_raw == inp.description_raw
    &&& out.prevents_reports == inp.prevents_reports
    &&& out.enforces_secure_chat == inp.enforces_secure_chat
    &&& out.modded == inp.modded
    &&& out.forge_data == inp.forge_data
    &&& match finalized_formatted(inp) {
        Some(f) => out.description_formatted matches Some(df) && df@ == f,
        None => out.description_formatted is None,
    }
}

/// Finishes one successful ping attempt: injects the measured latency,
/// derives the formatted description, and filters records whose MOTD
/// carries the opt-out marker.
pub fn finalize_status(server: Server, latency: i32) -> (r: TaskOutcome)
    ensures
        finalized_opt_out(server) ==> r is OptOut,
        !finalized_opt_out(server) ==> (r matches TaskOutcome::Success(out) && is_finalized(
            out,
            server,
            latency,
        )),
{
    let mut s = server;
    s.latency = Some(latency);
    let formatted: Option<String> = match &s.description_raw {
        Some(d) => Some(s.build_formatted_description(d)),
        None => None,
    };
    s.description_formatted = formatted;
    if s.check_opt_out() {
        TaskOutcome::OptOut
    } else {
        TaskOutcome::Success(s)
    }
}

} // verus!
