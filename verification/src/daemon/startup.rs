//! What both roles of the daemon have in common.

use vstd::prelude::*;
use vstd::string::StringExecFns;

use crate::net::identity::DeviceId;
use crate::text::{decimal, join, join2, join3, joined, number_text, texts};

verus! {

/// Seconds that a request may take.
pub const REQUEST_TIMEOUT: u64 = 15;

/// What a master that cannot take a worker just now says.
pub const MASTER_BUSY: &'static str = "master is busy; retry shortly";

/// The port that a device serves on.
pub const SERVING_PORT: u16 = 47900;

/// The port that a master pairs on.
pub const PAIRING_PORT: u16 = 47901;

/// What to do about a firewall.
#[derive(Clone, Copy, Debug, PartialEq, Eq, Structural)]
pub enum Firewall {
    Auto,
    Print,
    Off,
}

impl Firewall {
    /// The mode's name.
    pub open spec fn shown(self) -> Seq<char> {
        match self {
            Firewall::Auto => "auto"@,
            Firewall::Print => "print"@,
            Firewall::Off => "off"@,
        }
    }

    /// The mode's name.
    pub fn mode(self) -> (out: &'static str)
        ensures
            out@ == self.shown(),
    {
        match self {
            Firewall::Auto => "auto",
            Firewall::Print => "print",
            Firewall::Off => "off",
        }
    }
}

/// What either role is told.
#[derive(Clone, Debug)]
pub struct CommonOptions {
    /// Fixed serving port.
    pub port: u16,
    /// Model to offer to paired devices.
    pub model: Option<String>,
    pub firewall: Firewall,
}

/// What a master is told.
#[derive(Clone, Debug)]
pub struct MasterOptions {
    pub common: CommonOptions,
    /// Fixed pairing port.
    pub pairing_port: u16,
}

/// What a worker is told.
#[derive(Clone, Debug)]
pub struct WorkerOptions {
    pub engine_dir: Option<String>,
    /// A working GPU inference engine is required.
    pub require_gpu: bool,
    /// Exact GPU name.
    pub device: Option<String>,
    pub common: CommonOptions,
    /// Device id or IPv4 address of the master.
    pub master: Option<String>,
    /// First-time pairing code.
    pub code: Option<String>,
    /// Pairing port when connecting by explicit address.
    pub pairing_port: u16,
}

/// The role that a device advertises: a master is what has a pairing port.
pub fn role_of(pairing_port: Option<u16>) -> (out: &'static str)
    ensures
        out@ == if pairing_port is Some {
            "master"@
        } else {
            "worker"@
        },
{
    if pairing_port.is_some() {
        "master"
    } else {
        "worker"
    }
}

/// The arguments that the shell is run with to configure the firewall.
pub open spec fn firewall_arguments(
    script: Seq<char>,
    mode: Firewall,
    port: u16,
    pairing_port: Option<u16>,
) -> Seq<Seq<char>> {
    let args = seq![
        "-c"@,
        script,
        "lattice-firewall"@,
        mode.shown(),
        decimal(port as nat),
    ];
    match pairing_port {
        Some(pairing_port) => args.push(decimal(pairing_port as nat)),
        None => args,
    }
}

/// The arguments that the shell is run with to configure the firewall.
pub fn firewall_args(
    script: &str,
    mode: Firewall,
    port: u16,
    pairing_port: Option<u16>,
) -> (out: Vec<String>)
    ensures
        texts(out@) == firewall_arguments(script@, mode, port, pairing_port),
{
    let mut out: Vec<String> = Vec::new();
    out.push("-c".to_owned());
    out.push(script.to_owned());
    out.push("lattice-firewall".to_owned());
    out.push(mode.mode().to_owned());
    out.push(number_text(port as u128));
    if let Some(pairing_port) = pairing_port {
        out.push(number_text(pairing_port as u128));
    }
    assert(texts(out@) =~= firewall_arguments(script@, mode, port, pairing_port));
    out
}

/// Judges how configuring the firewall ended.
pub fn firewall_outcome(success: bool) -> (out: Result<(), String>)
    ensures
        out is Ok <==> success,
        out matches Err(said) ==> said@
            == "firewall setup failed; fix the reported problem or use --firewall print for manual setup"@,
{
    if success {
        Ok(())
    } else {
        Err(
            "firewall setup failed; fix the reported problem or use --firewall print for manual setup".to_owned(),
        )
    }
}

/// What is said where the serving port is taken.
pub fn port_unavailable(port: u16) -> (out: String)
    ensures
        out@ == "UDP port "@ + decimal(port as nat)
            + " is unavailable; stop the existing latticed process or choose --port"@,
{
    join3(
        "UDP port ",
        number_text(port as u128).as_str(),
        " is unavailable; stop the existing latticed process or choose --port",
    )
}

/// What is said once a device serves.
pub fn serving_line(name: &str, role: &str, id: DeviceId, port: u16) -> (out: String)
    ensures
        out@ == name@ + " "@ + role@ + " serving as "@ + id.shown() + " on UDP port "@ + decimal(
            port as nat,
        ),
{
    let mut line = join3(name, " ", role);
    line.append(" serving as ");
    line.append(id.text().as_str());
    line.append(" on UDP port ");
    line.append(number_text(port as u128).as_str());
    line
}

/// What became of connecting to an address.
pub enum Attempt {
    /// A device answered.
    Connected(DeviceId),
    /// No connection came about, with what is said of it.
    Failed(String),
}

/// Whether a connection is one to keep: anyone's where no device is expected,
/// and only that device's where one is.
pub open spec fn keeps(attempt: Attempt, expected: Option<DeviceId>) -> bool {
    match attempt {
        Attempt::Connected(id) => match expected {
            Some(wanted) => id == wanted,
            None => true,
        },
        Attempt::Failed(_) => false,
    }
}

/// What is said of an address that did not lead to the device.
pub open spec fn attempt_shown(addr: Seq<char>, attempt: Attempt) -> Seq<char> {
    match attempt {
        Attempt::Connected(_) => addr + ": identity differs from the selected master"@,
        Attempt::Failed(said) => addr + ": "@ + said@,
    }
}

/// Connecting to a device, one address after the other. Every failure is
/// reported: "it did not connect" is useless when a device advertised four
/// addresses.
pub struct Attempts {
    pub failures: Vec<String>,
}

impl Attempts {
    /// Nothing tried yet.
    pub fn new() -> (out: Self)
        ensures
            out.failures@.len() == 0,
    {
        Attempts { failures: Vec::new() }
    }

    /// Judges what an address came to: whether to keep the connection.
    pub fn judge(&mut self, addr: &str, attempt: Attempt, expected: Option<DeviceId>) -> (keep:
        bool)
        ensures
            keep == keeps(attempt, expected),
            texts(final(self).failures@) == if keep {
                texts(old(self).failures@)
            } else {
                texts(old(self).failures@).push(attempt_shown(addr@, attempt))
            },
    {
        let ghost before = self.failures@;
        match attempt {
            Attempt::Connected(id) => {
                let wanted = match expected {
                    Some(expected) => id == expected,
                    None => true,
                };
                if wanted {
                    return true;
                }
                self.failures.push(
                    join2(addr, ": identity differs from the selected master"),
                );
            },
            Attempt::Failed(said) => {
                self.failures.push(join3(addr, ": ", said.as_str()));
            },
        }
        assert(texts(self.failures@) =~= texts(before).push(attempt_shown(addr@, attempt)));
        false
    }

    /// What is said where no address led to the device.
    pub fn give_up(&self) -> (out: String)
        ensures
            out@ == "could not connect:\n"@ + joined(texts(self.failures@), "\n"@),
    {
        join2("could not connect:\n", join(self.failures.as_slice(), "\n").as_str())
    }

    /// What is said where no address led to anyone; each failure is indented.
    pub fn give_up_on_any(&self) -> (out: String)
        ensures
            out@ == "could not reach that device:\n"@ + joined(
                indented(texts(self.failures@)),
                "\n"@,
            ),
    {
        let mut lines: Vec<String> = Vec::new();
        for i in 0..self.failures.len()
            invariant
                texts(lines@) == indented(texts(self.failures@)).take(i as int),
        {
            let ghost before = lines@;
            lines.push(join2("  ", self.failures[i].as_str()));
            assert(texts(lines@) =~= indented(texts(self.failures@)).take(i as int + 1)) by {
                assert(texts(lines@) =~= texts(before).push("  "@ + self.failures@[i as int]@));
            }
        }
        assert(texts(lines@) =~= indented(texts(self.failures@)));
        join2("could not reach that device:\n", join(lines.as_slice(), "\n").as_str())
    }
}

/// Lines with two spaces before each.
pub open spec fn indented(lines: Seq<Seq<char>>) -> Seq<Seq<char>> {
    Seq::new(lines.len(), |i: int| "  "@ + lines[i])
}

/// A connection is kept exactly where a device answered and, where one is expected, it is
/// that one.
pub proof fn law_only_the_expected_device_is_kept(attempt: Attempt, expected: Option<DeviceId>)
    ensures
        keeps(attempt, expected) <==> (attempt matches Attempt::Connected(id) && (expected is None
            || expected == Some(id))),
{
}

/// The firewall script is told how to go about it, the serving port in decimal, and the
/// pairing port after it where there is one.
pub proof fn law_firewall_is_told_the_ports(
    script: Seq<char>,
    mode: Firewall,
    port: u16,
    pairing_port: Option<u16>,
)
    ensures
        ({
            let args = firewall_arguments(script, mode, port, pairing_port);
            &&& args[0] == "-c"@ && args[1] == script
            &&& args[3] == match mode {
                Firewall::Auto => "auto"@,
                Firewall::Print => "print"@,
                Firewall::Off => "off"@,
            }
            &&& args[4] == decimal(port as nat)
            &&& pairing_port matches Some(pairing) ==> args.len() == 6 && args[5] == decimal(
                pairing as nat,
            )
            &&& pairing_port is None ==> args.len() == 5
        }),
{
}

/// Each line that failed is shown, in its order, two spaces in.
pub proof fn law_lines_are_indented(lines: Seq<Seq<char>>, i: int)
    ensures
        indented(lines).len() == lines.len(),
        0 <= i < lines.len() ==> indented(lines)[i] == seq![' ', ' '] + lines[i],
{
    reveal_strlit("  ");
    assert("  "@ =~= seq![' ', ' ']);
}

/// A device serves on port 47900 and pairs on port 47901 where nothing else is asked.
pub proof fn law_ports_where_none_is_asked_for()
    ensures
        SERVING_PORT == 47900,
        PAIRING_PORT == 47901,
        REQUEST_TIMEOUT == 15,
{
}

}
