//! The inference engine on a worker: where it is installed, which GPU it uses,
//! and who may use it.

use vstd::prelude::*;
use vstd::string::StringExecFns;

use crate::bytes::{extend, slice};
use crate::engine::error::{quoted, quoted_text};
use crate::net::addr::SocketAddr;
use crate::net::control::{EngineCapabilities, GpuDevice};
use crate::net::identity::DeviceId;
use crate::text::{chars_of, decimal, join, join2, join3, joined, number_text, same, text_of, texts, trim, trimmed};

verus! {

pub const ENGINE_REVISION: &'static str = "85d5703a3b1b47243213a39059a6e3076c92733a";

/// How much of a helper's output is kept, and of a server's log.
pub const RETAINED: usize = 0x10_0000;

/// Seconds that detecting GPUs may take.
pub const DETECTION_TIMEOUT: u64 = 90;

/// Seconds that a GPU server may take to become ready.
pub const READY_TIMEOUT: u64 = 90;

/// Seconds to wait for a session before this one to end.
pub const SLOT_TIMEOUT: u64 = 2;

/// A path below a directory.
pub open spec fn below(dir: Seq<char>, rest: Seq<char>) -> Seq<char> {
    if dir.len() == 0 || dir.last() == '/' {
        dir + rest
    } else {
        dir + "/"@ + rest
    }
}

/// A path below a directory.
pub fn join_path(dir: &str, rest: &str) -> (out: String)
    ensures
        out@ == below(dir@, rest@),
{
    let chars = chars_of(dir);
    if chars.len() == 0 || chars[chars.len() - 1] == '/' {
        join2(dir, rest)
    } else {
        join3(dir, "/", rest)
    }
}

/// Where the engine is installed: where the command line says, else where the
/// environment does, else below the home directory.
pub fn engine_dir(
    explicit: Option<String>,
    environment: Option<String>,
    home: Option<String>,
) -> (out: Result<String, String>)
    ensures
        match (explicit, environment, home) {
            (Some(dir), _, _) => out == Ok::<String, String>(dir),
            (None, Some(dir), _) => out == Ok::<String, String>(dir),
            (None, None, Some(home)) => out matches Ok(dir) && dir@ == below(
                home@,
                ".local/share/lattice/engine"@,
            ),
            (None, None, None) => out matches Err(said) && said@
                == "HOME is unset; use --engine-dir"@,
        },
{
    match explicit {
        Some(dir) => Ok(dir),
        None => match environment {
            Some(dir) => Ok(dir),
            None => match home {
                Some(home) => Ok(join_path(home.as_str(), ".local/share/lattice/engine")),
                None => Err("HOME is unset; use --engine-dir".to_owned()),
            },
        },
    }
}

/// An inference engine's installation.
#[derive(Clone, Debug)]
pub struct Engine {
    pub dir: String,
}

/// What is said against an installation, if anything: its revision, where there
/// is one, and which of its three programs are there.
pub open spec fn install_fault(
    dir: Seq<char>,
    revision: Option<Seq<char>>,
    present: (bool, bool, bool),
) -> Option<Seq<char>> {
    match revision {
        None => Some("inference engine missing; run ./scripts/setup-engine.sh"@),
        Some(revision) => if trimmed(revision) != ENGINE_REVISION@ {
            Some("inference engine revision mismatch; rerun ./scripts/setup-engine.sh"@)
        } else if !present.0 {
            Some(missing_shown(below(dir, "bin/llama-cli"@)))
        } else if !present.1 {
            Some(missing_shown(below(dir, "bin/ggml-rpc-server"@)))
        } else if !present.2 {
            Some(missing_shown(below(dir, "bin/lattice-engine-info"@)))
        } else {
            None
        },
    }
}

/// What is said of a program that is not there.
pub open spec fn missing_shown(path: Seq<char>) -> Seq<char> {
    "missing "@ + path + "; rerun ./scripts/setup-engine.sh"@
}

fn missing(path: String) -> (out: String)
    ensures
        out@ == missing_shown(path@),
{
    join3("missing ", path.as_str(), "; rerun ./scripts/setup-engine.sh")
}

impl Engine {
    /// The engine in a directory, where its revision is the one this daemon was
    /// made for and its programs are there. `revision` is what the file
    /// `engine-revision` holds; `present` says of the three programs, in the
    /// order `cli`, `rpc_server`, `info`, whether they are files.
    pub fn locate(
        dir: String,
        revision: Option<String>,
        present: (bool, bool, bool),
    ) -> (out: Result<Self, String>)
        ensures
            match install_fault(
                dir@,
                (match revision {
                    Some(r) => Some(r@),
                    None => None,
                }),
                present,
            ) {
                None => out matches Ok(engine) && engine.dir == dir,
                Some(said) => out matches Err(s) && s@ == said,
            },
    {
        let revision = match revision {
            Some(revision) => revision,
            None => {
                return Err("inference engine missing; run ./scripts/setup-engine.sh".to_owned());
            },
        };
        let found = text_of(trim(chars_of(revision.as_str()).as_slice()).as_slice());
        if !same(found.as_str(), ENGINE_REVISION) {
            return Err(
                "inference engine revision mismatch; rerun ./scripts/setup-engine.sh".to_owned(),
            );
        }
        let engine = Engine { dir };
        if !present.0 {
            return Err(missing(engine.cli()));
        }
        if !present.1 {
            return Err(missing(engine.rpc_server()));
        }
        if !present.2 {
            return Err(missing(engine.info()));
        }
        Ok(engine)
    }

    /// The program that chats.
    pub fn cli(&self) -> (out: String)
        ensures
            out@ == below(self.dir@, "bin/llama-cli"@),
    {
        join_path(self.dir.as_str(), "bin/llama-cli")
    }

    /// The program that serves a GPU.
    pub fn rpc_server(&self) -> (out: String)
        ensures
            out@ == below(self.dir@, "bin/ggml-rpc-server"@),
    {
        join_path(self.dir.as_str(), "bin/ggml-rpc-server")
    }

    /// The program that describes the GPUs.
    pub fn info(&self) -> (out: String)
        ensures
            out@ == below(self.dir@, "bin/lattice-engine-info"@),
    {
        join_path(self.dir.as_str(), "bin/lattice-engine-info")
    }

    /// The revision that this daemon was made for.
    pub fn revision(&self) -> (out: &'static str)
        ensures
            out@ == ENGINE_REVISION@,
    {
        ENGINE_REVISION
    }
}

/// What to do about a helper that was started.
#[derive(Clone, Copy, Debug, PartialEq, Eq, Structural)]
pub enum Poll {
    /// It ended by itself.
    Ended,
    /// It took too long: stop it.
    Kill,
    /// Look again shortly.
    Wait,
}

/// Decides what to do about a helper.
pub fn poll(ended: bool, past_deadline: bool) -> (out: Poll)
    ensures
        out == (if ended {
            Poll::Ended
        } else if past_deadline {
            Poll::Kill
        } else {
            Poll::Wait
        }),
{
    if ended {
        Poll::Ended
    } else if past_deadline {
        Poll::Kill
    } else {
        Poll::Wait
    }
}

/// Judges how a helper ended: `None` where it had to be stopped, else whether
/// it succeeded, with what it wrote to its error output.
pub fn detection_outcome(success: Option<bool>, stderr: &str) -> (out: Result<(), String>)
    ensures
        match success {
            None => out matches Err(said) && said@
                == "GPU discovery timed out; check the GPU driver installation"@,
            Some(true) => out is Ok,
            Some(false) => out matches Err(said) && said@ == "GPU detection failed: "@ + stderr@,
        },
{
    match success {
        None => Err("GPU discovery timed out; check the GPU driver installation".to_owned()),
        Some(true) => Ok(()),
        Some(false) => Err(join2("GPU detection failed: ", stderr)),
    }
}

/// The first of some bytes, as many as are kept.
pub open spec fn retained(bytes: Seq<u8>) -> Seq<u8> {
    if bytes.len() <= RETAINED {
        bytes
    } else {
        bytes.take(RETAINED as int)
    }
}

/// Takes a helper's next output. The helper is drained to the end; what is over
/// the limit is dropped.
pub fn retain(output: &mut Vec<u8>, chunk: &[u8])
    requires
        old(output)@.len() <= RETAINED,
    ensures
        final(output)@ == retained(old(output)@ + chunk@),
        final(output)@.len() <= RETAINED,
{
    let room: usize = RETAINED - output.len();
    let keep: usize = if chunk.len() <= room {
        chunk.len()
    } else {
        room
    };
    let ghost before = output@;
    let kept = slice(chunk, 0, keep);
    extend(output, kept.as_slice());
    assert(output@ =~= retained(before + chunk@));
}

/// Keeping each chunk in turn keeps what keeping them all at once would.
pub proof fn law_retention_does_not_depend_on_chunks(a: Seq<u8>, b: Seq<u8>, c: Seq<u8>)
    ensures
        retained(retained(a + b) + c) == retained(a + b + c),
{
    if (a + b).len() > RETAINED {
        assert((retained(a + b) + c).take(RETAINED as int) =~= (a + b).take(RETAINED as int));
        assert((a + b + c).take(RETAINED as int) =~= (a + b).take(RETAINED as int));
        if c.len() == 0 {
            assert(retained(a + b) + c =~= retained(a + b));
        }
    }
}

/// The names of the GPUs among some devices, in their order.
pub open spec fn gpu_names(devices: Seq<GpuDevice>) -> Seq<Seq<char>>
    decreases devices.len(),
{
    if devices.len() == 0 {
        Seq::empty()
    } else {
        let rest = gpu_names(devices.drop_last());
        if devices.last().is_gpu_kind() {
            rest.push(devices.last().name@)
        } else {
            rest
        }
    }
}

/// Whether a device is the GPU with a name.
pub open spec fn is_named_gpu(device: GpuDevice, name: Seq<char>) -> bool {
    device.is_gpu_kind() && device.name@ == name
}

/// Whether one device is preferred to another: a discrete GPU to an integrated
/// one, then the one with more free memory.
pub open spec fn preferred(one: GpuDevice, other: GpuDevice) -> bool {
    let a = one.kind@ == "gpu"@;
    let b = other.kind@ == "gpu"@;
    (a && !b) || (a == b && one.free_memory > other.free_memory)
}

/// Whether a device is the one to use where none was asked for: the last of the
/// GPUs that no other GPU is preferred to.
pub open spec fn is_default(devices: Seq<GpuDevice>, at: int) -> bool {
    &&& 0 <= at < devices.len()
    &&& devices[at].is_gpu_kind()
    &&& forall|i: int|
        0 <= i < devices.len() && (#[trigger] devices[i]).is_gpu_kind() ==> {
            &&& !preferred(devices[i], devices[at])
            &&& i > at ==> preferred(devices[at], devices[i])
        }
}

/// Whether the device at `at` is the first GPU with a name.
pub open spec fn is_first_named(devices: Seq<GpuDevice>, name: Seq<char>, at: int) -> bool {
    &&& 0 <= at < devices.len()
    &&& is_named_gpu(devices[at], name)
    &&& forall|i: int| 0 <= i < at ==> !is_named_gpu(#[trigger] devices[i], name)
}

/// What is said where no GPU has a name.
pub open spec fn unavailable_shown(name: Seq<char>, devices: Seq<GpuDevice>) -> Seq<char> {
    "GPU "@ + quoted(name) + " unavailable; available GPUs: "@ + joined(gpu_names(devices), ", "@)
}

fn names_of(devices: &[GpuDevice]) -> (out: Vec<String>)
    ensures
        texts(out@) == gpu_names(devices@),
{
    let mut out: Vec<String> = Vec::new();
    assert(texts(out@) =~= Seq::<Seq<char>>::empty());
    for i in 0..devices.len()
        invariant
            texts(out@) == gpu_names(devices@.take(i as int)),
    {
        let ghost before = out@;
        assert(devices@.take(i as int + 1).drop_last() =~= devices@.take(i as int));
        if devices[i].is_gpu() {
            out.push(devices[i].name.clone());
            assert(texts(out@) =~= texts(before).push(devices@[i as int].name@));
        }
    }
    assert(devices@.take(devices@.len() as int) =~= devices@);
    out
}

fn find_named(devices: &[GpuDevice], name: &str) -> (out: Option<usize>)
    ensures
        match out {
            Some(at) => is_first_named(devices@, name@, at as int),
            None => forall|i: int|
                0 <= i < devices@.len() ==> !is_named_gpu(#[trigger] devices@[i], name@),
        },
{
    for i in 0..devices.len()
        invariant
            forall|j: int| 0 <= j < i ==> !is_named_gpu(#[trigger] devices@[j], name@),
    {
        if devices[i].is_gpu() && same(devices[i].name.as_str(), name) {
            return Some(i);
        }
    }
    None
}

fn is_preferred(one: &GpuDevice, other: &GpuDevice) -> (out: bool)
    ensures
        out == preferred(*one, *other),
{
    let a = same(one.kind.as_str(), "gpu");
    let b = same(other.kind.as_str(), "gpu");
    (a && !b) || (a == b && one.free_memory > other.free_memory)
}

fn find_default(devices: &[GpuDevice]) -> (out: Option<usize>)
    ensures
        match out {
            Some(at) => is_default(devices@, at as int),
            None => forall|i: int|
                0 <= i < devices@.len() ==> !(#[trigger] devices@[i]).is_gpu_kind(),
        },
{
    let mut best: Option<usize> = None;
    for i in 0..devices.len()
        invariant
            match best {
                Some(at) => at < i && is_default(devices@.take(i as int), at as int),
                None => forall|j: int|
                    0 <= j < i ==> !(#[trigger] devices@[j]).is_gpu_kind(),
            },
    {
        let ghost before = devices@.take(i as int);
        let ghost next = devices@.take(i as int + 1);
        assert(next =~= before.push(devices@[i as int]));
        if devices[i].is_gpu() {
            let takes = match best {
                Some(at) => !is_preferred(&devices[at], &devices[i]),
                None => true,
            };
            proof {
                if let Some(at) = best {
                    assert(before[at as int] == devices@[at as int]);
                    if takes {
                        assert forall|j: int|
                            0 <= j < next.len() && (#[trigger] next[j]).is_gpu_kind() implies {
                            &&& !preferred(next[j], next[i as int])
                            &&& j > i ==> preferred(next[i as int], next[j])
                        } by {
                            if j < i {
                                assert(next[j] == before[j]);
                                assert(!preferred(before[j], before[at as int]));
                            }
                        }
                        assert(is_default(next, i as int));
                    } else {
                        assert forall|j: int|
                            0 <= j < next.len() && (#[trigger] next[j]).is_gpu_kind() implies {
                            &&& !preferred(next[j], next[at as int])
                            &&& j > at ==> preferred(next[at as int], next[j])
                        } by {
                            if j < i {
                                assert(next[j] == before[j]);
                            }
                        }
                        assert(is_default(next, at as int));
                    }
                } else {
                    assert forall|j: int|
                        0 <= j < next.len() && (#[trigger] next[j]).is_gpu_kind() implies j
                        == i by {
                        if j < i {
                            assert(next[j] == devices@[j]);
                        }
                    }
                    assert(is_default(next, i as int));
                }
            }
            if takes {
                best = Some(i);
            }
        } else {
            proof {
                if let Some(at) = best {
                    assert forall|j: int|
                        0 <= j < next.len() && (#[trigger] next[j]).is_gpu_kind() implies {
                        &&& !preferred(next[j], next[at as int])
                        &&& j > at ==> preferred(next[at as int], next[j])
                    } by {
                        if j < i {
                            assert(next[j] == before[j]);
                        }
                    }
                    assert(is_default(next, at as int));
                }
            }
        }
    }
    assert(devices@.take(devices@.len() as int) =~= devices@);
    best
}

/// Whether a device is the first GPU with a name.
pub open spec fn named_pick(devices: Seq<GpuDevice>, name: Seq<char>, device: GpuDevice) -> bool {
    exists|at: int| #[trigger] is_first_named(devices, name, at) && devices[at] == device
}

/// Whether a device is the default among some.
pub open spec fn default_pick(devices: Seq<GpuDevice>, device: GpuDevice) -> bool {
    exists|at: int| #[trigger] is_default(devices, at) && devices[at] == device
}

/// Whether a result is the GPU to use, or the reason why there is none: the first
/// with the name asked for, or else the default.
pub open spec fn picked(
    devices: Seq<GpuDevice>,
    explicit: Option<Seq<char>>,
    out: Result<GpuDevice, String>,
) -> bool {
    match explicit {
        Some(name) => match out {
            Ok(device) => named_pick(devices, name, device),
            Err(said) => {
                &&& forall|i: int|
                    0 <= i < devices.len() ==> !is_named_gpu(#[trigger] devices[i], name)
                &&& said@ == unavailable_shown(name, devices)
            },
        },
        None => match out {
            Ok(device) => default_pick(devices, device),
            Err(said) => {
                &&& forall|i: int|
                    0 <= i < devices.len() ==> !(#[trigger] devices[i]).is_gpu_kind()
                &&& said@
                    == "no supported GPU found; install the GPU engine and driver; CPU inference is disabled"@
            },
        },
    }
}

/// Picks the GPU to use: the one asked for by name, or else the best. A CPU is
/// never picked.
pub fn select_device(devices: &[GpuDevice], explicit: Option<&str>) -> (out: Result<
    GpuDevice,
    String,
>)
    ensures
        picked(
            devices@,
            (match explicit {
                Some(name) => Some(name@),
                None => None,
            }),
            out,
        ),
{
    match explicit {
        Some(name) => match find_named(devices, name) {
            Some(at) => {
                let device = devices[at].copy();
                assert(named_pick(devices@, name@, device));
                Ok(device)
            },
            None => {
                let mut said = join3(
                    "GPU ",
                    quoted_text(name).as_str(),
                    " unavailable; available GPUs: ",
                );
                let names = names_of(devices);
                said.append(join(names.as_slice(), ", ").as_str());
                assert(said@ =~= unavailable_shown(name@, devices@));
                Err(said)
            },
        },
        None => match find_default(devices) {
            Some(at) => {
                let device = devices[at].copy();
                assert(default_pick(devices@, device));
                Ok(device)
            },
            None => Err(
                "no supported GPU found; install the GPU engine and driver; CPU inference is disabled".to_owned(),
            ),
        },
    }
}

/// A GPU server that this worker started, by the number its owner knows it by.
#[derive(Clone, Copy, Debug, PartialEq, Eq, Structural)]
pub struct Server {
    pub handle: u64,
    pub address: SocketAddr,
}

/// Who may use the worker's GPU, and the server that serves it.
#[derive(Clone, Copy, Debug, PartialEq, Eq, Structural)]
pub struct State {
    pub master: Option<DeviceId>,
    pub server: Option<Server>,
}

/// What to do for a master that wants the GPU server's address.
#[derive(Clone, Copy, Debug, PartialEq, Eq, Structural)]
pub enum AddressStep {
    /// The server runs, here.
    Running(SocketAddr),
    /// Start a server.
    Start,
}

/// Whether a text is what anyone but the registered master is told.
pub open spec fn restricted(said: Seq<char>) -> bool {
    said == "inference is restricted to the registered master"@
}

/// What is said of a GPU server that went away.
pub open spec fn exited_shown(status: Seq<char>, log: Seq<char>) -> Seq<char> {
    "GPU RPC server exited ("@ + status + "); inspect "@ + log
}

/// The worker's side of inference.
pub struct WorkerRuntime;

impl WorkerRuntime {
    /// Nobody registered, nothing started.
    pub fn idle() -> (out: State)
        ensures
            out == (State { master: None, server: None }),
    {
        State { master: None, server: None }
    }

    /// Registers a master, or none. Where that changes who it is, the server that
    /// ran for the one before is to be stopped.
    pub fn authorize(state: &mut State, master: Option<DeviceId>) -> (stop: Option<Server>)
        ensures
            *final(state) == authorized(*old(state), master),
            stop == given_up(*old(state), master),
    {
        let unchanged = match (state.master, master) {
            (Some(a), Some(b)) => a == b,
            (None, None) => true,
            _ => false,
        };
        if unchanged {
            None
        } else {
            let stop = state.server;
            state.server = None;
            state.master = master;
            stop
        }
    }

    /// Refuses anyone but the registered master.
    pub fn check_master(state: &State, from: DeviceId) -> (out: Result<(), String>)
        ensures
            out is Ok <==> may_use(*state, from),
            out matches Err(said) ==> restricted(said@),
    {
        let registered = match state.master {
            Some(master) => master == from,
            None => false,
        };
        if registered {
            Ok(())
        } else {
            Err("inference is restricted to the registered master".to_owned())
        }
    }

    /// Refuses anyone but the registered master, and reports a server that went
    /// away. `exited` is how the server ended, where it did.
    pub fn check_health(
        state: &mut State,
        from: DeviceId,
        exited: Option<String>,
        log: &str,
    ) -> (out: Result<(), String>)
        ensures
            checked(*old(state), from, exited, log@, *final(state), out),
    {
        WorkerRuntime::check_master(state, from)?;
        if state.server.is_some() {
            if let Some(status) = exited {
                state.server = None;
                let mut said = join3("GPU RPC server exited (", status.as_str(), "); inspect ");
                said.append(log);
                return Err(said);
            }
        }
        Ok(())
    }

    /// Where the server for the registered master is, or that one has to be
    /// started. `running` says whether the server started before still runs.
    pub fn address(state: &mut State, from: DeviceId, running: bool) -> (out: Result<
        AddressStep,
        String,
    >)
        ensures
            addressed(*old(state), from, running, *final(state), out),
    {
        WorkerRuntime::check_master(state, from)?;
        if let Some(server) = state.server {
            if running {
                return Ok(AddressStep::Running(server.address));
            }
            state.server = None;
        }
        Ok(AddressStep::Start)
    }

    /// Takes note of a server that was started.
    pub fn started(state: &mut State, server: Server)
        ensures
            *final(state) == (State { master: old(state).master, server: Some(server) }),
    {
        state.server = Some(server);
    }
}

/// The state after a master, or none, is registered: a server that ran for
/// another one is gone.
pub open spec fn authorized(state: State, master: Option<DeviceId>) -> State {
    if state.master == master {
        state
    } else {
        State { master, server: None }
    }
}

/// Whoever was registered before loses the GPU: after another master, or none,
/// is registered, the one before is refused and its server is gone.
pub proof fn law_replaced_master_loses_the_gpu(
    state: State,
    first: DeviceId,
    second: Option<DeviceId>,
)
    requires
        second != Some(first),
    ensures
        authorized(authorized(state, Some(first)), second).master != Some(first),
        authorized(authorized(state, Some(first)), second).server is None,
{
}

/// The arguments that a GPU server is started with.
pub fn rpc_args(port: u16, device: &str) -> (out: Vec<String>)
    ensures
        texts(out@) == seq![
            "--host"@,
            "127.0.0.1"@,
            "--port"@,
            decimal(port as nat),
            "--device"@,
            device@,
            "--cache"@,
        ],
{
    let mut out: Vec<String> = Vec::new();
    out.push("--host".to_owned());
    out.push("127.0.0.1".to_owned());
    out.push("--port".to_owned());
    out.push(number_text(port as u128));
    out.push("--device".to_owned());
    out.push(device.to_owned());
    out.push("--cache".to_owned());
    assert(texts(out@) =~= seq![
        "--host"@,
        "127.0.0.1"@,
        "--port"@,
        decimal(port as nat),
        "--device"@,
        device@,
        "--cache"@,
    ]);
    out
}

/// Where the next output of a GPU server goes in its log: whether the log is to
/// be emptied first, and how much it then holds. It never holds more than is
/// kept, unless one piece alone does.
pub fn log_room(written: usize, count: usize) -> (out: (bool, usize))
    requires
        written + count <= usize::MAX,
    ensures
        out.0 == begins_anew(written as nat, count as nat),
        out.1 == held_after(written as nat, count as nat),
{
    if written + count > RETAINED {
        (true, count)
    } else {
        (false, written + count)
    }
}

/// The device to report: as it was found just now where the GPU is idle, as it
/// was when the worker started where it is busy. `detected` is what was found,
/// or why nothing could be.
pub fn reported_device(
    busy: bool,
    stored: &GpuDevice,
    detected: Result<Vec<GpuDevice>, String>,
) -> (out: Result<GpuDevice, String>)
    ensures
        reports(busy, *stored, detected, out),
{
    if busy {
        return Ok(stored.copy());
    }
    match detected {
        Err(said) => Err(said),
        Ok(devices) => select_device(devices.as_slice(), Some(stored.name.as_str())),
    }
}

/// What a worker reports of its engine.
pub fn report(device: GpuDevice, busy: bool) -> (out: EngineCapabilities)
    ensures
        out.revision@ == ENGINE_REVISION@,
        out.device == device,
        out.busy == busy,
{
    EngineCapabilities { revision: ENGINE_REVISION.to_owned(), device, busy }
}

/// What waiting for the session before this one came to.
#[derive(Clone, Copy, Debug, PartialEq, Eq, Structural)]
pub enum SlotWait {
    Got,
    TimedOut,
    Closed,
}

/// Judges what waiting for the GPU came to.
pub fn slot_outcome(wait: SlotWait) -> (out: Result<(), String>)
    ensures
        match wait {
            SlotWait::Got => out is Ok,
            SlotWait::TimedOut => out matches Err(said) && said@ == "GPU worker is busy"@,
            SlotWait::Closed => out matches Err(said) && said@ == "GPU worker is shutting down"@,
        },
{
    match wait {
        SlotWait::Got => Ok(()),
        SlotWait::TimedOut => Err("GPU worker is busy".to_owned()),
        SlotWait::Closed => Err("GPU worker is shutting down".to_owned()),
    }
}

/// What to do after trying to reach a GPU server.
pub enum ReadyStep {
    /// It answers.
    Ready,
    /// Try again shortly.
    Retry,
    /// Give up, with these words.
    GiveUp(String),
}

/// Decides what to do after trying to reach a GPU server.
pub fn ready_step(
    attempt: Result<(), String>,
    past_deadline: bool,
    log: &str,
) -> (out: ReadyStep)
    ensures
        match attempt {
            Ok(()) => out is Ready,
            Err(error) => if past_deadline {
                out matches ReadyStep::GiveUp(said) && said@
                    == "GPU RPC server did not become ready: "@ + error@ + "; inspect "@ + log@
            } else {
                out is Retry
            },
        },
{
    match attempt {
        Ok(()) => ReadyStep::Ready,
        Err(error) => {
            if past_deadline {
                let mut said = join3(
                    "GPU RPC server did not become ready: ",
                    error.as_str(),
                    "; inspect ",
                );
                said.append(log);
                ReadyStep::GiveUp(said)
            } else {
                ReadyStep::Retry
            }
        },
    }
}

/// A CPU is never picked, whether or not a device was asked for by name.
pub proof fn law_cpu_is_never_picked(
    devices: Seq<GpuDevice>,
    explicit: Option<Seq<char>>,
    device: GpuDevice,
)
    requires
        picked(devices, explicit, Ok::<GpuDevice, String>(device)),
    ensures
        device.is_gpu_kind(),
        devices.contains(device),
{
    match explicit {
        Some(name) => {
            let at = choose|at: int|
                #[trigger] is_first_named(devices, name, at) && devices[at] == device;
            assert(devices[at] == device);
        },
        None => {
            let at = choose|at: int| #[trigger] is_default(devices, at) && devices[at] == device;
            assert(devices[at] == device);
        },
    }
}

/// Where no device is named, the GPU picked is one of those found, and there is no
/// better one: no discrete GPU where an integrated one is picked, none of its own
/// kind with more free memory, and, of those of its kind with as much, none after
/// it. There is one wherever there is any GPU.
pub proof fn law_default_gpu_has_the_most_memory(
    devices: Seq<GpuDevice>,
    out: Result<GpuDevice, String>,
)
    requires
        picked(devices, None, out),
    ensures
        match out {
            Ok(device) => {
                &&& device.kind@ == "gpu"@ || device.kind@ == "igpu"@
                &&& forall|i: int|
                    0 <= i < devices.len() && (#[trigger] devices[i]).kind@ == device.kind@
                        ==> devices[i].free_memory <= device.free_memory
                &&& device.kind@ != "gpu"@ ==> forall|i: int|
                    0 <= i < devices.len() ==> (#[trigger] devices[i]).kind@ != "gpu"@
                &&& exists|at: int|
                    0 <= at < devices.len() && #[trigger] devices[at] == device && forall|i: int|
                        at < i < devices.len() && (#[trigger] devices[i]).kind@ == device.kind@
                            ==> devices[i].free_memory < device.free_memory
            },
            Err(_) => forall|i: int|
                0 <= i < devices.len() ==> (#[trigger] devices[i]).kind@ != "gpu"@
                    && devices[i].kind@ != "igpu"@,
        },
{
    reveal_strlit("gpu");
    reveal_strlit("igpu");
    assert("gpu"@.len() != "igpu"@.len());
    match out {
        Ok(device) => {
            let at = choose|at: int| #[trigger] is_default(devices, at) && devices[at] == device;
            assert forall|i: int| 0 <= i < devices.len() && (#[trigger] devices[i]).kind@
                == device.kind@ implies devices[i].free_memory <= device.free_memory by {
                assert(devices[i].is_gpu_kind());
            }
            assert forall|i: int|
                device.kind@ != "gpu"@ && 0 <= i < devices.len() implies (
            #[trigger] devices[i]).kind@ != "gpu"@ by {
                if devices[i].kind@ == "gpu"@ {
                    assert(devices[i].is_gpu_kind());
                    assert(preferred(devices[i], devices[at]));
                }
            }
            assert forall|i: int|
                at < i < devices.len() && (#[trigger] devices[i]).kind@ == device.kind@ implies
                devices[i].free_memory < device.free_memory by {
                assert(devices[i].is_gpu_kind());
            }
            assert(devices[at] == device);
        },
        Err(_) => {},
    }
}

/// Where a device is named, the GPU picked is the first with that name; there is
/// none only where no GPU has it, and then what is said names every GPU, in the
/// order they were found.
pub proof fn law_named_gpu_is_the_first_of_that_name(
    devices: Seq<GpuDevice>,
    name: Seq<char>,
    out: Result<GpuDevice, String>,
)
    requires
        picked(devices, Some(name), out),
    ensures
        match out {
            Ok(device) => {
                &&& device.name@ == name
                &&& device.kind@ == "gpu"@ || device.kind@ == "igpu"@
                &&& exists|at: int|
                    0 <= at < devices.len() && #[trigger] devices[at] == device && forall|i: int|
                        0 <= i < at && (#[trigger] devices[i]).name@ == name ==> devices[i].kind@
                            != "gpu"@ && devices[i].kind@ != "igpu"@
            },
            Err(said) => {
                &&& forall|i: int|
                    0 <= i < devices.len() && (#[trigger] devices[i]).name@ == name
                        ==> devices[i].kind@ != "gpu"@ && devices[i].kind@ != "igpu"@
                &&& said@ == "GPU "@ + quoted(name) + " unavailable; available GPUs: "@ + joined(
                    devices.filter(
                        |d: GpuDevice| d.kind@ == "gpu"@ || d.kind@ == "igpu"@,
                    ).map_values(|d: GpuDevice| d.name@),
                    ", "@,
                )
            },
        },
{
    lemma_gpu_names(devices);
    match out {
        Ok(device) => {
            let at = choose|at: int|
                #[trigger] is_first_named(devices, name, at) && devices[at] == device;
            assert(devices[at] == device);
            assert forall|i: int| 0 <= i < at && (#[trigger] devices[i]).name@ == name implies
                devices[i].kind@ != "gpu"@ && devices[i].kind@ != "igpu"@ by {
                assert(!is_named_gpu(devices[i], name));
            }
        },
        Err(_) => {
            assert forall|i: int|
                0 <= i < devices.len() && (#[trigger] devices[i]).name@ == name implies
                devices[i].kind@ != "gpu"@ && devices[i].kind@ != "igpu"@ by {
                assert(!is_named_gpu(devices[i], name));
            }
        },
    }
}

proof fn lemma_gpu_names(devices: Seq<GpuDevice>)
    ensures
        gpu_names(devices) == devices.filter(
            |d: GpuDevice| d.kind@ == "gpu"@ || d.kind@ == "igpu"@,
        ).map_values(|d: GpuDevice| d.name@),
    decreases devices.len(),
{
    reveal(Seq::filter);
    let gpus = devices.filter(|d: GpuDevice| d.kind@ == "gpu"@ || d.kind@ == "igpu"@);
    if devices.len() > 0 {
        lemma_gpu_names(devices.drop_last());
        let fewer = devices.drop_last().filter(
            |d: GpuDevice| d.kind@ == "gpu"@ || d.kind@ == "igpu"@,
        );
        if devices.last().is_gpu_kind() {
            assert(gpus =~= fewer.push(devices.last()));
            assert(gpus.map_values(|d: GpuDevice| d.name@) =~= fewer.map_values(
                |d: GpuDevice| d.name@,
            ).push(devices.last().name@));
        } else {
            assert(gpus =~= fewer);
        }
    } else {
        assert(gpus.map_values(|d: GpuDevice| d.name@) =~= Seq::<Seq<char>>::empty());
    }
}

/// What is kept of some output is its beginning: all of it up to a mebibyte, and
/// the first mebibyte of more.
pub proof fn law_what_is_kept_is_the_beginning(bytes: Seq<u8>)
    ensures
        retained(bytes).is_prefix_of(bytes),
        bytes.len() <= 1024 * 1024 ==> retained(bytes) == bytes,
        bytes.len() > 1024 * 1024 ==> retained(bytes).len() == 1024 * 1024,
{
}

/// Only the master that was registered last may use the GPU, and the server it
/// has is one that was started since.
pub proof fn law_last_registration_counts(
    state: State,
    before: Option<DeviceId>,
    master: Option<DeviceId>,
)
    ensures
        authorized(authorized(state, before), master).master == master,
        before != master ==> authorized(authorized(state, before), master).server is None,
        state.master == master ==> authorized(state, master) == state,
{
}

/// A path below a directory is the directory and the rest with one slash between
/// them, whether or not the directory ends in one.
pub proof fn law_paths_are_joined_by_one_slash(dir: Seq<char>, rest: Seq<char>)
    ensures
        dir.len() > 0 && dir.last() != '/' ==> below(dir, rest) == dir.push('/') + rest,
        below(dir.push('/'), rest) == dir.push('/') + rest,
        below(Seq::empty(), rest) == rest,
{
    reveal_strlit("/");
    assert(dir + "/"@ =~= dir.push('/'));
    assert(Seq::<char>::empty() + rest =~= rest);
}

/// An engine is found exactly where its revision, without the white space around
/// it, is the one this daemon was made for and all three programs are there.
pub proof fn law_engine_is_found_only_complete(
    dir: Seq<char>,
    revision: Option<Seq<char>>,
    present: (bool, bool, bool),
)
    ensures
        install_fault(dir, revision, present) is None <==> {
            &&& revision matches Some(text)
            &&& trimmed(text) == "85d5703a3b1b47243213a39059a6e3076c92733a"@
            &&& present == (true, true, true)
        },
{
}

/// Whether a device may use the GPU.
pub open spec fn may_use(state: State, from: DeviceId) -> bool {
    state.master == Some(from)
}

/// The server to stop where a master, or none, is registered.
pub open spec fn given_up(state: State, master: Option<DeviceId>) -> Option<Server> {
    if state.master == master {
        None
    } else {
        state.server
    }
}

/// Whether a result is what a device that wants the server's address is told, and the
/// state what is left of it.
pub open spec fn addressed(
    before: State,
    from: DeviceId,
    running: bool,
    after: State,
    out: Result<AddressStep, String>,
) -> bool {
    &&& after.master == before.master
    &&& if !may_use(before, from) {
        &&& out matches Err(said)
        &&& restricted(said@)
        &&& after.server == before.server
    } else {
        match before.server {
            Some(server) if running => {
                &&& out == Ok::<AddressStep, String>(AddressStep::Running(server.address))
                &&& after.server == Some(server)
            },
            _ => {
                &&& out == Ok::<AddressStep, String>(AddressStep::Start)
                &&& after.server is None
            },
        }
    }
}

/// Whether a result is what a device that asks after the server is told, and the state
/// what is left of it.
pub open spec fn checked(
    before: State,
    from: DeviceId,
    exited: Option<String>,
    log: Seq<char>,
    after: State,
    out: Result<(), String>,
) -> bool {
    &&& after.master == before.master
    &&& if !may_use(before, from) {
        &&& out matches Err(said)
        &&& restricted(said@)
        &&& after.server == before.server
    } else {
        match (before.server, exited) {
            (Some(_), Some(status)) => {
                &&& out matches Err(said)
                &&& said@ == exited_shown(status@, log)
                &&& after.server is None
            },
            _ => {
                &&& out is Ok
                &&& after.server == before.server
            },
        }
    }
}

/// Only the master that was registered last is told where the GPU server is or that
/// one is to be started; anyone else is refused and changes nothing. It is told of a
/// server exactly where one was started and runs, and of that one; and a server that
/// ran for another master is the one to stop.
pub proof fn law_only_the_registered_master_uses_the_gpu(
    state: State,
    master: Option<DeviceId>,
    from: DeviceId,
    running: bool,
    after: State,
    out: Result<AddressStep, String>,
    exited: Option<String>,
    log: Seq<char>,
    left: State,
    health: Result<(), String>,
)
    requires
        addressed(authorized(state, master), from, running, after, out),
        checked(authorized(state, master), from, exited, log, left, health),
    ensures
        out is Ok <==> master == Some(from),
        master != Some(from) ==> health is Err && after == authorized(state, master) && left
            == authorized(state, master),
        out == Ok::<AddressStep, String>(AddressStep::Start) ==> after.server is None,
        out matches Ok(AddressStep::Running(address)) ==> {
            &&& running
            &&& state.master == master
            &&& state.server matches Some(server) && server.address == address
        },
        master == Some(from) ==> (health is Err <==> state.master == master && state.server is Some
            && exited is Some),
        health is Err && master == Some(from) ==> left.server is None,
        given_up(state, master) is Some <==> state.master != master && state.server is Some,
        given_up(state, master) matches Some(server) ==> state.server == Some(server),
{
}

/// Whether a log is emptied before the next output.
pub open spec fn begins_anew(written: nat, count: nat) -> bool {
    written + count > RETAINED
}

/// How much a log holds after the next output.
pub open spec fn held_after(written: nat, count: nat) -> nat {
    if begins_anew(written, count) {
        count
    } else {
        written + count
    }
}

/// A log never holds more than a mebibyte, unless one piece of output alone is more, and
/// it is emptied only where it would.
pub proof fn law_a_log_stays_small(written: nat, count: nat)
    ensures
        held_after(written, count) <= 1024 * 1024 || held_after(written, count) == count,
        begins_anew(written, count) <==> written + count > 1024 * 1024,
        !begins_anew(written, count) ==> held_after(written, count) == written + count,
        begins_anew(written, count) ==> held_after(written, count) == count,
{
}

/// Whether a result is the device that a worker reports.
pub open spec fn reports(
    busy: bool,
    stored: GpuDevice,
    detected: Result<Vec<GpuDevice>, String>,
    out: Result<GpuDevice, String>,
) -> bool {
    if busy {
        out == Ok::<GpuDevice, String>(stored)
    } else {
        match detected {
            Err(said) => out == Err::<GpuDevice, String>(said),
            Ok(devices) => picked(devices@, Some(stored.name@), out),
        }
    }
}

/// A worker that is busy reports its GPU as it was when it started, and one that is idle
/// as it was found just now: the GPU of that name, with the memory it has free now.
pub proof fn law_an_idle_gpu_is_reported_as_it_is_now(
    busy: bool,
    stored: GpuDevice,
    detected: Result<Vec<GpuDevice>, String>,
    out: Result<GpuDevice, String>,
)
    requires
        reports(busy, stored, detected, out),
    ensures
        busy ==> out == Ok::<GpuDevice, String>(stored),
        !busy && detected is Err ==> out is Err,
        (!busy && out is Ok) ==> detected is Ok && detected->Ok_0@.contains(out->Ok_0)
            && out->Ok_0.name@ == stored.name@,
        !busy && detected is Ok && (exists|i: int|
            0 <= i < detected->Ok_0@.len() && (#[trigger] detected->Ok_0@[i]).name@ == stored.name@
                && (detected->Ok_0@[i].kind@ == "gpu"@ || detected->Ok_0@[i].kind@ == "igpu"@))
            ==> out is Ok,
{
    if !busy {
        if let Ok(devices) = detected {
            law_named_gpu_is_the_first_of_that_name(devices@, stored.name@, out);
            if let Ok(device) = out {
                law_cpu_is_never_picked(devices@, Some(stored.name@), device);
            }
        }
    }
}

}
