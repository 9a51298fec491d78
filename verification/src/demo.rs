//! A run from end to end: boot a microVM, take a snapshot of it, shut it down, restore the
//! snapshot into a fresh microVM, and compare how long the two took.

#[allow(unused_imports)]
use crate::text::{lemma_encode_both_ends, lemma_encode_concat};
use crate::vm::api::{is_running, ApiCall};
#[allow(unused_imports)]
use crate::vm::api::{
    action_document, boot_document, load_document, machine_document, rootfs_document,
    says_running, snapshot_document, state_document,
};
use crate::vm::error::VmError;
use crate::vm::jail::{jail_root_of, JailedVm, VmConfig};
#[allow(unused_imports)]
use crate::vm::jail::{instance_dir, jail_root, lemma_root_end, removes_what_was_made, Launch};
#[allow(unused_imports)]
use crate::vm::json::json_of;
use crate::vm::path::join;
#[allow(unused_imports)]
use crate::vm::path::{is_name, joined, joined_with_one_slash, DOT, SLASH};
use crate::vm::wait::{Wait, WaitAction, WaitEvent};
use serde_json::Value;
use vstd::prelude::*;
#[allow(unused_imports)]
use vstd::utf8::{encode_utf8, is_ascii_chars, is_ascii_chars_encode_utf8};

verus! {

/// One of the two microVMs of the run.
#[derive(Clone, Copy, Debug, PartialEq, Eq, Structural)]
pub enum Instance {
    /// The one that is booted.
    Original,
    /// The one that the snapshot is restored into.
    Restored,
}

/// A file or directory of the run.
#[derive(Clone, Copy, Debug)]
pub enum Place {
    /// Among the assets of the project.
    Asset(&'static str),
    /// Where a snapshot is kept between the two microVMs.
    Scratch(&'static str),
    /// In the jail of a microVM.
    Jail(Instance, &'static str),
}

/// A request to the API of a microVM.
#[derive(Clone, Copy, Debug)]
pub enum Request {
    ConfigureMachine { vcpu_count: u32, mem_size_mib: u32 },
    ConfigureBootSource(&'static str),
    ConfigureRootfs(&'static str),
    Start,
    Pause,
    Resume,
    SnapshotCreate { state: &'static str, memory: &'static str },
    SnapshotLoad { state: &'static str, memory: &'static str },
}

impl Request {
    /// Whether a call is the one that this request stands for, to the server behind the socket
    /// given.
    pub open spec fn is_sent_by(self, call: ApiCall, socket_path: Seq<u8>) -> bool {
        match self {
            Request::ConfigureMachine { vcpu_count, mem_size_mib } => call.is_call(
                socket_path,
                "PUT"@,
                "/machine-config"@,
                machine_document(vcpu_count as nat, mem_size_mib as nat),
            ),
            Request::ConfigureBootSource(kernel) => call.is_call(
                socket_path,
                "PUT"@,
                "/boot-source"@,
                boot_document(kernel@),
            ),
            Request::ConfigureRootfs(rootfs) => call.is_call(
                socket_path,
                "PUT"@,
                "/drives/rootfs"@,
                rootfs_document(rootfs@),
            ),
            Request::Start => call.is_call(
                socket_path,
                "PUT"@,
                "/actions"@,
                action_document("InstanceStart"@),
            ),
            Request::Pause => call.is_call(
                socket_path,
                "PATCH"@,
                "/vm"@,
                state_document("Paused"@),
            ),
            Request::Resume => call.is_call(
                socket_path,
                "PATCH"@,
                "/vm"@,
                state_document("Resumed"@),
            ),
            Request::SnapshotCreate { state, memory } => call.is_call(
                socket_path,
                "PUT"@,
                "/snapshot/create"@,
                snapshot_document(state@, memory@),
            ),
            Request::SnapshotLoad { state, memory } => call.is_call(
                socket_path,
                "PUT"@,
                "/snapshot/load"@,
                load_document(state@, memory@),
            ),
        }
    }
}

impl JailedVm {
    /// The call that a request stands for.
    pub fn call_for(&self, request: Request) -> (call: ApiCall)
        ensures
            request.is_sent_by(call, self.socket_path@),
    {
        match request {
            Request::ConfigureMachine { vcpu_count, mem_size_mib } => self.configure_machine(
                vcpu_count,
                mem_size_mib,
            ),
            Request::ConfigureBootSource(kernel) => self.configure_boot_source(kernel),
            Request::ConfigureRootfs(rootfs) => self.configure_rootfs(rootfs),
            Request::Start => self.start(),
            Request::Pause => self.pause(),
            Request::Resume => self.resume(),
            Request::SnapshotCreate { state, memory } => self.snapshot_create(state, memory),
            Request::SnapshotLoad { state, memory } => self.snapshot_load(state, memory),
        }
    }
}

/// What is done in a step of the run.
#[derive(Clone, Copy, Debug)]
pub enum Step {
    /// Print a line.
    Say(&'static str),
    /// Start a microVM in its jail.
    Spawn(Instance),
    /// Copy a file.
    Copy(Place, Place),
    /// Make a directory, and those it lies in.
    MakeDir(Place),
    /// Send a request.
    Send(Instance, Request),
    /// Begin to measure.
    StartTimer(&'static str),
    /// Wait until a microVM runs.
    AwaitRunning(Instance),
    /// End the measurement.
    StopTimer,
    /// Print the state of a microVM.
    ShowState(Instance),
    /// Shut a microVM down.
    Shutdown(Instance),
    /// Print how the two measurements compare.
    Compare,
    /// Make sure that the directory of an instance is gone.
    AssertGone(&'static str),
}

/// A step, and what to say if it fails.
#[derive(Clone, Copy, Debug)]
pub struct Act {
    pub step: Step,
    pub failure: &'static str,
}

/// The configuration of a microVM of the run.
pub fn config(instance: Instance) -> (cfg: VmConfig<'static>)
    ensures
        cfg.id@ == id_of(instance),
        cfg.jailer_path@ == encode_utf8("/home/pj/.local/bin/jailer"@),
        cfg.firecracker_path@ == encode_utf8("/home/pj/.local/bin/firecracker"@),
        cfg.uid == 1000,
        cfg.gid == 1000,
        cfg.chroot_base@ == encode_utf8("/srv/jailer"@),
{
    let id = match instance {
        Instance::Original => "backtest-demo",
        Instance::Restored => "backtest-demo-restore",
    };
    VmConfig {
        id,
        jailer_path: "/home/pj/.local/bin/jailer".as_bytes(),
        firecracker_path: "/home/pj/.local/bin/firecracker".as_bytes(),
        uid: 1000,
        gid: 1000,
        chroot_base: "/srv/jailer".as_bytes(),
    }
}

/// The name of a microVM of the run.
pub open spec fn id_of(instance: Instance) -> Seq<char> {
    match instance {
        Instance::Original => "backtest-demo"@,
        Instance::Restored => "backtest-demo-restore"@,
    }
}

/// The path of a place, for a project in the directory given. A microVM's jail is where the
/// jailer makes it.
pub open spec fn path_of(place: Place, project_root: Seq<u8>) -> Seq<u8> {
    let assets = joined(project_root, encode_utf8("vm-assets"@));
    match place {
        Place::Asset(name) => joined(assets, encode_utf8(name@)),
        Place::Scratch(name) => joined(
            joined(assets, encode_utf8("snap-scratch"@)),
            encode_utf8(name@),
        ),
        Place::Jail(instance, name) => joined(
            jail_root(encode_utf8("/srv/jailer"@), id_of(instance)),
            encode_utf8(name@),
        ),
    }
}

/// Finds the path of a place.
pub fn locate(place: Place, project_root: &[u8]) -> (path: Vec<u8>)
    ensures
        path@ == path_of(place, project_root@),
{
    let assets = join(project_root, "vm-assets".as_bytes());
    match place {
        Place::Asset(name) => join(assets.as_slice(), name.as_bytes()),
        Place::Scratch(name) => {
            let scratch = join(assets.as_slice(), "snap-scratch".as_bytes());
            join(scratch.as_slice(), name.as_bytes())
        },
        Place::Jail(instance, name) => {
            let root = jail_root_of(&config(instance));
            join(root.as_slice(), name.as_bytes())
        },
    }
}

/// The steps of the run, in order. A step that fails ends it.
pub open spec fn script() -> Seq<Act> {
    seq![
        Act { step: Step::Say("== spawning jailed firecracker (backtest-demo) =="), failure: "" },
        Act { step: Step::Spawn(Instance::Original), failure: "spawn failed" },
        Act {
            step: Step::Copy(Place::Asset("vmlinux"), Place::Jail(Instance::Original, "vmlinux")),
            failure: "copy kernel",
        },
        Act {
            step: Step::Copy(
                Place::Asset("rootfs.ext4"),
                Place::Jail(Instance::Original, "rootfs.ext4"),
            ),
            failure: "copy rootfs",
        },
        Act {
            step: Step::Send(
                Instance::Original,
                Request::ConfigureMachine { vcpu_count: 1, mem_size_mib: 256 },
            ),
            failure: "machine-config",
        },
        Act {
            step: Step::Send(Instance::Original, Request::ConfigureBootSource("/vmlinux")),
            failure: "boot-source",
        },
        Act {
            step: Step::Send(Instance::Original, Request::ConfigureRootfs("/rootfs.ext4")),
            failure: "drives/rootfs",
        },
        Act { step: Step::StartTimer("cold boot"), failure: "" },
        Act {
            step: Step::Send(Instance::Original, Request::Start),
            failure: "InstanceStart",
        },
        Act {
            step: Step::AwaitRunning(Instance::Original),
            failure: "VM did not reach Running state in time",
        },
        Act { step: Step::StopTimer, failure: "" },
        Act { step: Step::ShowState(Instance::Original), failure: "state" },
        Act { step: Step::Send(Instance::Original, Request::Pause), failure: "pause" },
        Act {
            step: Step::MakeDir(Place::Jail(Instance::Original, "snap")),
            failure: "mkdir snap",
        },
        Act {
            step: Step::Send(
                Instance::Original,
                Request::SnapshotCreate { state: "/snap/state.snap", memory: "/snap/mem.snap" },
            ),
            failure: "snapshot create",
        },
        Act { step: Step::MakeDir(Place::Asset("snap-scratch")), failure: "mkdir snap-scratch" },
        Act {
            step: Step::Copy(
                Place::Jail(Instance::Original, "snap/state.snap"),
                Place::Scratch("state.snap"),
            ),
            failure: "copy snapshot state out of chroot",
        },
        Act {
            step: Step::Copy(
                Place::Jail(Instance::Original, "snap/mem.snap"),
                Place::Scratch("mem.snap"),
            ),
            failure: "copy snapshot mem out of chroot",
        },
        Act {
            step: Step::Say("== killing original instance to simulate a real cold restore =="),
            failure: "",
        },
        Act { step: Step::Shutdown(Instance::Original), failure: "shutdown original" },
        Act { step: Step::Spawn(Instance::Restored), failure: "spawn restore" },
        Act {
            step: Step::MakeDir(Place::Jail(Instance::Restored, "snap")),
            failure: "mkdir snap (restore)",
        },
        Act {
            step: Step::Copy(
                Place::Scratch("state.snap"),
                Place::Jail(Instance::Restored, "snap/state.snap"),
            ),
            failure: "copy snapshot state",
        },
        Act {
            step: Step::Copy(
                Place::Scratch("mem.snap"),
                Place::Jail(Instance::Restored, "snap/mem.snap"),
            ),
            failure: "copy snapshot mem",
        },
        Act {
            step: Step::Copy(
                Place::Asset("rootfs.ext4"),
                Place::Jail(Instance::Restored, "rootfs.ext4"),
            ),
            failure: "copy rootfs (restore)",
        },
        Act { step: Step::StartTimer("snapshot restore"), failure: "" },
        Act {
            step: Step::Send(
                Instance::Restored,
                Request::SnapshotLoad { state: "/snap/state.snap", memory: "/snap/mem.snap" },
            ),
            failure: "snapshot load",
        },
        Act { step: Step::Send(Instance::Restored, Request::Resume), failure: "resume" },
        Act {
            step: Step::AwaitRunning(Instance::Restored),
            failure: "VM did not reach Running state in time",
        },
        Act { step: Step::StopTimer, failure: "" },
        Act { step: Step::Compare, failure: "" },
        Act { step: Step::Say("== tearing down =="), failure: "" },
        Act { step: Step::Shutdown(Instance::Restored), failure: "shutdown restored" },
        Act {
            step: Step::AssertGone("/srv/jailer/firecracker/backtest-demo"),
            failure: "original chroot dir should be gone",
        },
        Act {
            step: Step::AssertGone("/srv/jailer/firecracker/backtest-demo-restore"),
            failure: "restored chroot dir should be gone",
        },
        Act { step: Step::Say("== demo complete, no orphaned instances =="), failure: "" },
    ]
}

/// Writes down the steps of the run.
pub fn demo() -> (acts: Vec<Act>)
    ensures
        acts@ == script(),
{
    let acts: Vec<Act> = vec![
        Act { step: Step::Say("== spawning jailed firecracker (backtest-demo) =="), failure: "" },
        Act { step: Step::Spawn(Instance::Original), failure: "spawn failed" },
        Act {
            step: Step::Copy(Place::Asset("vmlinux"), Place::Jail(Instance::Original, "vmlinux")),
            failure: "copy kernel",
        },
        Act {
            step: Step::Copy(
                Place::Asset("rootfs.ext4"),
                Place::Jail(Instance::Original, "rootfs.ext4"),
            ),
            failure: "copy rootfs",
        },
        Act {
            step: Step::Send(
                Instance::Original,
                Request::ConfigureMachine { vcpu_count: 1, mem_size_mib: 256 },
            ),
            failure: "machine-config",
        },
        Act {
            step: Step::Send(Instance::Original, Request::ConfigureBootSource("/vmlinux")),
            failure: "boot-source",
        },
        Act {
            step: Step::Send(Instance::Original, Request::ConfigureRootfs("/rootfs.ext4")),
            failure: "drives/rootfs",
        },
        Act { step: Step::StartTimer("cold boot"), failure: "" },
        Act {
            step: Step::Send(Instance::Original, Request::Start),
            failure: "InstanceStart",
        },
        Act {
            step: Step::AwaitRunning(Instance::Original),
            failure: "VM did not reach Running state in time",
        },
        Act { step: Step::StopTimer, failure: "" },
        Act { step: Step::ShowState(Instance::Original), failure: "state" },
        Act { step: Step::Send(Instance::Original, Request::Pause), failure: "pause" },
        Act {
            step: Step::MakeDir(Place::Jail(Instance::Original, "snap")),
            failure: "mkdir snap",
        },
        Act {
            step: Step::Send(
                Instance::Original,
                Request::SnapshotCreate { state: "/snap/state.snap", memory: "/snap/mem.snap" },
            ),
            failure: "snapshot create",
        },
        Act { step: Step::MakeDir(Place::Asset("snap-scratch")), failure: "mkdir snap-scratch" },
        Act {
            step: Step::Copy(
                Place::Jail(Instance::Original, "snap/state.snap"),
                Place::Scratch("state.snap"),
            ),
            failure: "copy snapshot state out of chroot",
        },
        Act {
            step: Step::Copy(
                Place::Jail(Instance::Original, "snap/mem.snap"),
                Place::Scratch("mem.snap"),
            ),
            failure: "copy snapshot mem out of chroot",
        },
        Act {
            step: Step::Say("== killing original instance to simulate a real cold restore =="),
            failure: "",
        },
        Act { step: Step::Shutdown(Instance::Original), failure: "shutdown original" },
        Act { step: Step::Spawn(Instance::Restored), failure: "spawn restore" },
        Act {
            step: Step::MakeDir(Place::Jail(Instance::Restored, "snap")),
            failure: "mkdir snap (restore)",
        },
        Act {
            step: Step::Copy(
                Place::Scratch("state.snap"),
                Place::Jail(Instance::Restored, "snap/state.snap"),
            ),
            failure: "copy snapshot state",
        },
        Act {
            step: Step::Copy(
                Place::Scratch("mem.snap"),
                Place::Jail(Instance::Restored, "snap/mem.snap"),
            ),
            failure: "copy snapshot mem",
        },
        Act {
            step: Step::Copy(
                Place::Asset("rootfs.ext4"),
                Place::Jail(Instance::Restored, "rootfs.ext4"),
            ),
            failure: "copy rootfs (restore)",
        },
        Act { step: Step::StartTimer("snapshot restore"), failure: "" },
        Act {
            step: Step::Send(
                Instance::Restored,
                Request::SnapshotLoad { state: "/snap/state.snap", memory: "/snap/mem.snap" },
            ),
            failure: "snapshot load",
        },
        Act { step: Step::Send(Instance::Restored, Request::Resume), failure: "resume" },
        Act {
            step: Step::AwaitRunning(Instance::Restored),
            failure: "VM did not reach Running state in time",
        },
        Act { step: Step::StopTimer, failure: "" },
        Act { step: Step::Compare, failure: "" },
        Act { step: Step::Say("== tearing down =="), failure: "" },
        Act { step: Step::Shutdown(Instance::Restored), failure: "shutdown restored" },
        Act {
            step: Step::AssertGone("/srv/jailer/firecracker/backtest-demo"),
            failure: "original chroot dir should be gone",
        },
        Act {
            step: Step::AssertGone("/srv/jailer/firecracker/backtest-demo-restore"),
            failure: "restored chroot dir should be gone",
        },
        Act { step: Step::Say("== demo complete, no orphaned instances =="), failure: "" },
    ];
    assert(acts@ =~= script());
    acts
}

/// The wait for a microVM to run.
pub fn wait_until_running() -> (wait: Wait)
    ensures
        wait == (Wait { timeout_millis: 10000, interval_millis: 50, what: "Running state" }),
{
    Wait { timeout_millis: 10000, interval_millis: 50, what: "Running state" }
}

/// What follows in the wait for a microVM to run when its state was asked for. A state that could
/// not be had counts as one that is not there yet.
pub fn next_after_state(wait: &Wait, state: &Result<Value, VmError>) -> (action: WaitAction)
    ensures
        action == wait.action_after(
            WaitEvent::Probed(state matches Ok(document) && says_running(json_of(*document))),
        ),
{
    wait.next(WaitEvent::Probed(is_running(state)))
}

/// Whether a place is in the jail of a microVM.
pub open spec fn is_in_jail(place: Place, instance: Instance) -> bool {
    place matches Place::Jail(i, _) && i == instance
}

/// Whether a step has to do with a microVM.
pub open spec fn involves(step: Step, instance: Instance) -> bool {
    match step {
        Step::Spawn(i) => i == instance,
        Step::Send(i, _) => i == instance,
        Step::AwaitRunning(i) => i == instance,
        Step::ShowState(i) => i == instance,
        Step::Shutdown(i) => i == instance,
        Step::Copy(from, to) => is_in_jail(from, instance) || is_in_jail(to, instance),
        Step::MakeDir(place) => is_in_jail(place, instance),
        _ => false,
    }
}

/// Each microVM is started once and shut down once, and every step that has to do with it lies
/// between the two. So a snapshot is out of the jail before the shutdown removes it, and no
/// microVM is left behind.
pub proof fn used_only_while_up(instance: Instance) -> (life: (int, int))
    ensures
        0 <= life.0 < life.1 < script().len(),
        script()[life.0].step == Step::Spawn(instance),
        script()[life.1].step == Step::Shutdown(instance),
        forall|i: int|
            0 <= i < script().len() && involves((#[trigger] script()[i]).step, instance)
                ==> life.0 <= i <= life.1,
        forall|i: int|
            0 <= i < script().len() && (#[trigger] script()[i]).step == Step::Spawn(instance) ==> i
                == life.0,
        forall|i: int|
            0 <= i < script().len() && (#[trigger] script()[i]).step == Step::Shutdown(instance)
                ==> i == life.1,
{
    match instance {
        Instance::Original => (1, 19),
        Instance::Restored => (20, 32),
    }
}

/// Whether a request configures a microVM.
pub open spec fn configures(request: Request) -> bool {
    request is ConfigureMachine || request is ConfigureBootSource || request is ConfigureRootfs
}

/// A snapshot is loaded into a microVM that was not configured, and with its files and the root
/// drive that it refers to in the jail.
pub proof fn loaded_when_fresh(instance: Instance, state: &'static str, memory: &'static str, at: int)
    requires
        0 <= at < script().len(),
        script()[at].step == Step::Send(instance, Request::SnapshotLoad { state, memory }),
    ensures
        forall|i: int|
            0 <= i < script().len() ==> !((#[trigger] script()[i]).step matches Step::Send(
                to,
                request,
            ) && to == instance && configures(request)),
        exists|i: int|
            0 <= i < at && (#[trigger] script()[i]).step == Step::Copy(
                Place::Scratch("state.snap"),
                Place::Jail(instance, "snap/state.snap"),
            ),
        exists|i: int|
            0 <= i < at && (#[trigger] script()[i]).step == Step::Copy(
                Place::Scratch("mem.snap"),
                Place::Jail(instance, "snap/mem.snap"),
            ),
        exists|i: int|
            0 <= i < at && (#[trigger] script()[i]).step == Step::Copy(
                Place::Asset("rootfs.ext4"),
                Place::Jail(instance, "rootfs.ext4"),
            ),
{
    assert(script()[26].step is Send);
    assert(at == 26);
    assert(script()[22].step is Copy);
    assert(script()[23].step is Copy);
    assert(script()[24].step is Copy);
}

/// The directory that has to be gone when a microVM is shut down.
pub open spec fn gone_dir(instance: Instance) -> &'static str {
    match instance {
        Instance::Original => "/srv/jailer/firecracker/backtest-demo",
        Instance::Restored => "/srv/jailer/firecracker/backtest-demo-restore",
    }
}

/// The directories that the run makes sure are gone are those that the shutdowns remove, and each
/// is looked for behind the shutdown of its microVM.
pub proof fn looks_for_what_was_removed(instance: Instance) -> (at: int)
    ensures
        instance_dir(jail_root(encode_utf8("/srv/jailer"@), id_of(instance))) == encode_utf8(
            gone_dir(instance)@,
        ),
        0 <= at < script().len(),
        script()[at].step == Step::AssertGone(gone_dir(instance)),
        forall|i: int|
            0 <= i < script().len() && (#[trigger] script()[i]).step == Step::Shutdown(instance)
                ==> i < at,
        forall|i: int|
            0 <= i < script().len() && (#[trigger] script()[i]).step is AssertGone ==> (exists|
                j: Instance,
            | script()[i].step == Step::AssertGone(#[trigger] gone_dir(j))),
{
    lemma_instance_dir(instance);
    assert(gone_dir(Instance::Original) == "/srv/jailer/firecracker/backtest-demo");
    assert(gone_dir(Instance::Restored) == "/srv/jailer/firecracker/backtest-demo-restore");
    match instance {
        Instance::Original => 33,
        Instance::Restored => 34,
    }
}

/// Where the instances of the run lie.
proof fn lemma_instance_dir(instance: Instance)
    ensures
        instance_dir(jail_root(encode_utf8("/srv/jailer"@), id_of(instance))) == encode_utf8(
            gone_dir(instance)@,
        ),
{
    reveal_strlit("/srv/jailer");
    reveal_strlit("firecracker");
    reveal_strlit("backtest-demo");
    reveal_strlit("backtest-demo-restore");
    reveal_strlit("/srv/jailer/firecracker/backtest-demo");
    reveal_strlit("/srv/jailer/firecracker/backtest-demo-restore");
    reveal_strlit("/");
    let base = "/srv/jailer"@;
    let all = "firecracker"@;
    let id = id_of(instance);
    let instances = base + "/"@ + all;
    lemma_joined_text(base, all);
    lemma_joined_text(instances, id);
    assert(gone_dir(instance)@ =~= instances + "/"@ + id);
    lemma_name_text(id);
    removes_what_was_made(encode_utf8(base), id);
}

/// A name of ASCII characters without a slash or a dot is a name in bytes too.
proof fn lemma_name_text(name: Seq<char>)
    requires
        name.len() > 0,
        is_ascii_chars(name),
        forall|i: int| 0 <= i < name.len() ==> #[trigger] name[i] != '/' && name[i] != '.',
    ensures
        is_name(encode_utf8(name)),
{
    is_ascii_chars_encode_utf8(name);
    let bytes = encode_utf8(name);
    assert forall|i: int| 0 <= i < bytes.len() implies #[trigger] bytes[i] != SLASH && bytes[i]
        != DOT by {
        assert(name[i] as u8 == bytes[i]);
    }
    assert(bytes[0] != DOT);
}

/// The path of two ASCII texts that are joined is that of the texts with a slash between them.
proof fn lemma_joined_text(base: Seq<char>, part: Seq<char>)
    requires
        base.len() > 0,
        part.len() > 0,
        is_ascii_chars(base),
        is_ascii_chars(part),
        base.last() != '/',
        part[0] != '/',
    ensures
        joined(encode_utf8(base), encode_utf8(part)) == encode_utf8(base + "/"@ + part),
{
    reveal_strlit("/");
    is_ascii_chars_encode_utf8(base);
    is_ascii_chars_encode_utf8(part);
    is_ascii_chars_encode_utf8("/"@);
    assert("/"@[0] as u8 == SLASH);
    assert(encode_utf8("/"@) =~= seq![SLASH]);
    assert(base[base.len() - 1] as u8 == encode_utf8(base)[base.len() - 1]);
    assert(part[0] as u8 == encode_utf8(part)[0]);
    lemma_encode_concat(base + "/"@, part);
    lemma_encode_concat(base, "/"@);
    assert(joined(encode_utf8(base), encode_utf8(part)) =~= encode_utf8(base + "/"@ + part));
}

/// A file of the run.
pub ghost enum File {
    Asset(Seq<char>),
    Scratch(Seq<char>),
    InJail(Instance, Seq<char>),
}

/// The file at a place.
pub open spec fn file_at(place: Place) -> File {
    match place {
        Place::Asset(name) => File::Asset(name@),
        Place::Scratch(name) => File::Scratch(name@),
        Place::Jail(instance, name) => File::InJail(instance, name@),
    }
}

/// The file that a microVM knows by a path, which it takes from the root of its jail.
pub open spec fn seen_as(instance: Instance, path: Seq<char>) -> File {
    File::InJail(instance, path.drop_first())
}

/// Whether a step may change what a file holds. A jail is new when its microVM is started and gone
/// when it is shut down.
pub open spec fn changes(step: Step, file: File) -> bool {
    match step {
        Step::Copy(_, to) => file_at(to) == file,
        Step::Send(instance, Request::SnapshotCreate { state, memory }) => file == seen_as(
            instance,
            state@,
        ) || file == seen_as(instance, memory@),
        Step::Spawn(instance) => file matches File::InJail(i, _) && i == instance,
        Step::Shutdown(instance) => file matches File::InJail(i, _) && i == instance,
        _ => false,
    }
}

/// Whether a file is left alone by the steps between two of the run.
pub open spec fn is_kept(file: File, from: int, to: int) -> bool {
    forall|i: int| from < i < to ==> !changes((#[trigger] script()[i]).step, file)
}

/// Whether the step `at` copies one file to another.
pub open spec fn copies(at: int, from: File, to: File) -> bool {
    script()[at].step matches Step::Copy(a, b) && file_at(a) == from && file_at(b) == to
}

/// A snapshot is loaded from files that hold what the snapshot of the other microVM put into its
/// own: the state is what was saved as the state, and the memory what was saved as the memory. Each
/// was copied out of the one jail and into the other, and nothing touched it on the way.
pub proof fn restores_what_was_saved(
    at: int,
    to: Instance,
    state: &'static str,
    memory: &'static str,
) -> (way: (int, File, int, int, File, int, int))
    requires
        0 <= at < script().len(),
        script()[at].step == Step::Send(to, Request::SnapshotLoad { state, memory }),
    ensures
        ({
            let (saved, kept_state, state_out, state_in, kept_memory, memory_out, memory_in) = way;
            &&& 0 <= saved
            &&& script()[saved].step matches Step::Send(
                from,
                Request::SnapshotCreate { state: saved_state, memory: saved_memory },
            )
            &&& from != to
            &&& seen_as(from, saved_state@) != seen_as(from, saved_memory@)
            &&& saved < state_out < state_in < at
            &&& is_kept(seen_as(from, saved_state@), saved, state_out)
            &&& copies(state_out, seen_as(from, saved_state@), kept_state)
            &&& is_kept(kept_state, state_out, state_in)
            &&& copies(state_in, kept_state, seen_as(to, state@))
            &&& is_kept(seen_as(to, state@), state_in, at)
            &&& saved < memory_out < memory_in < at
            &&& is_kept(seen_as(from, saved_memory@), saved, memory_out)
            &&& copies(memory_out, seen_as(from, saved_memory@), kept_memory)
            &&& is_kept(kept_memory, memory_out, memory_in)
            &&& copies(memory_in, kept_memory, seen_as(to, memory@))
            &&& is_kept(seen_as(to, memory@), memory_in, at)
        }),
{
    reveal_strlit("/snap/state.snap");
    reveal_strlit("/snap/mem.snap");
    reveal_strlit("snap/state.snap");
    reveal_strlit("snap/mem.snap");
    reveal_strlit("state.snap");
    reveal_strlit("mem.snap");
    reveal_strlit("rootfs.ext4");
    assert(script()[26].step is Send);
    assert(at == 26);
    assert("/snap/state.snap"@.drop_first() =~= "snap/state.snap"@);
    assert("/snap/mem.snap"@.drop_first() =~= "snap/mem.snap"@);
    assert("snap/state.snap"@.len() == 15 && "snap/mem.snap"@.len() == 13);
    assert("state.snap"@.len() == 10 && "mem.snap"@.len() == 8 && "rootfs.ext4"@.len() == 11);
    let kept_state = File::Scratch("state.snap"@);
    let kept_memory = File::Scratch("mem.snap"@);
    assert(script()[14].step == Step::Send(
        Instance::Original,
        Request::SnapshotCreate { state: "/snap/state.snap", memory: "/snap/mem.snap" },
    ));
    assert(script()[16].step is Copy && script()[17].step is Copy);
    assert(script()[22].step is Copy && script()[23].step is Copy);
    (14, kept_state, 16, 22, kept_memory, 17, 23)
}

/// The root drive that a snapshot refers to, by the path that it was configured with, is the same
/// file in the microVM that it is loaded into: both were copied from one asset.
pub proof fn restores_onto_the_same_drive(
    at: int,
    to: Instance,
    state: &'static str,
    memory: &'static str,
    set: int,
    from: Instance,
    drive: &'static str,
) -> (way: (File, int, int))
    requires
        0 <= at < script().len(),
        script()[at].step == Step::Send(to, Request::SnapshotLoad { state, memory }),
        0 <= set < script().len(),
        script()[set].step == Step::Send(from, Request::ConfigureRootfs(drive)),
    ensures
        way.0 is Asset,
        0 <= way.1 < set,
        copies(way.1, way.0, seen_as(from, drive@)),
        is_kept(seen_as(from, drive@), way.1, set),
        0 <= way.2 < at,
        copies(way.2, way.0, seen_as(to, drive@)),
        is_kept(seen_as(to, drive@), way.2, at),
{
    reveal_strlit("/rootfs.ext4");
    reveal_strlit("rootfs.ext4");
    assert(script()[26].step is Send);
    assert(at == 26);
    assert(script()[6].step is Send);
    assert(set == 6);
    assert("/rootfs.ext4"@.drop_first() =~= "rootfs.ext4"@);
    assert(script()[3].step is Copy && script()[24].step is Copy);
    (File::Asset("rootfs.ext4"@), 3, 24)
}

/// A microVM is told of a kernel that is in its jail, which is the kernel among the assets, and of
/// a root drive that is, which is the root file system among them.
pub proof fn configures_what_is_there(at: int, instance: Instance, path: &'static str) -> (from: int)
    requires
        0 <= at < script().len(),
        script()[at].step == Step::Send(instance, Request::ConfigureBootSource(path))
            || script()[at].step == Step::Send(instance, Request::ConfigureRootfs(path)),
    ensures
        0 <= from < at,
        script()[at].step == Step::Send(instance, Request::ConfigureBootSource(path)) ==> copies(
            from,
            File::Asset("vmlinux"@),
            seen_as(instance, path@),
        ),
        script()[at].step == Step::Send(instance, Request::ConfigureRootfs(path)) ==> copies(
            from,
            File::Asset("rootfs.ext4"@),
            seen_as(instance, path@),
        ),
        is_kept(seen_as(instance, path@), from, at),
{
    reveal_strlit("/vmlinux");
    reveal_strlit("vmlinux");
    reveal_strlit("/rootfs.ext4");
    reveal_strlit("rootfs.ext4");
    assert("/vmlinux"@.drop_first() =~= "vmlinux"@);
    assert("/rootfs.ext4"@.drop_first() =~= "rootfs.ext4"@);
    assert("vmlinux"@.len() == 7 && "rootfs.ext4"@.len() == 11);
    assert(script()[5].step is Send && script()[6].step is Send);
    assert(at == 5 || at == 6);
    assert(script()[2].step is Copy && script()[3].step is Copy);
    if at == 5 {
        2
    } else {
        3
    }
}

/// Whether the step `at` sends a request of the kind given to a microVM.
pub open spec fn sends(at: int, instance: Instance, kind: spec_fn(Request) -> bool) -> bool {
    script()[at].step matches Step::Send(to, request) && to == instance && kind(request)
}

/// A microVM is booted once all of it is configured, and its machine has a processor and memory. It
/// runs before it is paused, and is still paused when a snapshot of it is taken.
pub proof fn saved_while_paused(at: int, instance: Instance, state: &'static str, memory: &'static str)
    -> (way: (int, int, int, int, int, int))
    requires
        0 <= at < script().len(),
        script()[at].step == Step::Send(instance, Request::SnapshotCreate { state, memory }),
    ensures
        ({
            let (machine, kernel, drive, start, running, pause) = way;
            &&& 0 <= machine < start
            &&& script()[machine].step matches Step::Send(
                to,
                Request::ConfigureMachine { vcpu_count, mem_size_mib },
            )
            &&& to == instance
            &&& vcpu_count > 0
            &&& mem_size_mib > 0
            &&& 0 <= kernel < start
            &&& sends(kernel, instance, |r: Request| r is ConfigureBootSource)
            &&& 0 <= drive < start
            &&& sends(drive, instance, |r: Request| r is ConfigureRootfs)
            &&& sends(start, instance, |r: Request| r is Start)
            &&& start < running < pause < at
            &&& script()[running].step == Step::AwaitRunning(instance)
            &&& sends(pause, instance, |r: Request| r is Pause)
            &&& forall|i: int|
                pause < i < at ==> !((#[trigger] script()[i]).step matches Step::Send(to, _) && to
                    == instance)
        }),
{
    assert(script()[14].step is Send);
    assert(at == 14);
    assert(script()[4].step is Send && script()[5].step is Send && script()[6].step is Send);
    assert(script()[8].step is Send && script()[9].step is AwaitRunning && script()[12].step
        is Send);
    (4, 5, 6, 8, 9, 12)
}

/// What is loaded is let go on, and only then waited for; it is never booted.
pub proof fn resumed_once_loaded(at: int, instance: Instance, state: &'static str, memory: &'static str)
    -> (way: (int, int, int))
    requires
        0 <= at < script().len(),
        script()[at].step == Step::Send(instance, Request::SnapshotLoad { state, memory }),
    ensures
        at < way.0 < way.1 < way.2 < script().len(),
        sends(way.0, instance, |r: Request| r is Resume),
        script()[way.1].step == Step::AwaitRunning(instance),
        script()[way.2].step == Step::Shutdown(instance),
        forall|i: int|
            0 <= i < script().len() ==> !((#[trigger] script()[i]).step == Step::Send(
                instance,
                Request::Start,
            )),
        forall|i: int|
            0 <= i < script().len() && (#[trigger] script()[i]).step == Step::AwaitRunning(instance)
                ==> way.0 < i,
{
    assert(script()[26].step is Send);
    assert(at == 26);
    assert(script()[27].step is Send && script()[28].step is AwaitRunning && script()[32].step
        is Shutdown);
    (27, 28, 32)
}

/// What is measured is the time from the request that sets a microVM going, whether it is booted
/// or restored, until it runs, and nothing else. The two are compared when both were measured.
pub proof fn measures_until_it_runs(instance: Instance) -> (way: (int, int, int))
    ensures
        0 <= way.0 < way.1 < way.2 < script().len(),
        script()[way.0].step == Step::StartTimer(
            match instance {
                Instance::Original => "cold boot",
                Instance::Restored => "snapshot restore",
            },
        ),
        script()[way.1].step is StopTimer,
        script()[way.2].step is Compare,
        sends(
            way.0 + 1,
            instance,
            |r: Request| r is Start || r is SnapshotLoad,
        ),
        script()[way.1 - 1].step == Step::AwaitRunning(instance),
        forall|i: int|
            way.0 < i < way.1 ==> involves((#[trigger] script()[i]).step, instance) && (
            script()[i].step is Send || script()[i].step is AwaitRunning),
        forall|i: int|
            0 <= i < script().len() && (#[trigger] script()[i]).step is StopTimer ==> i < way.2,
{
    match instance {
        Instance::Original => {
            assert(script()[8].step is Send && script()[9].step is AwaitRunning);
            assert(script()[30].step is Compare);
            (7, 10, 30)
        },
        Instance::Restored => {
            assert(script()[26].step is Send && script()[28].step is AwaitRunning);
            assert(script()[30].step is Compare);
            (25, 29, 30)
        },
    }
}

/// A place in a jail is where the microVM sees it: the path that it has inside, behind the root of
/// the jail that the configuration gives. The two microVMs have different names, and so different
/// jails.
pub proof fn places_lie_where_they_are_seen(
    cfg: VmConfig,
    launch: Launch,
    instance: Instance,
    name: &'static str,
    project_root: Seq<u8>,
)
    requires
        launch.is_for(cfg),
        cfg.id@ == id_of(instance),
        cfg.chroot_base@ == encode_utf8("/srv/jailer"@),
        name@.len() > 0,
        name@[0] != '/',
    ensures
        path_of(Place::Jail(instance, name), project_root) == launch.chroot_root@ + encode_utf8(
            "/"@ + name@,
        ),
        path_of(Place::Asset(name), project_root) == joined(
            joined(project_root, encode_utf8("vm-assets"@)),
            encode_utf8(name@),
        ),
        path_of(Place::Scratch(name), project_root) == path_of(
            Place::Asset("snap-scratch"),
            project_root,
        ) + encode_utf8("/"@ + name@),
        id_of(Instance::Original) != id_of(Instance::Restored),
{
    reveal_strlit("/");
    reveal_strlit("backtest-demo");
    reveal_strlit("backtest-demo-restore");
    reveal_strlit("snap-scratch");
    assert("backtest-demo"@.len() != "backtest-demo-restore"@.len());
    assert(is_ascii_chars("/"@));
    is_ascii_chars_encode_utf8("/"@);
    assert("/"@[0] as u8 == 47);
    assert(encode_utf8("/"@) =~= seq![47u8]);
    lemma_encode_concat("/"@, name@);
    lemma_encode_both_ends(name@);
    let part = encode_utf8(name@);
    let root = launch.chroot_root@;
    lemma_root_end(cfg.chroot_base@, cfg.id@);
    joined_with_one_slash(root, part);
    assert(path_of(Place::Jail(instance, name), project_root) =~= root + encode_utf8(
        "/"@ + name@,
    ));
    let scratch = encode_utf8("snap-scratch"@);
    lemma_encode_both_ends("snap-scratch"@);
    let dir = path_of(Place::Asset("snap-scratch"), project_root);
    assert(dir.last() == scratch.last());
    joined_with_one_slash(dir, part);
    assert(path_of(Place::Scratch(name), project_root) =~= dir + encode_utf8("/"@ + name@));
}

/// The directory in a jail that snapshots are saved to and loaded from is made before anything is
/// written to it, and so is the one that they are kept in between.
pub proof fn directories_are_made_first(at: int) -> (made: int)
    requires
        0 <= at < script().len(),
        script()[at].step matches Step::Copy(_, to) && (file_at(to) is Scratch || (file_at(
            to,
        ) matches File::InJail(_, name) && "snap/"@.is_prefix_of(name))) || (
        script()[at].step matches Step::Send(_, request) && request is SnapshotCreate),
    ensures
        0 <= made < at,
        script()[made].step matches Step::MakeDir(dir) && match script()[at].step {
            Step::Copy(_, to) => match file_at(to) {
                File::InJail(instance, _) => file_at(dir) == File::InJail(instance, "snap"@),
                _ => file_at(dir) == File::Asset("snap-scratch"@),
            },
            Step::Send(instance, Request::SnapshotCreate { state, memory }) => {
                &&& file_at(dir) == File::InJail(instance, "snap"@)
                &&& "/snap/"@.is_prefix_of(state@)
                &&& "/snap/"@.is_prefix_of(memory@)
            },
            _ => false,
        },
        forall|i: int|
            made < i < at ==> !((#[trigger] script()[i]).step is Spawn) && !(script()[i].step
                is Shutdown),
{
    reveal_strlit("snap");
    reveal_strlit("snap/");
    reveal_strlit("/snap/");
    reveal_strlit("vmlinux");
    reveal_strlit("rootfs.ext4");
    reveal_strlit("state.snap");
    reveal_strlit("mem.snap");
    reveal_strlit("snap/state.snap");
    reveal_strlit("snap/mem.snap");
    reveal_strlit("/snap/state.snap");
    reveal_strlit("/snap/mem.snap");
    assert("vmlinux"@[0] != "snap/"@[0] && "rootfs.ext4"@[0] != "snap/"@[0]);
    assert(script()[2].step is Copy && script()[3].step is Copy && script()[24].step is Copy);
    assert(at == 14 || at == 16 || at == 17 || at == 22 || at == 23);
    assert(script()[13].step is MakeDir && script()[15].step is MakeDir && script()[21].step
        is MakeDir);
    if at == 14 {
        13
    } else if at < 20 {
        15
    } else {
        21
    }
}

/// The microVM that is restored is started when the one that was saved is down, and the state of
/// the one that is booted is shown between the moment it runs and the moment it is paused.
pub proof fn one_after_the_other() -> (way: (int, int, int, int, int))
    ensures
        0 <= way.0 < way.1 < way.2 < way.3 < way.4 < script().len(),
        script()[way.0].step == Step::AwaitRunning(Instance::Original),
        script()[way.1].step == Step::ShowState(Instance::Original),
        sends(way.2, Instance::Original, |r: Request| r is Pause),
        script()[way.3].step == Step::Shutdown(Instance::Original),
        script()[way.4].step == Step::Spawn(Instance::Restored),
        forall|i: int|
            0 <= i < way.1 && (#[trigger] script()[i]).step == Step::Send(
                Instance::Original,
                Request::Pause,
            ) ==> false,
{
    assert(script()[9].step is AwaitRunning && script()[11].step is ShowState && script()[12].step
        is Send);
    assert(script()[19].step is Shutdown && script()[20].step is Spawn);
    (9, 11, 12, 19, 20)
}

/// What a step that fails is called.
pub open spec fn failure_of(step: Step) -> Seq<char> {
    match step {
        Step::Spawn(Instance::Original) => "spawn failed"@,
        Step::Spawn(Instance::Restored) => "spawn restore"@,
        Step::Copy(from, to) => match (file_at(from), file_at(to)) {
            (File::Asset(name), File::InJail(Instance::Restored, _)) => "copy rootfs (restore)"@,
            (File::Asset(name), _) => if name == "vmlinux"@ {
                "copy kernel"@
            } else {
                "copy rootfs"@
            },
            (_, File::Scratch(name)) => if name == "state.snap"@ {
                "copy snapshot state out of chroot"@
            } else {
                "copy snapshot mem out of chroot"@
            },
            (File::Scratch(name), _) => if name == "state.snap"@ {
                "copy snapshot state"@
            } else {
                "copy snapshot mem"@
            },
            _ => seq![],
        },
        Step::MakeDir(Place::Jail(Instance::Original, _)) => "mkdir snap"@,
        Step::MakeDir(Place::Jail(Instance::Restored, _)) => "mkdir snap (restore)"@,
        Step::MakeDir(_) => "mkdir snap-scratch"@,
        Step::Send(_, Request::ConfigureMachine { .. }) => "machine-config"@,
        Step::Send(_, Request::ConfigureBootSource(_)) => "boot-source"@,
        Step::Send(_, Request::ConfigureRootfs(_)) => "drives/rootfs"@,
        Step::Send(_, Request::Start) => "InstanceStart"@,
        Step::Send(_, Request::Pause) => "pause"@,
        Step::Send(_, Request::Resume) => "resume"@,
        Step::Send(_, Request::SnapshotCreate { .. }) => "snapshot create"@,
        Step::Send(_, Request::SnapshotLoad { .. }) => "snapshot load"@,
        Step::AwaitRunning(_) => "VM did not reach Running state in time"@,
        Step::ShowState(_) => "state"@,
        Step::Shutdown(Instance::Original) => "shutdown original"@,
        Step::Shutdown(Instance::Restored) => "shutdown restored"@,
        Step::AssertGone(dir) => if dir@ == gone_dir(Instance::Original)@ {
            "original chroot dir should be gone"@
        } else {
            "restored chroot dir should be gone"@
        },
        _ => ""@,
    }
}

/// Every step that can fail is told by what it was to do.
pub proof fn failures_are_told_apart(at: int)
    requires
        0 <= at < script().len(),
    ensures
        script()[at].failure@ == failure_of(script()[at].step),
{
    reveal_strlit("vmlinux");
    reveal_strlit("rootfs.ext4");
    reveal_strlit("state.snap");
    reveal_strlit("mem.snap");
    reveal_strlit("/srv/jailer/firecracker/backtest-demo");
    reveal_strlit("/srv/jailer/firecracker/backtest-demo-restore");
    assert("vmlinux"@.len() == 7 && "rootfs.ext4"@.len() == 11);
    assert("state.snap"@.len() == 10 && "mem.snap"@.len() == 8);
    assert(gone_dir(Instance::Original)@.len() == 37 && gone_dir(Instance::Restored)@.len() == 45);
}

/// What is said announces what comes next: a start, the shutdowns, and the end.
pub proof fn says_what_comes_next(at: int)
    requires
        0 <= at < script().len(),
    ensures
        script()[at].step matches Step::Say(line) ==> {
            ||| at + 1 == script().len() && line@ == "== demo complete, no orphaned instances =="@
            ||| script()[at + 1].step == Step::Spawn(Instance::Original) && line@
                == "== spawning jailed firecracker ("@ + id_of(Instance::Original) + ") =="@
            ||| script()[at + 1].step == Step::Shutdown(Instance::Original) && line@
                == "== killing original instance to simulate a real cold restore =="@
            ||| script()[at + 1].step == Step::Shutdown(Instance::Restored) && line@
                == "== tearing down =="@
        },
        script()[0].step is Say,
        script().last().step is Say,
        script()[at].step is Shutdown ==> at > 0 && script()[at - 1].step is Say,
{
    reveal_strlit("== spawning jailed firecracker (backtest-demo) ==");
    reveal_strlit("== spawning jailed firecracker (");
    reveal_strlit("backtest-demo");
    reveal_strlit(") ==");
    assert("== spawning jailed firecracker (backtest-demo) =="@
        =~= "== spawning jailed firecracker ("@ + "backtest-demo"@ + ") =="@);
    assert(script()[1].step is Spawn && script()[19].step is Shutdown && script()[32].step
        is Shutdown);
    assert(script()[18].step is Say && script()[31].step is Say);
}

/// The call for a request is the very one that the method for it makes.
pub proof fn requests_are_sent_as_their_calls(
    request: Request,
    sent: ApiCall,
    made: ApiCall,
    socket_path: Seq<u8>,
)
    requires
        request.is_sent_by(sent, socket_path),
        match request {
            Request::ConfigureMachine { vcpu_count, mem_size_mib } => made.is_call(
                socket_path,
                "PUT"@,
                "/machine-config"@,
                machine_document(vcpu_count as nat, mem_size_mib as nat),
            ),
            Request::ConfigureBootSource(path) => made.is_call(
                socket_path,
                "PUT"@,
                "/boot-source"@,
                boot_document(path@),
            ),
            Request::ConfigureRootfs(path) => made.is_call(
                socket_path,
                "PUT"@,
                "/drives/rootfs"@,
                rootfs_document(path@),
            ),
            Request::Start => made.is_call(
                socket_path,
                "PUT"@,
                "/actions"@,
                action_document("InstanceStart"@),
            ),
            Request::Pause => made.is_call(
                socket_path,
                "PATCH"@,
                "/vm"@,
                state_document("Paused"@),
            ),
            Request::Resume => made.is_call(
                socket_path,
                "PATCH"@,
                "/vm"@,
                state_document("Resumed"@),
            ),
            Request::SnapshotCreate { state, memory } => made.is_call(
                socket_path,
                "PUT"@,
                "/snapshot/create"@,
                snapshot_document(state@, memory@),
            ),
            Request::SnapshotLoad { state, memory } => made.is_call(
                socket_path,
                "PUT"@,
                "/snapshot/load"@,
                load_document(state@, memory@),
            ),
        },
    ensures
        sent.socket_path@ == socket_path,
        sent.socket_path@ == made.socket_path@,
        sent.request@ == made.request@,
{
}

} // verus!
