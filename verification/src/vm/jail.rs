//! A Firecracker process in its jail.

use crate::text::{chars_of, decimal_text, parse_unsigned, trim_chars};
#[allow(unused_imports)]
use crate::text::{
    decimal, decimal_reads_back, lemma_encode_both_ends, lemma_encode_concat, lemma_trim_number,
    parsed_unsigned, trim, white_space,
};
#[allow(unused_imports)]
use crate::vm::api::action_document;
use crate::vm::api::{put_json, ApiCall};
use crate::vm::error::VmError;
use crate::vm::json::{insert_member, new_members, object_value, text_value};
use crate::vm::path::{join, parent_of};
#[allow(unused_imports)]
use crate::vm::path::{
    is_name, is_step, joined, joined_with_one_slash, last_name, parent, parent_of_joined, tidied,
};
use crate::vm::wait::{wait_for_exit, wait_for_path, PathWait};
use vstd::prelude::*;
use vstd::slice::slice_to_vec;
#[allow(unused_imports)]
use vstd::utf8::{
    decode_utf8, encode_utf8, encode_utf8_decode_utf8, is_ascii_chars, is_ascii_chars_encode_utf8,
};

verus! {

/// What to start, and where.
pub struct VmConfig<'a> {
    pub id: &'a str,
    pub jailer_path: &'a [u8],
    pub firecracker_path: &'a [u8],
    pub uid: u32,
    pub gid: u32,
    pub chroot_base: &'a [u8],
}

/// A jailed microVM that is up.
pub struct JailedVm {
    pub id: String,
    pub chroot_root: Vec<u8>,
    pub socket_path: Vec<u8>,
    pub firecracker_pid: u32,
}

/// A command line: a program and its arguments.
pub open spec fn command_line(args: Seq<Vec<u8>>) -> Seq<Seq<u8>> {
    Seq::new(args.len(), |i: int| args[i]@)
}

/// The root directory of the jail of the instance `id` below `chroot_base`.
pub open spec fn jail_root(chroot_base: Seq<u8>, id: Seq<char>) -> Seq<u8> {
    joined(joined(joined(chroot_base, encode_utf8("firecracker"@)), encode_utf8(id)), encode_utf8("root"@))
}

/// Where the API socket is below the root directory of a jail.
pub open spec fn socket_in(root: Seq<u8>) -> Seq<u8> {
    joined(root, encode_utf8("run/firecracker.socket"@))
}

/// Where the file with the process number is below the root directory of a jail.
pub open spec fn pid_file_in(root: Seq<u8>) -> Seq<u8> {
    joined(root, encode_utf8("firecracker.pid"@))
}

impl<'a> VmConfig<'a> {
    /// The command that starts Firecracker under the jailer, which drops to the user and the group
    /// given before it runs it.
    pub open spec fn jailer_command(self) -> Seq<Seq<u8>> {
        seq![
            encode_utf8("sudo"@),
            self.jailer_path@,
            encode_utf8("--id"@),
            encode_utf8(self.id@),
            encode_utf8("--exec-file"@),
            self.firecracker_path@,
            encode_utf8("--uid"@),
            encode_utf8(decimal(self.uid as nat)),
            encode_utf8("--gid"@),
            encode_utf8(decimal(self.gid as nat)),
            encode_utf8("--chroot-base-dir"@),
            self.chroot_base@,
            encode_utf8("--"@),
            encode_utf8("--api-sock"@),
            encode_utf8("/run/firecracker.socket"@),
        ]
    }
}

/// The bytes of a string.
pub fn text_bytes(text: &str) -> (bytes: Vec<u8>)
    ensures
        bytes@ == encode_utf8(text@),
{
    slice_to_vec(text.as_bytes())
}

/// Reads the number of a process from the text of its file.
pub fn parse_pid(text: &str) -> (pid: Result<u32, VmError>)
    ensures
        match parsed_unsigned(trim(text@), u32::MAX as nat) {
            Some(n) => pid matches Ok(p) && p == n,
            None => pid matches Err(VmError::Timeout(what)) && what@ == "valid firecracker pid"@,
        },
{
    let chars = chars_of(text);
    match parse_unsigned(trim_chars(chars.as_slice()), u32::MAX as u64) {
        Some(n) => Ok(n as u32),
        None => Err(VmError::Timeout("valid firecracker pid")),
    }
}

/// An instance whose jailer is to be run.
pub struct Launch {
    pub command: Vec<Vec<u8>>,
    pub id: String,
    pub chroot_root: Vec<u8>,
}

/// An instance whose file with the process number is to appear.
pub struct AwaitingPid {
    pub wait: PathWait,
    pub id: String,
    pub chroot_root: Vec<u8>,
}

/// An instance whose file with the process number is to be read.
pub struct ReadingPid {
    pub path: Vec<u8>,
    pub id: String,
    pub chroot_root: Vec<u8>,
}

/// An instance whose API socket is to appear.
pub struct AwaitingSocket {
    pub wait: PathWait,
    pub id: String,
    pub chroot_root: Vec<u8>,
    pub firecracker_pid: u32,
}

impl Launch {
    /// Whether this is the start of the instance with the configuration given.
    pub open spec fn is_for(self, cfg: VmConfig) -> bool {
        &&& command_line(self.command@) == cfg.jailer_command()
        &&& self.id@ == cfg.id@
        &&& self.chroot_root@ == jail_root(cfg.chroot_base@, cfg.id@)
    }
}

impl AwaitingPid {
    /// Whether this is what follows on a launch that came out well.
    pub open spec fn follows(self, before: Launch) -> bool {
        &&& self.wait.awaits_file(pid_file_in(before.chroot_root@), 5000, "firecracker.pid")
        &&& self.id == before.id
        &&& self.chroot_root == before.chroot_root
    }
}

impl ReadingPid {
    /// Whether this is what follows on a wait that came out well.
    pub open spec fn follows(self, before: AwaitingPid) -> bool {
        &&& self.path == before.wait.path
        &&& self.id == before.id
        &&& self.chroot_root == before.chroot_root
    }
}

impl AwaitingSocket {
    /// Whether this is what follows when the number of a process was read.
    pub open spec fn follows(self, before: ReadingPid, pid: nat) -> bool {
        &&& self.wait.awaits_file(socket_in(before.chroot_root@), 5000, "API socket")
        &&& self.id == before.id
        &&& self.chroot_root == before.chroot_root
        &&& self.firecracker_pid == pid
    }
}

impl JailedVm {
    /// Whether this is the microVM when the last wait came out well.
    pub open spec fn follows(self, before: AwaitingSocket) -> bool {
        &&& self.id == before.id
        &&& self.chroot_root == before.chroot_root
        &&& self.socket_path == before.wait.path
        &&& self.firecracker_pid == before.firecracker_pid
    }
}

/// Finds the root directory of the jail of an instance.
pub fn jail_root_of(cfg: &VmConfig) -> (root: Vec<u8>)
    ensures
        root@ == jail_root(cfg.chroot_base@, cfg.id@),
{
    let instances = join(cfg.chroot_base, "firecracker".as_bytes());
    let instance = join(instances.as_slice(), cfg.id.as_bytes());
    join(instance.as_slice(), "root".as_bytes())
}

/// Begins to start Firecracker under the jailer, by way of `sudo`. The jailer sets the jail up
/// with the rights of the superuser, then drops to the user and the group of the configuration
/// and runs Firecracker, which never has those rights.
pub fn spawn_jailed_firecracker(cfg: &VmConfig) -> (launch: Launch)
    ensures
        launch.is_for(*cfg),
{
    let chroot_root = jail_root_of(cfg);
    let command: Vec<Vec<u8>> = vec![
        text_bytes("sudo"),
        slice_to_vec(cfg.jailer_path),
        text_bytes("--id"),
        text_bytes(cfg.id),
        text_bytes("--exec-file"),
        slice_to_vec(cfg.firecracker_path),
        text_bytes("--uid"),
        text_bytes(decimal_text(cfg.uid as u64).as_str()),
        text_bytes("--gid"),
        text_bytes(decimal_text(cfg.gid as u64).as_str()),
        text_bytes("--chroot-base-dir"),
        slice_to_vec(cfg.chroot_base),
        text_bytes("--"),
        text_bytes("--api-sock"),
        text_bytes("/run/firecracker.socket"),
    ];
    assert(command_line(command@) =~= cfg.jailer_command());
    Launch { command, id: cfg.id.to_owned(), chroot_root }
}

impl Launch {
    /// What follows when the command was started, or could not be.
    pub fn after_launch(self, launched: Result<(), std::io::Error>) -> (next: Result<
        AwaitingPid,
        VmError,
    >)
        ensures
            match launched {
                Ok(_) => next matches Ok(n) && n.follows(self),
                Err(e) => next == Err::<AwaitingPid, VmError>(VmError::Io(e)),
            },
    {
        match launched {
            Ok(_) => {
                let path = join(self.chroot_root.as_slice(), "firecracker.pid".as_bytes());
                let wait = wait_for_path(path.as_slice(), 5000, "firecracker.pid");
                Ok(AwaitingPid { wait, id: self.id, chroot_root: self.chroot_root })
            },
            Err(e) => Err(VmError::from(e)),
        }
    }
}

impl AwaitingPid {
    /// What follows when the wait for the file is over.
    pub fn after_wait(self, waited: Result<(), VmError>) -> (next: Result<ReadingPid, VmError>)
        ensures
            match waited {
                Ok(_) => next matches Ok(n) && n.follows(self),
                Err(e) => next == Err::<ReadingPid, VmError>(e),
            },
    {
        match waited {
            Ok(_) => Ok(
                ReadingPid { path: self.wait.path, id: self.id, chroot_root: self.chroot_root },
            ),
            Err(e) => Err(e),
        }
    }
}

impl ReadingPid {
    /// What follows when the file was read, or could not be.
    pub fn after_read(self, text: Result<String, std::io::Error>) -> (next: Result<
        AwaitingSocket,
        VmError,
    >)
        ensures
            match text {
                Ok(t) => match parsed_unsigned(trim(t@), u32::MAX as nat) {
                    Some(pid) => next matches Ok(n) && n.follows(self, pid),
                    None => next matches Err(VmError::Timeout(what)) && what@
                        == "valid firecracker pid"@,
                },
                Err(e) => next == Err::<AwaitingSocket, VmError>(VmError::Io(e)),
            },
    {
        match text {
            Ok(t) => match parse_pid(t.as_str()) {
                Ok(firecracker_pid) => {
                    let path = join(
                        self.chroot_root.as_slice(),
                        "run/firecracker.socket".as_bytes(),
                    );
                    let wait = wait_for_path(path.as_slice(), 5000, "API socket");
                    Ok(
                        AwaitingSocket {
                            wait,
                            id: self.id,
                            chroot_root: self.chroot_root,
                            firecracker_pid,
                        },
                    )
                },
                Err(e) => Err(e),
            },
            Err(e) => Err(VmError::from(e)),
        }
    }
}

impl AwaitingSocket {
    /// The microVM, when the wait for its API socket is over.
    pub fn after_wait(self, waited: Result<(), VmError>) -> (vm: Result<JailedVm, VmError>)
        ensures
            match waited {
                Ok(_) => vm matches Ok(v) && v.follows(self),
                Err(e) => vm == Err::<JailedVm, VmError>(e),
            },
    {
        match waited {
            Ok(_) => Ok(
                JailedVm {
                    id: self.id,
                    chroot_root: self.chroot_root,
                    socket_path: self.wait.path,
                    firecracker_pid: self.firecracker_pid,
                },
            ),
            Err(e) => Err(e),
        }
    }
}

/// The directory of the instance whose jail has the root directory `root`: the one that the root
/// directory lies in.
pub open spec fn instance_dir(root: Seq<u8>) -> Seq<u8> {
    match parent(root) {
        Some(dir) => dir,
        None => root,
    }
}

/// How far the shutdown of a microVM has come.
#[derive(Clone, Copy, PartialEq, Eq, Structural)]
pub enum ShutdownStage {
    /// The guest is being asked to shut down.
    Asking,
    /// The process is to exit by itself.
    AwaitingExit,
    /// The process is being killed.
    Killing,
    /// The killed process is to go.
    AwaitingKill,
    /// The directory of the instance is being removed.
    Removing,
    /// The jailer's own process is being waited for.
    Reaping,
    /// There is nothing left to do.
    Ended,
}

/// What to do for a shutdown.
pub enum ShutdownAction {
    /// Wait for the process to exit.
    AwaitExit(PathWait),
    /// Run a command; how it comes out does not matter.
    Run(Vec<Vec<u8>>),
    /// Wait for the jailer's own process; how that comes out does not matter.
    Reap,
    /// Be done.
    Finish(Result<(), VmError>),
}

/// The stage that follows on one that came out well or not.
pub open spec fn stage_after(stage: ShutdownStage, well: bool) -> ShutdownStage {
    match stage {
        ShutdownStage::Asking => if well {
            ShutdownStage::AwaitingExit
        } else {
            ShutdownStage::Killing
        },
        ShutdownStage::AwaitingExit => if well {
            ShutdownStage::Removing
        } else {
            ShutdownStage::Killing
        },
        ShutdownStage::Killing => ShutdownStage::AwaitingKill,
        ShutdownStage::AwaitingKill => if well {
            ShutdownStage::Removing
        } else {
            ShutdownStage::Ended
        },
        ShutdownStage::Removing => ShutdownStage::Reaping,
        ShutdownStage::Reaping => ShutdownStage::Ended,
        ShutdownStage::Ended => ShutdownStage::Ended,
    }
}

impl JailedVm {
    /// The command that kills the Firecracker process, which needs no rights beyond those of the
    /// user that it runs as.
    pub open spec fn kill_command(self) -> Seq<Seq<u8>> {
        seq![
            encode_utf8("kill"@),
            encode_utf8("-9"@),
            encode_utf8(decimal(self.firecracker_pid as nat)),
        ]
    }

    /// The command that removes the directory of the instance, whose parent belongs to the
    /// superuser.
    pub open spec fn remove_command(self) -> Seq<Seq<u8>> {
        seq![
            encode_utf8("sudo"@),
            encode_utf8("rm"@),
            encode_utf8("-rf"@),
            instance_dir(self.chroot_root@),
        ]
    }

    /// Begins to shut the microVM down: the call asks the guest to do so by itself. Its result
    /// goes to `shutdown_step`, as that of the stage `Asking`.
    pub fn shutdown(&self) -> (call: ApiCall)
        ensures
            call.is_call(
                self.socket_path@,
                "PUT"@,
                "/actions"@,
                action_document("SendCtrlAltDel"@),
            ),
    {
        let mut members = new_members();
        insert_member(&mut members, "action_type", text_value("SendCtrlAltDel"));
        put_json(self.socket_path.as_slice(), "/actions", object_value(members))
    }

    /// Kills the Firecracker process.
    fn kill(&self) -> (command: Vec<Vec<u8>>)
        ensures
            command_line(command@) == self.kill_command(),
    {
        let command: Vec<Vec<u8>> = vec![
            text_bytes("kill"),
            text_bytes("-9"),
            text_bytes(decimal_text(self.firecracker_pid as u64).as_str()),
        ];
        assert(command_line(command@) =~= self.kill_command());
        command
    }

    /// Removes the directory of the instance.
    fn remove(&self) -> (command: Vec<Vec<u8>>)
        ensures
            command_line(command@) == self.remove_command(),
    {
        let dir = match parent_of(self.chroot_root.as_slice()) {
            Some(dir) => dir,
            None => slice_to_vec(self.chroot_root.as_slice()),
        };
        let command: Vec<Vec<u8>> = vec![
            text_bytes("sudo"),
            text_bytes("rm"),
            text_bytes("-rf"),
            dir,
        ];
        assert(command_line(command@) =~= self.remove_command());
        command
    }

    /// Goes on with the shutdown when the action of a stage came out as given: the next stage, and
    /// its action.
    pub fn shutdown_step(&self, stage: ShutdownStage, result: Result<(), VmError>) -> (next: (
        ShutdownStage,
        ShutdownAction,
    ))
        ensures
            next.0 == stage_after(stage, result is Ok),
            match next.0 {
                ShutdownStage::Asking => false,
                ShutdownStage::AwaitingExit => next.1 matches ShutdownAction::AwaitExit(wait)
                    && wait.awaits_exit(self.firecracker_pid as nat, 3000),
                ShutdownStage::Killing => next.1 matches ShutdownAction::Run(command)
                    && command_line(command@) == self.kill_command(),
                ShutdownStage::AwaitingKill => next.1 matches ShutdownAction::AwaitExit(wait)
                    && wait.awaits_exit(self.firecracker_pid as nat, 5000),
                ShutdownStage::Removing => next.1 matches ShutdownAction::Run(command)
                    && command_line(command@) == self.remove_command(),
                ShutdownStage::Reaping => next.1 is Reap,
                ShutdownStage::Ended => next.1 == ShutdownAction::Finish(
                    if stage is Reaping {
                        Ok(())
                    } else {
                        result
                    },
                ),
            },
    {
        match stage {
            ShutdownStage::Asking => match result {
                Ok(_) => (
                    ShutdownStage::AwaitingExit,
                    ShutdownAction::AwaitExit(wait_for_exit(self.firecracker_pid, 3000)),
                ),
                Err(_) => (ShutdownStage::Killing, ShutdownAction::Run(self.kill())),
            },
            ShutdownStage::AwaitingExit => match result {
                Ok(_) => (ShutdownStage::Removing, ShutdownAction::Run(self.remove())),
                Err(_) => (ShutdownStage::Killing, ShutdownAction::Run(self.kill())),
            },
            ShutdownStage::Killing => (
                ShutdownStage::AwaitingKill,
                ShutdownAction::AwaitExit(wait_for_exit(self.firecracker_pid, 5000)),
            ),
            ShutdownStage::AwaitingKill => match result {
                Ok(_) => (ShutdownStage::Removing, ShutdownAction::Run(self.remove())),
                Err(e) => (ShutdownStage::Ended, ShutdownAction::Finish(Err(e))),
            },
            ShutdownStage::Removing => (ShutdownStage::Reaping, ShutdownAction::Reap),
            ShutdownStage::Reaping => (ShutdownStage::Ended, ShutdownAction::Finish(Ok(()))),
            ShutdownStage::Ended => (ShutdownStage::Ended, ShutdownAction::Finish(result)),
        }
    }
}

/// The stage of a shutdown after `n` actions, when the actions come out as `well` says.
pub open spec fn stage_at(well: Seq<bool>, n: nat) -> ShutdownStage
    decreases n,
{
    if n == 0 {
        ShutdownStage::Asking
    } else {
        stage_after(stage_at(well, (n - 1) as nat), well[n - 1])
    }
}

/// Every shutdown ends, after six actions at the latest.
pub proof fn shutdown_ends(well: Seq<bool>, n: nat)
    requires
        6 <= n <= well.len(),
    ensures
        stage_at(well, n) is Ended,
    decreases n,
{
    if n == 6 {
        reveal_with_fuel(stage_at, 7);
    } else {
        shutdown_ends(well, (n - 1) as nat);
    }
}

/// The directory of an instance is removed only right after a wait has found its process gone.
pub proof fn removed_only_after_exit(well: Seq<bool>, n: nat)
    requires
        n <= well.len(),
        stage_at(well, n) is Removing,
    ensures
        n > 0,
        well[n - 1],
        stage_at(well, (n - 1) as nat) is AwaitingExit || stage_at(well, (n - 1) as nat)
            is AwaitingKill,
{
}

/// A process is killed exactly if it could not be asked to exit, or did not exit when asked.
pub proof fn killed_only_if_need_be(well: Seq<bool>)
    requires
        well.len() >= 6,
    ensures
        (exists|n: nat| n <= well.len() && #[trigger] stage_at(well, n) is Killing) <==> !(well[0]
            && well[1]),
{
    reveal_with_fuel(stage_at, 7);
    if well[0] && well[1] {
        assert forall|n: nat| n <= well.len() implies !(#[trigger] stage_at(well, n) is Killing) by {
            if n >= 6 {
                shutdown_ends(well, n);
            }
        }
    } else if well[0] {
        assert(stage_at(well, 2) is Killing);
    } else {
        assert(stage_at(well, 1) is Killing);
    }
}

/// What a shutdown removes is the path that the jail of the instance was made below. If the
/// instance is called by a single name, that is the directory with this name, directly in the
/// directory of all instances.
pub proof fn removes_what_was_made(chroot_base: Seq<u8>, id: Seq<char>)
    ensures
        instance_dir(jail_root(chroot_base, id)) == tidied(
            joined(joined(chroot_base, encode_utf8("firecracker"@)), encode_utf8(id)),
        ),
        is_step(encode_utf8(id)) ==> instance_dir(jail_root(chroot_base, id)) == joined(
            joined(chroot_base, encode_utf8("firecracker"@)),
            encode_utf8(id),
        ),
        is_name(encode_utf8(id)) ==> {
            let dir = instance_dir(jail_root(chroot_base, id));
            &&& last_name(dir) == encode_utf8(id)
            &&& parent(dir) == Some(tidied(joined(chroot_base, encode_utf8("firecracker"@))))
        },
{
    reveal_strlit("root");
    let root = "root"@;
    is_ascii_chars_encode_utf8(root);
    assert(root[0] as u8 == 114 && root[1] as u8 == 111 && root[2] as u8 == 111 && root[3] as u8
        == 116);
    assert(encode_utf8(root) =~= seq![114u8, 111u8, 111u8, 116u8]);
    assert(is_step(encode_utf8(root)));
    let instances = joined(chroot_base, encode_utf8("firecracker"@));
    parent_of_joined(joined(instances, encode_utf8(id)), encode_utf8(root));
    if is_step(encode_utf8(id)) {
        parent_of_joined(instances, encode_utf8(id));
    }
}

/// A start that comes out well at every step looks for the process number and the API socket in
/// the jail that its configuration gives, and ends with the microVM in that jail. If its name is a
/// single one, the shutdown removes the directory with that name, directly in the directory of all
/// instances, and nothing above it.
pub proof fn started_as_configured(
    cfg: VmConfig,
    launch: Launch,
    awaiting: AwaitingPid,
    reading: ReadingPid,
    pid: nat,
    last: AwaitingSocket,
    vm: JailedVm,
)
    requires
        launch.is_for(cfg),
        awaiting.follows(launch),
        reading.follows(awaiting),
        last.follows(reading, pid),
        vm.follows(last),
    ensures
        reading.path@ == pid_file_in(jail_root(cfg.chroot_base@, cfg.id@)),
        vm.id@ == cfg.id@,
        vm.chroot_root@ == jail_root(cfg.chroot_base@, cfg.id@),
        vm.socket_path@ == socket_in(jail_root(cfg.chroot_base@, cfg.id@)),
        vm.firecracker_pid == pid,
        reading.path@ == vm.chroot_root@ + encode_utf8("/firecracker.pid"@),
        vm.socket_path@ == vm.chroot_root@ + encode_utf8("/run/firecracker.socket"@),
        awaiting.wait.path == reading.path,
        awaiting.wait.present,
        awaiting.wait.wait.timeout_millis == 5000,
        awaiting.wait.wait.interval_millis == 20,
        awaiting.wait.wait.what@ == "firecracker.pid"@,
        last.wait.path == vm.socket_path,
        last.wait.present,
        last.wait.wait.timeout_millis == 5000,
        last.wait.wait.interval_millis == 20,
        last.wait.wait.what@ == "API socket"@,
        is_name(encode_utf8(cfg.id@)) ==> {
            let dir = vm.remove_command().last();
            let instances = joined(cfg.chroot_base@, encode_utf8("firecracker"@));
            &&& dir == joined(instances, encode_utf8(cfg.id@))
            &&& last_name(dir) == encode_utf8(cfg.id@)
            &&& parent(dir) == Some(tidied(instances))
        },
{
    removes_what_was_made(cfg.chroot_base@, cfg.id@);
    lemma_root_end(cfg.chroot_base@, cfg.id@);
    files_lie_in_the_root(jail_root(cfg.chroot_base@, cfg.id@));
}

/// The number of a process reads back from a file that holds its digits, with any white space
/// around them.
pub proof fn pid_reads_back(before: Seq<char>, pid: u32, after: Seq<char>)
    requires
        forall|i: int| 0 <= i < before.len() ==> white_space(#[trigger] before[i]),
        forall|i: int| 0 <= i < after.len() ==> white_space(#[trigger] after[i]),
    ensures
        parsed_unsigned(trim(before + decimal(pid as nat) + after), u32::MAX as nat) == Some(
            pid as nat,
        ),
{
    lemma_trim_number(before, pid as nat, after);
    decimal_reads_back(pid as nat, u32::MAX as nat);
}

/// The bytes of an ASCII text start with its first character.
proof fn lemma_encode_first(s: Seq<char>)
    requires
        is_ascii_chars(s),
    ensures
        encode_utf8(s).len() == s.len(),
        s.len() > 0 ==> encode_utf8(s)[0] == s[0] as u8 && encode_utf8(s).last() == s.last() as u8,
{
    is_ascii_chars_encode_utf8(s);
    if s.len() > 0 {
        assert(s[s.len() - 1] as u8 == encode_utf8(s)[s.len() - 1]);
    }
}

/// The file with the process number and the API socket lie in the root directory of a jail.
pub proof fn files_lie_in_the_root(root: Seq<u8>)
    requires
        root.len() > 0,
        root.last() != 47,
    ensures
        pid_file_in(root) == root + encode_utf8("/firecracker.pid"@),
        socket_in(root) == root + encode_utf8("/run/firecracker.socket"@),
{
    reveal_strlit("/");
    reveal_strlit("firecracker.pid");
    reveal_strlit("/firecracker.pid");
    reveal_strlit("run/firecracker.socket");
    reveal_strlit("/run/firecracker.socket");
    lemma_encode_first("/"@);
    lemma_encode_first("firecracker.pid"@);
    lemma_encode_first("run/firecracker.socket"@);
    assert("firecracker.pid"@[0] as u8 == 102 && "run/firecracker.socket"@[0] as u8 == 114);
    assert("/"@[0] as u8 == 47);
    assert(encode_utf8("/"@) =~= seq![47u8]);
    assert("/firecracker.pid"@ =~= "/"@ + "firecracker.pid"@);
    assert("/run/firecracker.socket"@ =~= "/"@ + "run/firecracker.socket"@);
    lemma_encode_concat("/"@, "firecracker.pid"@);
    lemma_encode_concat("/"@, "run/firecracker.socket"@);
    joined_with_one_slash(root, encode_utf8("firecracker.pid"@));
    joined_with_one_slash(root, encode_utf8("run/firecracker.socket"@));
    assert(pid_file_in(root) =~= root + encode_utf8("/firecracker.pid"@));
    assert(socket_in(root) =~= root + encode_utf8("/run/firecracker.socket"@));
}

/// The root directory of a jail ends with its own name.
pub proof fn lemma_root_end(chroot_base: Seq<u8>, id: Seq<char>)
    ensures
        jail_root(chroot_base, id).len() > 0,
        jail_root(chroot_base, id).last() != 47,
{
    reveal_strlit("root");
    lemma_encode_first("root"@);
    assert("root"@.last() as u8 == 116 && "root"@[0] as u8 == 114);
    let root = jail_root(chroot_base, id);
    assert(root.last() == 116);
}

/// The jail of an instance lies below the base directory, in the directory of all instances and
/// there in its own.
pub proof fn jail_lies_below_its_base(chroot_base: Seq<u8>, id: Seq<char>)
    requires
        id.len() > 0,
        id[0] != '/',
        id.last() != '/',
    ensures
        chroot_base.len() > 0 && chroot_base.last() != 47 ==> jail_root(chroot_base, id)
            == chroot_base + encode_utf8("/firecracker/"@) + encode_utf8(id) + encode_utf8("/root"@),
        chroot_base.len() == 0 || chroot_base.last() == 47 ==> jail_root(chroot_base, id)
            == chroot_base + encode_utf8("firecracker/"@) + encode_utf8(id) + encode_utf8("/root"@),
{
    reveal_strlit("/");
    reveal_strlit("root");
    reveal_strlit("/root");
    reveal_strlit("firecracker");
    reveal_strlit("firecracker/");
    reveal_strlit("/firecracker/");
    lemma_encode_first("/"@);
    lemma_encode_first("root"@);
    lemma_encode_first("firecracker"@);
    assert("/"@[0] as u8 == 47 && "root"@[0] as u8 == 114 && "firecracker"@[0] as u8 == 102);
    assert("firecracker"@.last() as u8 == 114);
    assert(encode_utf8("/"@) =~= seq![47u8]);
    assert("/root"@ =~= "/"@ + "root"@);
    assert("firecracker/"@ =~= "firecracker"@ + "/"@);
    assert("/firecracker/"@ =~= "/"@ + "firecracker/"@);
    lemma_encode_concat("/"@, "root"@);
    lemma_encode_concat("firecracker"@, "/"@);
    lemma_encode_concat("/"@, "firecracker/"@);
    lemma_encode_both_ends(id);
    let all = encode_utf8("firecracker"@);
    let name = encode_utf8(id);
    let root = encode_utf8("root"@);
    let instances = joined(chroot_base, all);
    joined_with_one_slash(chroot_base, all);
    assert(instances.last() == all.last());
    joined_with_one_slash(instances, name);
    let instance = joined(instances, name);
    assert(instance.last() == name.last());
    joined_with_one_slash(instance, root);
    assert(jail_root(chroot_base, id) =~= instances + seq![47u8] + name + seq![47u8] + root);
    if chroot_base.len() > 0 && chroot_base.last() != 47 {
        assert(jail_root(chroot_base, id) =~= chroot_base + encode_utf8("/firecracker/"@) + name
            + encode_utf8("/root"@));
    } else {
        assert(instances =~= chroot_base + all);
        assert(jail_root(chroot_base, id) =~= chroot_base + encode_utf8("firecracker/"@) + name
            + encode_utf8("/root"@));
    }
}

/// The value of an option of a command, as its options are read: a flag and a value in turn from
/// `at` on, up to two dashes.
pub open spec fn option_of(args: Seq<Vec<u8>>, at: int, flag: Seq<char>) -> Option<Seq<u8>>
    decreases args.len() - at,
{
    if at < 0 || at + 1 >= args.len() || args[at]@ == encode_utf8("--"@) {
        None
    } else if args[at]@ == encode_utf8(flag) {
        Some(args[at + 1]@)
    } else {
        option_of(args, at + 2, flag)
    }
}

proof fn lemma_flags_differ()
    ensures
        encode_utf8("--"@).len() == 2,
        encode_utf8("--id"@).len() == 4,
        encode_utf8("--exec-file"@).len() == 11,
        encode_utf8("--uid"@).len() == 5,
        encode_utf8("--gid"@).len() == 5,
        encode_utf8("--chroot-base-dir"@).len() == 17,
        encode_utf8("--uid"@) != encode_utf8("--gid"@),
{
    reveal_strlit("--");
    reveal_strlit("--id");
    reveal_strlit("--exec-file");
    reveal_strlit("--uid");
    reveal_strlit("--gid");
    reveal_strlit("--chroot-base-dir");
    is_ascii_chars_encode_utf8("--"@);
    is_ascii_chars_encode_utf8("--id"@);
    is_ascii_chars_encode_utf8("--exec-file"@);
    is_ascii_chars_encode_utf8("--uid"@);
    is_ascii_chars_encode_utf8("--gid"@);
    is_ascii_chars_encode_utf8("--chroot-base-dir"@);
    assert("--uid"@[2] as u8 == 117 && "--gid"@[2] as u8 == 103);
    assert(encode_utf8("--uid"@)[2] != encode_utf8("--gid"@)[2]);
}

/// The jail that the command has the jailer make is the one that is looked in: it is the one that
/// the options for the base directory and the name give. The other options are the rest of the
/// configuration, and Firecracker is told to open the socket that is looked for.
pub proof fn command_makes_the_jail_that_is_looked_in(cfg: VmConfig, launch: Launch)
    requires
        launch.is_for(cfg),
    ensures
        ({
            let args = launch.command@;
            let n = args.len() as int;
            &&& n > 5
            &&& args[0]@ == encode_utf8("sudo"@)
            &&& args[1]@ == cfg.jailer_path@
            &&& option_of(args, 2, "--id"@) == Some(encode_utf8(cfg.id@))
            &&& option_of(args, 2, "--exec-file"@) == Some(cfg.firecracker_path@)
            &&& option_of(args, 2, "--uid"@) matches Some(uid)
            &&& parsed_unsigned(decode_utf8(uid), u32::MAX as nat) == Some(cfg.uid as nat)
            &&& option_of(args, 2, "--gid"@) matches Some(gid)
            &&& parsed_unsigned(decode_utf8(gid), u32::MAX as nat) == Some(cfg.gid as nat)
            &&& option_of(args, 2, "--chroot-base-dir"@) == Some(cfg.chroot_base@)
            &&& args[n - 3]@ == encode_utf8("--"@)
            &&& args[n - 2]@ == encode_utf8("--api-sock"@)
            &&& socket_in(launch.chroot_root@) == launch.chroot_root@ + args[n - 1]@
        }),
        launch.id@ == cfg.id@,
        launch.chroot_root@ == joined(
            joined(
                joined(
                    option_of(launch.command@, 2, "--chroot-base-dir"@)->0,
                    encode_utf8("firecracker"@),
                ),
                option_of(launch.command@, 2, "--id"@)->0,
            ),
            encode_utf8("root"@),
        ),
{
    let args = launch.command@;
    assert(command_line(args).len() == args.len());
    assert forall|i: int| 0 <= i < args.len() implies #[trigger] args[i]@
        == cfg.jailer_command()[i] by {
        assert(command_line(args)[i] == args[i]@);
    }
    lemma_flags_differ();
    reveal_with_fuel(option_of, 6);
    assert(option_of(args, 2, "--id"@) == Some(args[3]@));
    assert(option_of(args, 2, "--exec-file"@) == Some(args[5]@));
    assert(option_of(args, 2, "--uid"@) == Some(args[7]@));
    assert(option_of(args, 2, "--gid"@) == Some(args[9]@));
    assert(option_of(args, 2, "--chroot-base-dir"@) == Some(args[11]@));
    encode_utf8_decode_utf8(decimal(cfg.uid as nat));
    encode_utf8_decode_utf8(decimal(cfg.gid as nat));
    decimal_reads_back(cfg.uid as nat, u32::MAX as nat);
    decimal_reads_back(cfg.gid as nat, u32::MAX as nat);
    lemma_root_end(cfg.chroot_base@, cfg.id@);
    files_lie_in_the_root(jail_root(cfg.chroot_base@, cfg.id@));
}

/// The process that is killed is the one whose number the microVM has, and it is killed without
/// being asked.
pub proof fn kill_names_the_process(vm: JailedVm)
    ensures
        vm.kill_command().len() == 3,
        vm.kill_command()[0] == encode_utf8("kill"@),
        vm.kill_command()[1] == encode_utf8("-9"@),
        parsed_unsigned(decode_utf8(vm.kill_command()[2]), u32::MAX as nat) == Some(
            vm.firecracker_pid as nat,
        ),
{
    encode_utf8_decode_utf8(decimal(vm.firecracker_pid as nat));
    decimal_reads_back(vm.firecracker_pid as nat, u32::MAX as nat);
}

/// What is removed, with all it holds, is the directory that the root of the jail lies in, and the
/// root itself where it lies in none.
pub proof fn removal_takes_the_directory_around_the_root(vm: JailedVm, dir: Seq<u8>, name: Seq<u8>)
    ensures
        vm.remove_command().len() == 4,
        vm.remove_command()[0] == encode_utf8("sudo"@),
        vm.remove_command()[1] == encode_utf8("rm"@),
        vm.remove_command()[2] == encode_utf8("-rf"@),
        is_step(name) && vm.chroot_root@ == joined(dir, name) ==> vm.remove_command()[3] == tidied(
            dir,
        ),
        parent(vm.chroot_root@) is None ==> vm.remove_command()[3] == vm.chroot_root@,
{
    if is_step(name) {
        parent_of_joined(dir, name);
    }
}

/// A shutdown asks first. It waits for the process where it could ask, kills it where it could not
/// or where the wait was in vain, and then waits again. Once a wait has found the process gone it
/// removes the jail and waits for the jailer, however the removal came out; a second wait in vain
/// ends it there.
pub proof fn shutdown_takes_its_course(well: Seq<bool>, k: nat)
    requires
        well.len() >= 6,
        k == if well[0] {
            2nat
        } else {
            1nat
        },
    ensures
        stage_at(well, 0) is Asking,
        well[0] ==> stage_at(well, 1) is AwaitingExit,
        well[0] && well[1] ==> stage_at(well, 2) is Removing && stage_at(well, 3) is Reaping
            && stage_at(well, 4) is Ended,
        !(well[0] && well[1]) ==> stage_at(well, k) is Killing && stage_at(well, k + 1)
            is AwaitingKill,
        !(well[0] && well[1]) && well[k as int + 1] ==> stage_at(well, k + 2) is Removing && stage_at(
            well,
            k + 3,
        ) is Reaping && stage_at(well, k + 4) is Ended,
        !(well[0] && well[1]) && !well[k as int + 1] ==> stage_at(well, k + 2) is Ended,
{
    reveal_with_fuel(stage_at, 8);
}

} // verus!
