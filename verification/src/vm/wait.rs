//! Waiting for something by looking for it again and again, up to a time limit.

#[allow(unused_imports)]
use crate::text::{decimal, decimal_reads_back, lemma_encode_concat, parsed_unsigned};
use crate::text::decimal_text;
use crate::vm::error::VmError;
use vstd::prelude::*;
use vstd::slice::slice_to_vec;
use vstd::string::StringExecFns;
#[allow(unused_imports)]
use vstd::utf8::{decode_utf8, encode_utf8, encode_utf8_decode_utf8};

verus! {

/// How long to wait, for what, and how often to look.
#[derive(Clone, Copy)]
pub struct Wait {
    pub timeout_millis: u64,
    pub interval_millis: u64,
    pub what: &'static str,
}

/// What happened since the last action.
#[derive(Clone, Copy)]
pub enum WaitEvent {
    /// A look was taken: whether what is waited for is there.
    Probed(bool),
    /// The clock was read: the nanoseconds since the wait began.
    Elapsed(u128),
    /// The pause is over.
    Slept,
}

/// What to do next.
#[derive(Clone, Copy, PartialEq, Eq, Structural)]
pub enum WaitAction {
    /// Look whether what is waited for is there.
    Probe,
    /// Read the clock.
    ReadClock,
    /// Pause for so many milliseconds.
    Sleep(u64),
    /// It is there.
    Ready,
    /// It did not come in time.
    Expired,
}

impl Wait {
    /// The time limit in nanoseconds.
    pub open spec fn limit(self) -> int {
        self.timeout_millis * 1_000_000
    }

    /// The action that follows an event. A wait begins with a probe.
    pub open spec fn action_after(self, event: WaitEvent) -> WaitAction {
        match event {
            WaitEvent::Probed(true) => WaitAction::Ready,
            WaitEvent::Probed(false) => WaitAction::ReadClock,
            WaitEvent::Elapsed(nanos) => if nanos > self.limit() {
                WaitAction::Expired
            } else {
                WaitAction::Sleep(self.interval_millis)
            },
            WaitEvent::Slept => WaitAction::Probe,
        }
    }

    /// Decides what follows an event.
    pub fn next(&self, event: WaitEvent) -> (action: WaitAction)
        ensures
            action == self.action_after(event),
    {
        match event {
            WaitEvent::Probed(there) => if there {
                WaitAction::Ready
            } else {
                WaitAction::ReadClock
            },
            WaitEvent::Elapsed(nanos) => if nanos > self.timeout_millis as u128 * 1_000_000 {
                WaitAction::Expired
            } else {
                WaitAction::Sleep(self.interval_millis)
            },
            WaitEvent::Slept => WaitAction::Probe,
        }
    }

    /// The error for a wait that expired.
    pub fn expired(&self) -> (error: VmError)
        ensures
            error == VmError::Timeout(self.what),
    {
        VmError::Timeout(self.what)
    }
}

/// A wait for a file to appear or to go away.
pub struct PathWait {
    pub path: Vec<u8>,
    /// Whether the file is to be there, and not to be gone.
    pub present: bool,
    pub wait: Wait,
}

impl PathWait {
    /// Whether this is the wait for the file `path` to appear.
    pub open spec fn awaits_file(
        self,
        path: Seq<u8>,
        timeout_millis: u64,
        what: &'static str,
    ) -> bool {
        &&& self.path@ == path
        &&& self.present
        &&& self.wait == (Wait { timeout_millis, interval_millis: 20, what })
    }

    /// Whether this is the wait for the process `pid` to exit.
    pub open spec fn awaits_exit(self, pid: nat, timeout_millis: u64) -> bool {
        &&& self.path@ == process_path(pid)
        &&& !self.present
        &&& self.wait == (Wait { timeout_millis, interval_millis: 50, what: "process exit" })
    }
}

/// The path of the directory that a process has in `/proc` as long as it lives.
pub open spec fn process_path(pid: nat) -> Seq<u8> {
    encode_utf8("/proc/"@ + decimal(pid))
}

/// The wait for a file to appear.
pub fn wait_for_path(path: &[u8], timeout_millis: u64, what: &'static str) -> (waiting: PathWait)
    ensures
        waiting.awaits_file(path@, timeout_millis, what),
{
    PathWait {
        path: slice_to_vec(path),
        present: true,
        wait: Wait { timeout_millis, interval_millis: 20, what },
    }
}

/// The wait for a process to exit.
pub fn wait_for_exit(pid: u32, timeout_millis: u64) -> (waiting: PathWait)
    ensures
        waiting.awaits_exit(pid as nat, timeout_millis),
{
    let path = "/proc/".to_owned().concat(decimal_text(pid as u64).as_str());
    PathWait {
        path: slice_to_vec(path.as_str().as_bytes()),
        present: false,
        wait: Wait { timeout_millis, interval_millis: 50, what: "process exit" },
    }
}

impl PathWait {
    /// What follows when a look found the file there or not.
    pub fn next_after_look(&self, exists: bool) -> (action: WaitAction)
        ensures
            action == self.wait.action_after(WaitEvent::Probed(exists == self.present)),
    {
        self.wait.next(WaitEvent::Probed(exists == self.present))
    }
}

/// One round of a wait: whether the probe found it, and the time that the clock shows after it.
pub ghost struct Round {
    pub found: bool,
    pub nanos: u128,
}

/// How a wait ends when its rounds come out as given: ready, expired, or not within them.
pub open spec fn wait_ends(wait: Wait, rounds: Seq<Round>) -> Option<WaitAction>
    decreases rounds.len(),
{
    if rounds.len() == 0 {
        None
    } else {
        match wait.action_after(WaitEvent::Probed(rounds[0].found)) {
            WaitAction::ReadClock => match wait.action_after(
                WaitEvent::Elapsed(rounds[0].nanos),
            ) {
                WaitAction::Sleep(_) => wait_ends(wait, rounds.drop_first()),
                action => Some(action),
            },
            action => Some(action),
        }
    }
}

/// A wait goes on as long as its rounds find nothing within the time limit. It is ready in the
/// round that finds what is waited for, and expires in the one that finds nothing and ends behind
/// the limit. So what is there when the wait begins is found whatever the limit, and nothing is
/// given up on without a look.
pub proof fn wait_ends_in_time(wait: Wait, rounds: Seq<Round>, i: int)
    requires
        0 <= i <= rounds.len(),
        forall|j: int|
            0 <= j < i ==> !(#[trigger] rounds[j]).found && rounds[j].nanos <= wait.limit(),
    ensures
        i == rounds.len() ==> wait_ends(wait, rounds) is None,
        i < rounds.len() && rounds[i].found ==> wait_ends(wait, rounds) == Some(
            WaitAction::Ready,
        ),
        i < rounds.len() && !rounds[i].found && rounds[i].nanos > wait.limit() ==> wait_ends(
            wait,
            rounds,
        ) == Some(WaitAction::Expired),
    decreases i,
{
    if i > 0 {
        assert(!rounds[0].found);
        assert forall|j: int| 0 <= j < i - 1 implies !(
        #[trigger] rounds.drop_first()[j]).found && rounds.drop_first()[j].nanos
            <= wait.limit() by {
            assert(!rounds[j + 1].found);
        }
        wait_ends_in_time(wait, rounds.drop_first(), i - 1);
    }
}

/// A wait is over when a look finds what is waited for; it is given up when the clock shows more
/// than its milliseconds behind a look that found nothing, and until then it pauses for as long as
/// it says and looks again.
pub proof fn wait_waits_as_long_as_it_says(wait: Wait, nanos: u128)
    ensures
        wait.action_after(WaitEvent::Probed(true)) is Ready,
        wait.action_after(WaitEvent::Probed(false)) is ReadClock,
        nanos > wait.timeout_millis * 1_000_000 ==> wait.action_after(WaitEvent::Elapsed(nanos))
            is Expired,
        nanos <= wait.timeout_millis * 1_000_000 ==> (wait.action_after(
            WaitEvent::Elapsed(nanos),
        ) matches WaitAction::Sleep(millis) && millis == wait.interval_millis),
        wait.action_after(WaitEvent::Slept) is Probe,
{
}

/// A process is waited for by the directory in `/proc` that its number names, so different
/// processes have different ones.
pub proof fn process_path_names_the_process(pid: nat, other: nat)
    ensures
        process_path(pid) == encode_utf8("/proc/"@) + encode_utf8(decimal(pid)),
        parsed_unsigned(
            decode_utf8(process_path(pid).skip(encode_utf8("/proc/"@).len() as int)),
            pid,
        ) == Some(pid),
        process_path(pid) == process_path(other) ==> pid == other,
{
    let dir = encode_utf8("/proc/"@);
    lemma_encode_concat("/proc/"@, decimal(pid));
    lemma_encode_concat("/proc/"@, decimal(other));
    assert(process_path(pid).skip(dir.len() as int) =~= encode_utf8(decimal(pid)));
    assert(process_path(other).skip(dir.len() as int) =~= encode_utf8(decimal(other)));
    encode_utf8_decode_utf8(decimal(pid));
    encode_utf8_decode_utf8(decimal(other));
    decimal_reads_back(pid, pid);
    decimal_reads_back(pid, pid + other);
    decimal_reads_back(other, pid + other);
}

/// A wait for a file ends when it is there, one for a process when its directory is gone, and both
/// are as long as was asked.
pub proof fn wait_is_for_what_was_named(
    waiting: PathWait,
    path: Seq<u8>,
    pid: nat,
    timeout_millis: u64,
    what: &'static str,
)
    ensures
        waiting.awaits_file(path, timeout_millis, what) ==> {
            &&& waiting.path@ == path
            &&& waiting.present
            &&& waiting.wait.timeout_millis == timeout_millis
            &&& waiting.wait.interval_millis == 20
            &&& waiting.wait.what == what
        },
        waiting.awaits_exit(pid, timeout_millis) ==> {
            &&& waiting.path@ == encode_utf8("/proc/"@) + encode_utf8(decimal(pid))
            &&& !waiting.present
            &&& waiting.wait.timeout_millis == timeout_millis
            &&& waiting.wait.interval_millis == 50
            &&& waiting.wait.what@ == "process exit"@
        },
{
    process_path_names_the_process(pid, pid);
}

} // verus!
