use sandbox_runtime::demo::{config, demo, locate, Instance, Place, Request, Step};
use sandbox_runtime::telemetry::Timer;
use sandbox_runtime::vm::jail::jail_root_of;
use sandbox_runtime::vm::path::parent_of;
use sandbox_runtime::vm::{spawn_jailed_firecracker, JailedVm};
use std::time::Duration;

fn find(wanted: fn(&Step) -> bool) -> Vec<usize> {
    let acts = demo();
    (0..acts.len()).filter(|i| wanted(&acts[*i].step)).collect()
}

#[test]
fn the_run_has_all_its_steps() {
    let acts = demo();
    assert_eq!(acts.len(), 36);
    assert!(matches!(acts[1].step, Step::Spawn(Instance::Original)));
    assert_eq!(acts[1].failure, "spawn failed");
    assert!(matches!(
        acts[4].step,
        Step::Send(
            Instance::Original,
            Request::ConfigureMachine { vcpu_count: 1, mem_size_mib: 256 }
        )
    ));
    assert!(matches!(acts[33].step, Step::AssertGone("/srv/jailer/firecracker/backtest-demo")));
}

#[test]
fn a_snapshot_is_out_before_the_shutdown() {
    let out = find(|s| matches!(s, Step::Copy(Place::Jail(Instance::Original, _), _)));
    let down = find(|s| matches!(s, Step::Shutdown(Instance::Original)));
    assert_eq!(out.len(), 2);
    assert_eq!(down.len(), 1);
    assert!(out[1] < down[0]);
}

#[test]
fn a_snapshot_is_loaded_into_a_fresh_microvm() {
    let load = find(|s| matches!(s, Step::Send(_, Request::SnapshotLoad { .. })));
    let into = find(|s| matches!(s, Step::Copy(_, Place::Jail(Instance::Restored, _))));
    assert_eq!(into.len(), 3);
    assert!(into[2] < load[0]);
    let configured = find(|s| {
        matches!(
            s,
            Step::Send(
                Instance::Restored,
                Request::ConfigureMachine { .. }
                    | Request::ConfigureBootSource(_)
                    | Request::ConfigureRootfs(_)
            )
        )
    });
    assert!(configured.is_empty());
}

#[test]
fn places_have_paths() {
    let root = b"/home/pj/project";
    assert_eq!(
        locate(Place::Asset("vmlinux"), root),
        b"/home/pj/project/vm-assets/vmlinux".to_vec()
    );
    assert_eq!(
        locate(Place::Scratch("mem.snap"), root),
        b"/home/pj/project/vm-assets/snap-scratch/mem.snap".to_vec()
    );
    assert_eq!(
        locate(Place::Jail(Instance::Restored, "snap/mem.snap"), root),
        b"/srv/jailer/firecracker/backtest-demo-restore/root/snap/mem.snap".to_vec()
    );
}

#[test]
fn jails_are_where_the_jailer_makes_them() {
    let launch = spawn_jailed_firecracker(&config(Instance::Original));
    assert_eq!(
        locate(Place::Jail(Instance::Original, "x"), b"/"),
        [&launch.chroot_root[..], b"/x"].concat()
    );
    assert_eq!(launch.command[3], b"backtest-demo".to_vec());
    assert_eq!(launch.command[7], b"1000".to_vec());
}

#[test]
fn what_has_to_be_gone_is_what_a_shutdown_removes() {
    let mut gone: Vec<Vec<u8>> = Vec::new();
    for act in demo() {
        if let Step::AssertGone(dir) = act.step {
            gone.push(dir.as_bytes().to_vec());
        }
    }
    let mut removed: Vec<Vec<u8>> = Vec::new();
    for instance in [Instance::Original, Instance::Restored] {
        removed.push(parent_of(&jail_root_of(&config(instance))).unwrap());
    }
    assert_eq!(gone, removed);
}

#[test]
fn a_lap_keeps_the_time_unrounded() {
    let elapsed = Duration::from_nanos(1_234_567);
    let lap = Timer::start("cold boot").lap(elapsed);
    assert_eq!(lap.label, "cold boot");
    assert_eq!(lap.elapsed, elapsed);
}

#[test]
fn requests_are_the_calls_they_stand_for() {
    let vm = JailedVm {
        id: "x".to_string(),
        chroot_root: b"/jail/root".to_vec(),
        socket_path: b"/jail/root/run/firecracker.socket".to_vec(),
        firecracker_pid: 42,
    };
    let pairs = [
        (
            Request::ConfigureMachine { vcpu_count: 2, mem_size_mib: 512 },
            vm.configure_machine(2, 512),
        ),
        (Request::ConfigureBootSource("/k"), vm.configure_boot_source("/k")),
        (Request::ConfigureRootfs("/r"), vm.configure_rootfs("/r")),
        (Request::Start, vm.start()),
        (Request::Pause, vm.pause()),
        (Request::Resume, vm.resume()),
        (Request::SnapshotCreate { state: "/s", memory: "/m" }, vm.snapshot_create("/s", "/m")),
        (Request::SnapshotLoad { state: "/s", memory: "/m" }, vm.snapshot_load("/s", "/m")),
    ];
    for (request, expected) in pairs {
        let call = vm.call_for(request);
        assert_eq!(call.socket_path, vm.socket_path);
        assert_eq!(call.request, expected.request);
    }
    let pause = vm.call_for(Request::Pause).request;
    assert!(pause.starts_with(b"PATCH /vm HTTP/1.1\r\n"));
    assert!(pause.ends_with(b"\r\n\r\n{\"state\":\"Paused\"}"));
}

#[test]
fn a_timer_keeps_its_label() {
    let timer = Timer::start("cold boot");
    let lap = timer.stop();
    assert_eq!(lap.label, "cold boot");
    assert!(lap.elapsed.as_secs() < 20);
}
