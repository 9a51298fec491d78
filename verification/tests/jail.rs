use sandbox_runtime::vm::jail::{parse_pid, ShutdownAction, ShutdownStage};
use sandbox_runtime::vm::{spawn_jailed_firecracker, JailedVm, VmConfig, VmError};

fn config(id: &'static str) -> VmConfig<'static> {
    VmConfig {
        id,
        jailer_path: b"/bin/jailer",
        firecracker_path: b"/bin/firecracker",
        uid: 1000,
        gid: 100,
        chroot_base: b"/srv/jailer",
    }
}

fn texts(command: &[Vec<u8>]) -> Vec<String> {
    command.iter().map(|a| String::from_utf8(a.clone()).unwrap()).collect()
}

fn refused() -> std::io::Error {
    std::io::Error::new(std::io::ErrorKind::Other, "refused")
}

fn started(id: &'static str) -> JailedVm {
    spawn_jailed_firecracker(&config(id))
        .after_launch(Ok(()))
        .unwrap()
        .after_wait(Ok(()))
        .unwrap()
        .after_read(Ok("4711\n".to_string()))
        .unwrap()
        .after_wait(Ok(()))
        .unwrap()
}

#[test]
fn runs_the_jailer() {
    let launch = spawn_jailed_firecracker(&config("demo"));
    assert_eq!(
        texts(&launch.command),
        [
            "sudo",
            "/bin/jailer",
            "--id",
            "demo",
            "--exec-file",
            "/bin/firecracker",
            "--uid",
            "1000",
            "--gid",
            "100",
            "--chroot-base-dir",
            "/srv/jailer",
            "--",
            "--api-sock",
            "/run/firecracker.socket",
        ]
    );
    assert_eq!(launch.chroot_root, b"/srv/jailer/firecracker/demo/root".to_vec());
}

#[test]
fn an_absolute_name_leaves_the_base_directory() {
    let launch = spawn_jailed_firecracker(&config("/elsewhere"));
    assert_eq!(launch.chroot_root, b"/elsewhere/root".to_vec());
    assert_eq!(launch.command[3], b"/elsewhere".to_vec());
}

#[test]
fn a_step_up_is_no_name_and_is_taken_as_it_is() {
    let vm = started("..");
    assert_eq!(vm.chroot_root, b"/srv/jailer/firecracker/../root".to_vec());
    match vm.shutdown_step(ShutdownStage::AwaitingExit, Ok(())).1 {
        ShutdownAction::Run(command) => {
            assert_eq!(texts(&command)[3], "/srv/jailer/firecracker/..");
        }
        _ => panic!("nothing removed"),
    }
}

#[test]
fn starts_in_order() {
    let waiting = spawn_jailed_firecracker(&config("demo")).after_launch(Ok(())).unwrap();
    assert_eq!(
        waiting.wait.path,
        b"/srv/jailer/firecracker/demo/root/firecracker.pid".to_vec()
    );
    assert!(waiting.wait.present);
    assert_eq!(waiting.wait.wait.timeout_millis, 5000);
    assert_eq!(waiting.wait.wait.what, "firecracker.pid");
    let reading = waiting.after_wait(Ok(())).unwrap();
    assert_eq!(
        reading.path,
        b"/srv/jailer/firecracker/demo/root/firecracker.pid".to_vec()
    );
    let waiting = reading.after_read(Ok(" 17\n".to_string())).unwrap();
    assert_eq!(
        waiting.wait.path,
        b"/srv/jailer/firecracker/demo/root/run/firecracker.socket".to_vec()
    );
    assert_eq!(waiting.wait.wait.what, "API socket");
    let vm = waiting.after_wait(Ok(())).unwrap();
    assert_eq!(vm.id, "demo");
    assert_eq!(vm.firecracker_pid, 17);
    assert_eq!(vm.chroot_root, b"/srv/jailer/firecracker/demo/root".to_vec());
    assert_eq!(
        vm.socket_path,
        b"/srv/jailer/firecracker/demo/root/run/firecracker.socket".to_vec()
    );
}

#[test]
fn each_failure_ends_the_start() {
    let launch = || spawn_jailed_firecracker(&config("demo"));
    assert!(matches!(launch().after_launch(Err(refused())), Err(VmError::Io(_))));
    let waiting = launch().after_launch(Ok(())).unwrap();
    assert!(matches!(
        waiting.after_wait(Err(VmError::Timeout("firecracker.pid"))),
        Err(VmError::Timeout("firecracker.pid"))
    ));
    let reading = || launch().after_launch(Ok(())).unwrap().after_wait(Ok(())).unwrap();
    assert!(matches!(reading().after_read(Err(refused())), Err(VmError::Io(_))));
    assert!(matches!(
        reading().after_read(Ok("none".to_string())),
        Err(VmError::Timeout("valid firecracker pid"))
    ));
    let waiting = reading().after_read(Ok("1".to_string())).unwrap();
    assert!(matches!(
        waiting.after_wait(Err(VmError::Timeout("API socket"))),
        Err(VmError::Timeout("API socket"))
    ));
}

#[test]
fn process_numbers_read_back() {
    for pid in [0u32, 1, 4711, u32::MAX] {
        assert_eq!(parse_pid(&format!("\t{}\r\n", pid)).unwrap(), pid);
    }
    for text in ["", "x", "-1", "4294967296", "1 2"] {
        match parse_pid(text) {
            Err(VmError::Timeout(what)) => assert_eq!(what, "valid firecracker pid"),
            _ => panic!("{}", text),
        }
    }
}

#[test]
fn errors_have_messages() {
    assert_eq!(VmError::Timeout("API socket").message(), "timed out waiting for API socket");
    assert_eq!(
        VmError::Http { status: 400, body: "null".to_string() }.message(),
        "http error 400: null"
    );
    assert_eq!(VmError::from(refused()).message(), "io error: refused");
}

/// The stages of a shutdown whose actions come out as given, and its result.
fn shut_down(vm: &JailedVm, well: &[bool]) -> (Vec<ShutdownStage>, Result<(), VmError>) {
    let mut stage = ShutdownStage::Asking;
    let mut stages = vec![stage];
    for ok in well {
        let result = if *ok { Ok(()) } else { Err(VmError::Timeout("process exit")) };
        let (next, action) = vm.shutdown_step(stage, result);
        stages.push(next);
        match (next, action) {
            (ShutdownStage::AwaitingExit, ShutdownAction::AwaitExit(wait)) => {
                assert_eq!(wait.path, b"/proc/4711".to_vec());
                assert!(!wait.present);
                assert_eq!(wait.wait.timeout_millis, 3000);
            }
            (ShutdownStage::AwaitingKill, ShutdownAction::AwaitExit(wait)) => {
                assert_eq!(wait.path, b"/proc/4711".to_vec());
                assert_eq!(wait.wait.timeout_millis, 5000);
            }
            (ShutdownStage::Killing, ShutdownAction::Run(command)) => {
                assert_eq!(texts(&command), ["kill", "-9", "4711"]);
            }
            (ShutdownStage::Removing, ShutdownAction::Run(command)) => {
                assert_eq!(texts(&command), ["sudo", "rm", "-rf", "/srv/jailer/firecracker/demo"]);
            }
            (ShutdownStage::Reaping, ShutdownAction::Reap) => {}
            (ShutdownStage::Ended, ShutdownAction::Finish(result)) => return (stages, result),
            _ => panic!("{}", stages.len()),
        }
        stage = next;
    }
    panic!("no end")
}

#[test]
fn shuts_down_by_asking() {
    let (stages, result) = shut_down(&started("demo"), &[true; 6]);
    assert!(result.is_ok());
    assert!(
        stages
            == [
                ShutdownStage::Asking,
                ShutdownStage::AwaitingExit,
                ShutdownStage::Removing,
                ShutdownStage::Reaping,
                ShutdownStage::Ended,
            ]
    );
}

#[test]
fn kills_what_does_not_exit() {
    let (stages, result) = shut_down(&started("demo"), &[true, false, true, true, true, true]);
    assert!(result.is_ok());
    assert!(stages.contains(&ShutdownStage::Killing));
    assert_eq!(stages.len(), 7);
    let (stages, result) = shut_down(&started("demo"), &[false, false, true, false, false, true]);
    assert!(result.is_ok());
    assert!(stages[1] == ShutdownStage::Killing);
    assert!(stages[3] == ShutdownStage::Removing);
}

#[test]
fn leaves_what_cannot_be_killed() {
    let (stages, result) = shut_down(&started("demo"), &[false, true, false]);
    assert!(matches!(result, Err(VmError::Timeout("process exit"))));
    assert!(!stages.contains(&ShutdownStage::Removing));
}

#[test]
fn removes_the_directory_of_the_instance() {
    let remove = |chroot_root: &[u8]| {
        let mut vm = started("demo");
        vm.chroot_root = chroot_root.to_vec();
        match vm.shutdown_step(ShutdownStage::AwaitingExit, Ok(())).1 {
            ShutdownAction::Run(command) => texts(&command)[3].clone(),
            _ => panic!("nothing removed"),
        }
    };
    assert_eq!(remove(b"/srv/jailer/firecracker/a/root"), "/srv/jailer/firecracker/a");
    assert_eq!(remove(b"/srv/x//root/"), "/srv/x");
    assert_eq!(remove(b"/"), "/");
    assert_eq!(remove(b"root"), "");
}
