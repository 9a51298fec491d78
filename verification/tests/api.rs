use sandbox_runtime::vm::api::is_running;
use sandbox_runtime::vm::http::{Progress, Reply, ResponseReader};
use sandbox_runtime::vm::{ApiCall, JailedVm, VmError};
use serde_json::Value;

fn vm() -> JailedVm {
    JailedVm {
        id: "x".to_string(),
        chroot_root: b"/srv/jailer/firecracker/x/root".to_vec(),
        socket_path: b"/srv/jailer/firecracker/x/root/run/firecracker.socket".to_vec(),
        firecracker_pid: 42,
    }
}

fn check(call: ApiCall, method: &str, path: &str, body: &str) {
    assert_eq!(call.socket_path, vm().socket_path);
    let expected = format!(
        "{} {} HTTP/1.1\r\nHost: localhost\r\nContent-Type: application/json\r\nContent-Length: {}\r\n\r\n{}",
        method,
        path,
        body.len(),
        body
    );
    assert_eq!(String::from_utf8(call.request).unwrap(), expected);
}

#[test]
fn configures_the_machine() {
    check(
        vm().configure_machine(1, 256),
        "PUT",
        "/machine-config",
        "{\"mem_size_mib\":256,\"vcpu_count\":1}",
    );
    check(
        vm().configure_machine(u32::MAX, 0),
        "PUT",
        "/machine-config",
        "{\"mem_size_mib\":0,\"vcpu_count\":4294967295}",
    );
}

#[test]
fn configures_the_boot_source() {
    check(
        vm().configure_boot_source("/vmlinux"),
        "PUT",
        "/boot-source",
        "{\"boot_args\":\"console=ttyS0 reboot=k panic=1 pci=off\",\"kernel_image_path\":\"/vmlinux\"}",
    );
}

#[test]
fn configures_the_root_drive() {
    check(
        vm().configure_rootfs("/rootfs.ext4"),
        "PUT",
        "/drives/rootfs",
        "{\"drive_id\":\"rootfs\",\"is_read_only\":false,\"is_root_device\":true,\"path_on_host\":\"/rootfs.ext4\"}",
    );
}

#[test]
fn starts_pauses_and_resumes() {
    check(vm().start(), "PUT", "/actions", "{\"action_type\":\"InstanceStart\"}");
    check(vm().pause(), "PATCH", "/vm", "{\"state\":\"Paused\"}");
    check(vm().resume(), "PATCH", "/vm", "{\"state\":\"Resumed\"}");
    check(vm().shutdown(), "PUT", "/actions", "{\"action_type\":\"SendCtrlAltDel\"}");
}

#[test]
fn asks_for_the_state_without_a_body() {
    check(vm().state(), "GET", "/", "");
}

#[test]
fn takes_and_loads_snapshots() {
    check(
        vm().snapshot_create("/snap/state.snap", "/snap/mem.snap"),
        "PUT",
        "/snapshot/create",
        "{\"mem_file_path\":\"/snap/mem.snap\",\"snapshot_path\":\"/snap/state.snap\",\"snapshot_type\":\"Full\"}",
    );
    check(
        vm().snapshot_load("/snap/state.snap", "/snap/mem.snap"),
        "PUT",
        "/snapshot/load",
        "{\"mem_backend\":{\"backend_path\":\"/snap/mem.snap\",\"backend_type\":\"File\"},\"resume_vm\":false,\"snapshot_path\":\"/snap/state.snap\"}",
    );
}

#[test]
fn texts_are_escaped() {
    check(
        vm().configure_boot_source("/k\"\\\u{e9}"),
        "PUT",
        "/boot-source",
        "{\"boot_args\":\"console=ttyS0 reboot=k panic=1 pci=off\",\"kernel_image_path\":\"/k\\\"\\\\\u{e9}\"}",
    );
}

#[test]
fn statuses_of_success_are_those_of_two_hundred() {
    for status in [200u16, 204, 299] {
        assert!(Reply { status, body: Value::Null }.acknowledge().is_ok());
        let body = Reply { status, body: Value::from(7u32) }.into_document().unwrap();
        assert_eq!(body, Value::from(7u32));
    }
}

#[test]
fn other_statuses_are_errors_with_the_reply() {
    for status in [0u16, 100, 199, 300, 400, 500, 65535] {
        match (Reply { status, body: Value::from("why") }).acknowledge() {
            Err(VmError::Http { status: s, body }) => {
                assert_eq!(s, status);
                assert_eq!(body, "\"why\"");
            }
            _ => panic!("no error"),
        }
        match (Reply { status, body: Value::Null }).into_document() {
            Err(VmError::Http { status: s, body }) => {
                assert_eq!(s, status);
                assert_eq!(body, "null");
            }
            _ => panic!("no error"),
        }
    }
}

#[test]
fn a_refused_request_is_answered_with_the_fault() {
    let stream = b"HTTP/1.1 400 Bad Request\r\nContent-Length: 25\r\n\r\n{\"fault_message\" : \"no\" }";
    let Progress::Done(reply) = ResponseReader::new().on_read(&stream[..]) else {
        panic!("no response");
    };
    let error = reply.acknowledge().unwrap_err();
    assert_eq!(error.message(), "http error 400: {\"fault_message\":\"no\"}");
}

fn state(text: &str) -> Result<Value, VmError> {
    Ok(serde_json::from_str(text).unwrap())
}

#[test]
fn tells_a_microvm_that_runs() {
    assert!(is_running(&state("{\"id\":\"x\",\"state\":\"Running\"}")));
    assert!(!is_running(&state("{\"state\":\"Paused\"}")));
    assert!(!is_running(&state("{\"state\":\"running\"}")));
    assert!(!is_running(&state("{\"state\":true}")));
    assert!(!is_running(&state("{\"status\":\"Running\"}")));
    assert!(!is_running(&state("\"Running\"")));
    assert!(!is_running(&state("[\"state\"]")));
    assert!(!is_running(&Err(VmError::Timeout("x"))));
}
