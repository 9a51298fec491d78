//! The API of a microVM: the calls, and what becomes of their replies.

#[allow(unused_imports)]
use crate::text::decimal;
use crate::vm::error::VmError;
use crate::vm::http::{http_request, Reply};
#[allow(unused_imports)]
use crate::vm::http::{body_text, request_text};
use crate::vm::jail::JailedVm;
use crate::vm::json::{
    as_text, bool_value, insert_member, integer_value, member, new_members, null_value,
    object_value, text_value, value_text,
};
#[allow(unused_imports)]
use crate::vm::json::{json_of, json_text, Json};
use serde_json::Value;
use vstd::prelude::*;
use vstd::slice::slice_to_vec;
#[allow(unused_imports)]
use vstd::utf8::encode_utf8;

verus! {

/// A request to send to the API server of a microVM.
pub struct ApiCall {
    pub socket_path: Vec<u8>,
    pub request: Vec<u8>,
}

impl ApiCall {
    /// Whether this is the request with the method, the path and the document given, for the
    /// server behind the socket given.
    pub open spec fn is_call(
        self,
        socket_path: Seq<u8>,
        method: Seq<char>,
        path: Seq<char>,
        document: Json,
    ) -> bool {
        &&& self.socket_path@ == socket_path
        &&& self.request@ == encode_utf8(request_text(method, path, body_text(document)))
    }
}

/// Whether a status says that the request was carried out.
pub open spec fn is_success(status: nat) -> bool {
    200 <= status < 300
}

/// The call that puts a document.
pub fn put_json(socket_path: &[u8], path: &str, body: Value) -> (call: ApiCall)
    ensures
        call.is_call(socket_path@, "PUT"@, path@, json_of(body)),
{
    ApiCall {
        socket_path: slice_to_vec(socket_path),
        request: http_request("PUT", path, &body),
    }
}

/// The call that patches with a document.
pub fn patch_json(socket_path: &[u8], path: &str, body: Value) -> (call: ApiCall)
    ensures
        call.is_call(socket_path@, "PATCH"@, path@, json_of(body)),
{
    ApiCall {
        socket_path: slice_to_vec(socket_path),
        request: http_request("PATCH", path, &body),
    }
}

impl Reply {
    /// The result of a call whose reply holds nothing of interest.
    pub fn acknowledge(self) -> (result: Result<(), VmError>)
        ensures
            is_success(self.status as nat) ==> result is Ok,
            !is_success(self.status as nat) ==> (result matches Err(
                VmError::Http { status, body },
            ) && status == self.status && body@ == json_text(json_of(self.body))),
    {
        match self.into_document() {
            Ok(_) => Ok(()),
            Err(e) => Err(e),
        }
    }

    /// The result of a call whose reply is a document.
    pub fn into_document(self) -> (result: Result<Value, VmError>)
        ensures
            is_success(self.status as nat) ==> result == Ok::<Value, VmError>(self.body),
            !is_success(self.status as nat) ==> (result matches Err(
                VmError::Http { status, body },
            ) && status == self.status && body@ == json_text(json_of(self.body))),
    {
        if self.status / 100 != 2 {
            return Err(VmError::Http { status: self.status, body: value_text(&self.body) });
        }
        Ok(self.body)
    }
}

/// The document that sets the number of processors and the size of the memory.
pub open spec fn machine_document(vcpu_count: nat, mem_size_mib: nat) -> Json {
    Json::Object(
        map![
            "vcpu_count"@ => Json::Integer(vcpu_count as int),
            "mem_size_mib"@ => Json::Integer(mem_size_mib as int),
        ],
    )
}

/// The document that sets the kernel.
pub open spec fn boot_document(kernel_path: Seq<char>) -> Json {
    Json::Object(
        map![
            "kernel_image_path"@ => Json::Text(kernel_path),
            "boot_args"@ => Json::Text("console=ttyS0 reboot=k panic=1 pci=off"@),
        ],
    )
}

/// The document that sets the root drive.
pub open spec fn rootfs_document(rootfs_path: Seq<char>) -> Json {
    Json::Object(
        map![
            "drive_id"@ => Json::Text("rootfs"@),
            "path_on_host"@ => Json::Text(rootfs_path),
            "is_root_device"@ => Json::Bool(true),
            "is_read_only"@ => Json::Bool(false),
        ],
    )
}

/// The document that asks for an action.
pub open spec fn action_document(action: Seq<char>) -> Json {
    Json::Object(map!["action_type"@ => Json::Text(action)])
}

/// The document that asks for a state.
pub open spec fn state_document(state: Seq<char>) -> Json {
    Json::Object(map!["state"@ => Json::Text(state)])
}

/// The document that asks for a snapshot with every page of the memory.
pub open spec fn snapshot_document(snapshot_path: Seq<char>, mem_file_path: Seq<char>) -> Json {
    Json::Object(
        map![
            "snapshot_type"@ => Json::Text("Full"@),
            "snapshot_path"@ => Json::Text(snapshot_path),
            "mem_file_path"@ => Json::Text(mem_file_path),
        ],
    )
}

/// The document that loads a snapshot from files, without letting the microVM go on.
pub open spec fn load_document(snapshot_path: Seq<char>, mem_backend_path: Seq<char>) -> Json {
    Json::Object(
        map![
            "snapshot_path"@ => Json::Text(snapshot_path),
            "mem_backend"@ => Json::Object(
                map![
                    "backend_path"@ => Json::Text(mem_backend_path),
                    "backend_type"@ => Json::Text("File"@),
                ],
            ),
            "resume_vm"@ => Json::Bool(false),
        ],
    )
}

impl JailedVm {
    /// Sets the number of processors and the size of the memory.
    pub fn configure_machine(&self, vcpu_count: u32, mem_size_mib: u32) -> (call: ApiCall)
        ensures
            call.is_call(
                self.socket_path@,
                "PUT"@,
                "/machine-config"@,
                machine_document(vcpu_count as nat, mem_size_mib as nat),
            ),
    {
        let mut members = new_members();
        insert_member(&mut members, "vcpu_count", integer_value(vcpu_count));
        insert_member(&mut members, "mem_size_mib", integer_value(mem_size_mib));
        put_json(self.socket_path.as_slice(), "/machine-config", object_value(members))
    }

    /// Sets the kernel. `kernel_path` is a path inside the jail (such as `/vmlinux`): the file has
    /// to be there before the call.
    pub fn configure_boot_source(&self, kernel_path: &str) -> (call: ApiCall)
        ensures
            call.is_call(
                self.socket_path@,
                "PUT"@,
                "/boot-source"@,
                boot_document(kernel_path@),
            ),
    {
        let mut members = new_members();
        insert_member(&mut members, "kernel_image_path", text_value(kernel_path));
        insert_member(
            &mut members,
            "boot_args",
            text_value("console=ttyS0 reboot=k panic=1 pci=off"),
        );
        put_json(self.socket_path.as_slice(), "/boot-source", object_value(members))
    }

    /// Sets the root drive. `rootfs_path` is a path inside the jail (such as `/rootfs.ext4`).
    pub fn configure_rootfs(&self, rootfs_path: &str) -> (call: ApiCall)
        ensures
            call.is_call(
                self.socket_path@,
                "PUT"@,
                "/drives/rootfs"@,
                rootfs_document(rootfs_path@),
            ),
    {
        let mut members = new_members();
        insert_member(&mut members, "drive_id", text_value("rootfs"));
        insert_member(&mut members, "path_on_host", text_value(rootfs_path));
        insert_member(&mut members, "is_root_device", bool_value(true));
        insert_member(&mut members, "is_read_only", bool_value(false));
        put_json(self.socket_path.as_slice(), "/drives/rootfs", object_value(members))
    }

    /// Boots the microVM.
    pub fn start(&self) -> (call: ApiCall)
        ensures
            call.is_call(
                self.socket_path@,
                "PUT"@,
                "/actions"@,
                action_document("InstanceStart"@),
            ),
    {
        let mut members = new_members();
        insert_member(&mut members, "action_type", text_value("InstanceStart"));
        put_json(self.socket_path.as_slice(), "/actions", object_value(members))
    }

    /// Asks for the state of the microVM; the reply is a document.
    pub fn state(&self) -> (call: ApiCall)
        ensures
            call.is_call(self.socket_path@, "GET"@, "/"@, Json::Null),
    {
        ApiCall {
            socket_path: slice_to_vec(self.socket_path.as_slice()),
            request: http_request("GET", "/", &null_value()),
        }
    }

    /// Pauses the microVM.
    pub fn pause(&self) -> (call: ApiCall)
        ensures
            call.is_call(
                self.socket_path@,
                "PATCH"@,
                "/vm"@,
                state_document("Paused"@),
            ),
    {
        let mut members = new_members();
        insert_member(&mut members, "state", text_value("Paused"));
        patch_json(self.socket_path.as_slice(), "/vm", object_value(members))
    }

    /// Lets a paused microVM go on.
    pub fn resume(&self) -> (call: ApiCall)
        ensures
            call.is_call(
                self.socket_path@,
                "PATCH"@,
                "/vm"@,
                state_document("Resumed"@),
            ),
    {
        let mut members = new_members();
        insert_member(&mut members, "state", text_value("Resumed"));
        patch_json(self.socket_path.as_slice(), "/vm", object_value(members))
    }

    /// Takes a snapshot with every page of the guest's memory. The paths are inside the jail.
    pub fn snapshot_create(&self, snapshot_path: &str, mem_file_path: &str) -> (call: ApiCall)
        ensures
            call.is_call(
                self.socket_path@,
                "PUT"@,
                "/snapshot/create"@,
                snapshot_document(snapshot_path@, mem_file_path@),
            ),
    {
        let mut members = new_members();
        insert_member(&mut members, "snapshot_type", text_value("Full"));
        insert_member(&mut members, "snapshot_path", text_value(snapshot_path));
        insert_member(&mut members, "mem_file_path", text_value(mem_file_path));
        put_json(self.socket_path.as_slice(), "/snapshot/create", object_value(members))
    }

    /// Loads a snapshot, without letting the microVM go on. This comes before any configuration
    /// of a fresh instance.
    pub fn snapshot_load(&self, snapshot_path: &str, mem_backend_path: &str) -> (call: ApiCall)
        ensures
            call.is_call(
                self.socket_path@,
                "PUT"@,
                "/snapshot/load"@,
                load_document(snapshot_path@, mem_backend_path@),
            ),
    {
        let mut backend = new_members();
        insert_member(&mut backend, "backend_path", text_value(mem_backend_path));
        insert_member(&mut backend, "backend_type", text_value("File"));
        let mut members = new_members();
        insert_member(&mut members, "snapshot_path", text_value(snapshot_path));
        insert_member(&mut members, "mem_backend", object_value(backend));
        insert_member(&mut members, "resume_vm", bool_value(false));
        put_json(self.socket_path.as_slice(), "/snapshot/load", object_value(members))
    }
}

/// Whether a document describes a microVM that runs.
pub open spec fn says_running(document: Json) -> bool {
    &&& document matches Json::Object(members)
    &&& members.contains_key("state"@)
    &&& members["state"@] == Json::Text("Running"@)
}

/// Tells whether the state of a microVM was had and is that it runs.
pub fn is_running(state: &Result<Value, VmError>) -> (running: bool)
    ensures
        running == (state matches Ok(document) && says_running(json_of(*document))),
{
    if let Ok(document) = state {
        if let Some(value) = member(document, "state") {
            if let Some(text) = as_text(value) {
                return text.to_owned() == "Running".to_owned();
            }
        }
    }
    false
}

/// A status says success exactly if it is one of the two hundreds.
pub proof fn success_is_two_hundred_and_something(status: nat)
    ensures
        is_success(status) <==> status / 100 == 2,
{
}

/// A call goes to the socket it is for, and its bytes are those of a request line with the method
/// and the path, the host, the kind of the body, its length in bytes, a blank line and the text of
/// the document, which is left out for null.
pub proof fn call_is_the_request_asked_for(
    call: ApiCall,
    socket_path: Seq<u8>,
    method: Seq<char>,
    path: Seq<char>,
    document: Json,
)
    requires
        call.is_call(socket_path, method, path, document),
    ensures
        call.socket_path@ == socket_path,
        document is Null ==> call.request@ == encode_utf8(
            method + " "@ + path
                + " HTTP/1.1\r\nHost: localhost\r\nContent-Type: application/json\r\nContent-Length: 0\r\n\r\n"@,
        ),
        !(document is Null) ==> call.request@ == encode_utf8(
            method + " "@ + path
                + " HTTP/1.1\r\nHost: localhost\r\nContent-Type: application/json\r\nContent-Length: "@
                + decimal(encode_utf8(json_text(document)).len()) + "\r\n\r\n"@ + json_text(
                document,
            ),
        ),
{
    reveal_strlit(" ");
    reveal_strlit(" HTTP/1.1");
    reveal_strlit("\r\n");
    reveal_strlit("\r\n\r\n");
    reveal_strlit("Host: localhost");
    reveal_strlit("Content-Type: application/json");
    reveal_strlit("Content-Length:");
    reveal_strlit(
        " HTTP/1.1\r\nHost: localhost\r\nContent-Type: application/json\r\nContent-Length: ",
    );
    reveal_strlit(
        " HTTP/1.1\r\nHost: localhost\r\nContent-Type: application/json\r\nContent-Length: 0\r\n\r\n",
    );
    let middle =
        " HTTP/1.1\r\nHost: localhost\r\nContent-Type: application/json\r\nContent-Length: "@;
    assert(middle =~= " HTTP/1.1"@ + "\r\n"@ + "Host: localhost"@ + "\r\n"@
        + "Content-Type: application/json"@ + "\r\n"@ + "Content-Length:"@ + " "@);
    let body = body_text(document);
    let length = encode_utf8(body).len();
    assert(request_text(method, path, body) =~= method + " "@ + path + middle + decimal(length)
        + "\r\n\r\n"@ + body);
    if document is Null {
        assert(body =~= Seq::<char>::empty());
        assert(encode_utf8(body) =~= Seq::<u8>::empty());
        assert(decimal(0) =~= seq!['0']);
        assert(middle + decimal(0) + "\r\n\r\n"@
            =~= " HTTP/1.1\r\nHost: localhost\r\nContent-Type: application/json\r\nContent-Length: 0\r\n\r\n"@);
        assert(request_text(method, path, body) =~= method + " "@ + path
            + " HTTP/1.1\r\nHost: localhost\r\nContent-Type: application/json\r\nContent-Length: 0\r\n\r\n"@);
    }
}

/// Whether a document is an object with the members given and no other.
pub open spec fn has_only(document: Json, names: Seq<Seq<char>>, values: Seq<Json>) -> bool {
    &&& document matches Json::Object(members)
    &&& forall|name: Seq<char>| members.contains_key(name) <==> names.contains(name)
    &&& forall|i: int| 0 <= i < names.len() ==> members[#[trigger] names[i]] == values[i]
}

/// What a document says reads back from it: the processors and the memory.
pub proof fn machine_document_reads_back(vcpu_count: nat, mem_size_mib: nat)
    ensures
        has_only(
            machine_document(vcpu_count, mem_size_mib),
            seq!["vcpu_count"@, "mem_size_mib"@],
            seq![Json::Integer(vcpu_count as int), Json::Integer(mem_size_mib as int)],
        ),
{
    reveal_strlit("vcpu_count");
    reveal_strlit("mem_size_mib");
    let names = seq!["vcpu_count"@, "mem_size_mib"@];
    assert(names[0].len() != names[1].len());
    lemma_two(names);
}

/// What a document says reads back from it: the kernel.
pub proof fn boot_document_reads_back(kernel_path: Seq<char>)
    ensures
        has_only(
            boot_document(kernel_path),
            seq!["kernel_image_path"@, "boot_args"@],
            seq![
                Json::Text(kernel_path),
                Json::Text("console=ttyS0 reboot=k panic=1 pci=off"@),
            ],
        ),
{
    reveal_strlit("kernel_image_path");
    reveal_strlit("boot_args");
    let names = seq!["kernel_image_path"@, "boot_args"@];
    assert(names[0].len() != names[1].len());
    lemma_two(names);
}

/// What a document says reads back from it: the root drive.
pub proof fn rootfs_document_reads_back(rootfs_path: Seq<char>)
    ensures
        has_only(
            rootfs_document(rootfs_path),
            seq!["drive_id"@, "path_on_host"@, "is_root_device"@, "is_read_only"@],
            seq![
                Json::Text("rootfs"@),
                Json::Text(rootfs_path),
                Json::Bool(true),
                Json::Bool(false),
            ],
        ),
{
    reveal_strlit("drive_id");
    reveal_strlit("path_on_host");
    reveal_strlit("is_root_device");
    reveal_strlit("is_read_only");
    let names = seq!["drive_id"@, "path_on_host"@, "is_root_device"@, "is_read_only"@];
    assert(names[0].len() == 8 && names[1].len() == 12 && names[2].len() == 14 && names[3].len()
        == 12);
    assert(names[1][0] != names[3][0]);
    assert(names.contains(names[0]) && names.contains(names[1]) && names.contains(names[2])
        && names.contains(names[3]));
}

/// What a document says reads back from it: the action or the state that is asked for.
pub proof fn wish_reads_back(wish: Seq<char>)
    ensures
        has_only(action_document(wish), seq!["action_type"@], seq![Json::Text(wish)]),
        has_only(state_document(wish), seq!["state"@], seq![Json::Text(wish)]),
{
    let action = seq!["action_type"@];
    let state = seq!["state"@];
    assert(action.contains(action[0]));
    assert(state.contains(state[0]));
}

/// What a document says reads back from it: where a snapshot goes.
pub proof fn snapshot_document_reads_back(snapshot_path: Seq<char>, mem_file_path: Seq<char>)
    ensures
        has_only(
            snapshot_document(snapshot_path, mem_file_path),
            seq!["snapshot_type"@, "snapshot_path"@, "mem_file_path"@],
            seq![Json::Text("Full"@), Json::Text(snapshot_path), Json::Text(mem_file_path)],
        ),
{
    reveal_strlit("snapshot_type");
    reveal_strlit("snapshot_path");
    reveal_strlit("mem_file_path");
    let names = seq!["snapshot_type"@, "snapshot_path"@, "mem_file_path"@];
    assert(names[0][9] != names[1][9]);
    assert(names[0][0] != names[2][0]);
    assert(names[1][0] != names[2][0]);
    assert(names.contains(names[0]) && names.contains(names[1]) && names.contains(names[2]));
}

/// What a document says reads back from it: where a snapshot comes from.
pub proof fn load_document_reads_back(snapshot_path: Seq<char>, mem_backend_path: Seq<char>)
    ensures
        load_document(snapshot_path, mem_backend_path) matches Json::Object(members)
            && members.contains_key("mem_backend"@) && has_only(
            members["mem_backend"@],
            seq!["backend_path"@, "backend_type"@],
            seq![Json::Text(mem_backend_path), Json::Text("File"@)],
        ) && has_only(
            load_document(snapshot_path, mem_backend_path),
            seq!["snapshot_path"@, "mem_backend"@, "resume_vm"@],
            seq![Json::Text(snapshot_path), members["mem_backend"@], Json::Bool(false)],
        ),
{
    reveal_strlit("backend_path");
    reveal_strlit("backend_type");
    reveal_strlit("snapshot_path");
    reveal_strlit("mem_backend");
    reveal_strlit("resume_vm");
    let inner = seq!["backend_path"@, "backend_type"@];
    assert(inner[0][8] != inner[1][8]);
    lemma_two(inner);
    let names = seq!["snapshot_path"@, "mem_backend"@, "resume_vm"@];
    assert(names[0].len() == 13 && names[1].len() == 11 && names[2].len() == 9);
    assert(names.contains(names[0]) && names.contains(names[1]) && names.contains(names[2]));
}

proof fn lemma_two(names: Seq<Seq<char>>)
    requires
        names.len() == 2,
    ensures
        forall|name: Seq<char>| names.contains(name) <==> name == names[0] || name == names[1],
{
    assert(names.contains(names[0]) && names.contains(names[1]));
}

/// Calls that ask for different things send different documents.
pub proof fn different_wishes_differ(a: Seq<char>, b: Seq<char>, c: Seq<char>, d: Seq<char>)
    ensures
        load_document(a, b) == load_document(c, d) ==> a == c && b == d,
        snapshot_document(a, b) == snapshot_document(c, d) ==> a == c && b == d,
        boot_document(a) == boot_document(b) ==> a == b,
        rootfs_document(a) == rootfs_document(b) ==> a == b,
        action_document(a) == action_document(b) ==> a == b,
        state_document(a) == state_document(b) ==> a == b,
{
    lemma_load_differs(a, b, c, d);
    lemma_snapshot_differs(a, b, c, d);
    boot_document_reads_back(a);
    boot_document_reads_back(b);
    let boot = seq!["kernel_image_path"@, "boot_args"@];
    assert(boot_document(a)->Object_0[boot[0]] == Json::Text(a));
    assert(boot_document(b)->Object_0[boot[0]] == Json::Text(b));
    rootfs_document_reads_back(a);
    rootfs_document_reads_back(b);
    let drive = seq!["drive_id"@, "path_on_host"@, "is_root_device"@, "is_read_only"@];
    assert(rootfs_document(a)->Object_0[drive[1]] == Json::Text(a));
    assert(rootfs_document(b)->Object_0[drive[1]] == Json::Text(b));
    wish_reads_back(a);
    wish_reads_back(b);
    let action = seq!["action_type"@];
    let state = seq!["state"@];
    assert(action_document(a)->Object_0[action[0]] == Json::Text(a));
    assert(action_document(b)->Object_0[action[0]] == Json::Text(b));
    assert(state_document(a)->Object_0[state[0]] == Json::Text(a));
    assert(state_document(b)->Object_0[state[0]] == Json::Text(b));
}

proof fn lemma_load_differs(a: Seq<char>, b: Seq<char>, c: Seq<char>, d: Seq<char>)
    ensures
        load_document(a, b) == load_document(c, d) ==> a == c && b == d,
{
    load_document_reads_back(a, b);
    load_document_reads_back(c, d);
    let names = seq!["snapshot_path"@, "mem_backend"@, "resume_vm"@];
    let inner = seq!["backend_path"@, "backend_type"@];
    let x = load_document(a, b)->Object_0;
    let y = load_document(c, d)->Object_0;
    assert(x[names[0]] == Json::Text(a));
    assert(y[names[0]] == Json::Text(c));
    assert(x["mem_backend"@]->Object_0[inner[0]] == Json::Text(b));
    assert(y["mem_backend"@]->Object_0[inner[0]] == Json::Text(d));
}

proof fn lemma_snapshot_differs(a: Seq<char>, b: Seq<char>, c: Seq<char>, d: Seq<char>)
    ensures
        snapshot_document(a, b) == snapshot_document(c, d) ==> a == c && b == d,
{
    snapshot_document_reads_back(a, b);
    snapshot_document_reads_back(c, d);
    let names = seq!["snapshot_type"@, "snapshot_path"@, "mem_file_path"@];
    let x = snapshot_document(a, b)->Object_0;
    let y = snapshot_document(c, d)->Object_0;
    assert(x[names[1]] == Json::Text(a));
    assert(x[names[2]] == Json::Text(b));
    assert(y[names[1]] == Json::Text(c));
    assert(y[names[2]] == Json::Text(d));
}

/// A microVM runs if the member `state` of its document is the text `Running`, whatever other
/// members there are, and only then.
pub proof fn running_is_told_by_the_state(members: Map<Seq<char>, Json>, state: Json, document: Json)
    ensures
        says_running(Json::Object(members.insert("state"@, state))) <==> state == Json::Text(
            "Running"@,
        ),
        !says_running(Json::Object(members.remove("state"@))),
        !(document is Object) ==> !says_running(document),
{
}

} // verus!
