//! The apply procedure: discover the Xray container of the controller's
//! Compose project, test its fixed configuration, restart it, wait for it to
//! run and test the configuration again. It is a state machine whose actions
//! the surrounding program performs and whose events it reports back.

use vstd::prelude::*;
use vstd::string::{StringExecFns, StrSliceExecFns};
use vstd::utf8::{decode_utf8, encode_utf8};
use crate::http::{docker_error, docker_error_message, DockerCall, DockerResponse, Method};
use crate::json::{compose_project_label, filters_for_project, filters_json};
use crate::percent::{percent_encode, percent_encoding};
use crate::text::{ascii, decimal, decimal_string, signed_decimal, signed_decimal_string};

verus! {

// ---------------------------------------------------------------------------
// What the Docker Engine API reports, as far as the controller reads it
// ---------------------------------------------------------------------------

/// The parts of a container's inspection that the controller reads: its
/// labels and whether it is running or restarting.
#[derive(Debug)]
pub struct ContainerInspect {
    pub labels: Vec<(String, String)>,
    pub running: bool,
    pub restarting: bool,
}

/// An entry of the container list: the container's ID and its names.
#[derive(Debug)]
pub struct ContainerSummary {
    pub id: String,
    pub names: Vec<String>,
}

/// The state of a finished or running exec instance.
#[derive(Debug)]
pub struct ExecInspect {
    pub running: bool,
    pub exit_code: i32,
}

/// A response body decoded from JSON, or the decoder's error message.
#[derive(Debug)]
pub enum Payload {
    /// The body is not read.
    Empty,
    /// A container inspection.
    Container(Result<ContainerInspect, String>),
    /// A container list.
    Containers(Result<Vec<ContainerSummary>, String>),
    /// The ID of a created exec instance.
    ExecCreated(Result<String, String>),
    /// An exec inspection.
    Exec(Result<ExecInspect, String>),
}

/// Which body a request's response is to be decoded as.
#[derive(Clone, Copy, Debug, PartialEq, Eq, Structural)]
pub enum Expect {
    Empty,
    Container,
    Containers,
    ExecCreated,
    Exec,
}

/// What became of a request: it failed with a message before a response was
/// read, or was answered.
#[derive(Debug)]
pub enum Reply {
    Failed(String),
    Answered(DockerResponse, Payload),
}

/// No two labels share a key, as in the map that Docker reports them in.
pub open spec fn distinct_keys(labels: Seq<(String, String)>) -> bool {
    forall|i: int, j: int| 0 <= i < j < labels.len() ==> labels[i].0@ != labels[j].0@
}

/// The reply carries the kind of body that was asked for; a container's
/// labels have distinct keys.
pub open spec fn fits(r: Reply, x: Expect) -> bool {
    match r {
        Reply::Failed(_) => true,
        Reply::Answered(_, p) => match p {
            Payload::Empty => x == Expect::Empty,
            Payload::Container(c) => x == Expect::Container && (c matches Ok(ci) ==> distinct_keys(
                ci.labels@,
            )),
            Payload::Containers(_) => x == Expect::Containers,
            Payload::ExecCreated(_) => x == Expect::ExecCreated,
            Payload::Exec(_) => x == Expect::Exec,
        },
    }
}

/// The body of a reply with the expected status, or the message of the
/// failure.
pub open spec fn reply_outcome(r: Reply, expected: u16) -> Result<Payload, Seq<char>> {
    match r {
        Reply::Failed(m) => Err(m@),
        Reply::Answered(resp, p) => if resp.status == expected {
            Ok(p)
        } else {
            Err(docker_error_message(resp.status, resp.reason@, resp.body@))
        },
    }
}

fn reply_payload(r: Reply, expected: u16) -> (res: Result<Payload, String>)
    ensures
        match reply_outcome(r, expected) {
            Ok(p) => res == Ok::<Payload, String>(p),
            Err(m) => res matches Err(e) && e@ == m,
        },
{
    match r {
        Reply::Failed(m) => Err(m),
        Reply::Answered(resp, p) => if resp.status == expected {
            Ok(p)
        } else {
            Err(docker_error(&resp))
        },
    }
}

fn prefixed(prefix: &str, m: &str) -> (res: String)
    ensures
        res@ == prefix@ + m@,
{
    let mut s = prefix.to_owned();
    s.append(m);
    s
}

// ---------------------------------------------------------------------------
// The requests of an apply and how their replies are read
// ---------------------------------------------------------------------------

pub open spec fn container_path(id: Seq<char>) -> Seq<char> {
    "/containers/"@ + id + "/json"@
}

fn call(method: Method, path: String, body: Vec<u8>) -> (res: DockerCall)
    ensures
        res.method == method,
        res.path@ == path@,
        res.body@ == body@,
{
    DockerCall { method, path, body }
}

/// The request that inspects a container.
pub fn inspect_container(id: &str) -> (res: DockerCall)
    ensures
        res.method == Method::Get,
        res.path@ == container_path(id@),
        res.body@ == Seq::<u8>::empty(),
{
    let mut path = "/containers/".to_owned();
    path.append(id);
    path.append("/json");
    call(Method::Get, path, Vec::new())
}

/// A container inspection read from its reply: the status must be 200.
pub open spec fn container_outcome(r: Reply) -> Result<ContainerInspect, Seq<char>> {
    match reply_outcome(r, 200) {
        Err(m) => Err(m),
        Ok(Payload::Container(Ok(c))) => Ok(c),
        Ok(Payload::Container(Err(m))) => Err("decode container inspect: "@ + m@),
        Ok(_) => Err(Seq::empty()),
    }
}

/// Reads the reply to a container inspection.
pub fn container_reply(r: Reply) -> (res: Result<ContainerInspect, String>)
    requires
        fits(r, Expect::Container),
    ensures
        match container_outcome(r) {
            Ok(c) => res == Ok::<ContainerInspect, String>(c),
            Err(m) => res matches Err(e) && e@ == m,
        },
{
    match reply_payload(r, 200) {
        Err(m) => Err(m),
        Ok(Payload::Container(Ok(c))) => Ok(c),
        Ok(Payload::Container(Err(m))) => Err(prefixed("decode container inspect: ", m.as_str())),
        Ok(_) => Err(String::new()),
    }
}

/// The value of the Compose project label among a container's labels.
pub open spec fn label_value(labels: Seq<(String, String)>) -> Option<Seq<char>>
    decreases labels.len(),
{
    if labels.len() == 0 {
        None
    } else if labels[0].0@ == compose_project_label() {
        Some(labels[0].1@)
    } else {
        label_value(labels.drop_first())
    }
}

/// With distinct keys, the first match is the only one: `label_value` finds
/// the Compose project label's value exactly as a map lookup does.
pub proof fn label_value_is_lookup(labels: Seq<(String, String)>, v: Seq<char>)
    requires
        distinct_keys(labels),
    ensures
        label_value(labels) == Some(v) <==> exists|i: int|
            0 <= i < labels.len() && labels[i].0@ == compose_project_label() && labels[i].1@ == v,
        label_value(labels) is None <==> forall|i: int|
            0 <= i < labels.len() ==> labels[i].0@ != compose_project_label(),
    decreases labels.len(),
{
    if labels.len() > 0 {
        let rest = labels.drop_first();
        assert forall|i: int, j: int| 0 <= i < j < rest.len() implies rest[i].0@ != rest[j].0@ by {
            assert(rest[i] == labels[i + 1]);
            assert(rest[j] == labels[j + 1]);
        }
        label_value_is_lookup(rest, v);
        if labels[0].0@ == compose_project_label() {
            if exists|i: int| 0 <= i < labels.len() && labels[i].0@ == compose_project_label()
                && labels[i].1@ == v {
                let i = choose|i: int| 0 <= i < labels.len() && labels[i].0@ == compose_project_label()
                    && labels[i].1@ == v;
                if i > 0 {
                    assert(labels[0].0@ != labels[i].0@);
                }
            }
        } else {
            if exists|i: int| 0 <= i < labels.len() && labels[i].0@ == compose_project_label()
                && labels[i].1@ == v {
                let i = choose|i: int| 0 <= i < labels.len() && labels[i].0@ == compose_project_label()
                    && labels[i].1@ == v;
                assert(rest[i - 1] == labels[i]);
            }
            if label_value(rest) == Some(v) {
                let i = choose|i: int| 0 <= i < rest.len() && rest[i].0@ == compose_project_label()
                    && rest[i].1@ == v;
                assert(rest[i] == labels[i + 1]);
            }
            assert forall|i: int| 0 <= i < labels.len() && labels[i].0@ == compose_project_label() implies
                i >= 1 && rest[i - 1].0@ == compose_project_label() by {
            }
            if label_value(rest) is None {
                assert forall|i: int| 0 <= i < labels.len() implies labels[i].0@ != compose_project_label() by {
                    if i > 0 {
                        assert(rest[i - 1] == labels[i]);
                    }
                }
            }
        }
    }
}

/// The Compose project of the controller's own container: the non-empty
/// value of its project label.
pub open spec fn project_outcome(c: ContainerInspect) -> Result<Seq<char>, Seq<char>> {
    match label_value(c.labels@) {
        Some(v) => if v.len() > 0 {
            Ok(v)
        } else {
            Err("controller lacks a Compose project label"@)
        },
        None => Err("controller lacks a Compose project label"@),
    }
}

/// Reads the Compose project from the controller's own inspection.
pub fn project_of(c: &ContainerInspect) -> (res: Result<String, String>)
    ensures
        match project_outcome(*c) {
            Ok(p) => res matches Ok(s) && s@ == p,
            Err(m) => res matches Err(e) && e@ == m,
        },
{
    let key = "com.docker.compose.project".to_owned();
    let mut i: usize = 0;
    assert(c.labels@.subrange(0, c.labels@.len() as int) =~= c.labels@);
    while i < c.labels.len()
        invariant
            i <= c.labels@.len(),
            key@ == compose_project_label(),
            label_value(c.labels@) == label_value(c.labels@.subrange(i as int, c.labels@.len() as int)),
        decreases c.labels@.len() - i,
    {
        let ghost rest = c.labels@.subrange(i as int, c.labels@.len() as int);
        if c.labels[i].0 == key {
            let value = c.labels[i].1.clone();
            if value.as_str().is_empty() {
                return Err("controller lacks a Compose project label".to_owned());
            }
            return Ok(value);
        }
        assert(rest.drop_first() =~= c.labels@.subrange(i + 1, c.labels@.len() as int));
        i = i + 1;
    }
    Err("controller lacks a Compose project label".to_owned())
}

pub open spec fn list_path(project: Seq<char>) -> Seq<char> {
    "/containers/json?all=1&filters="@ + ascii(percent_encoding(encode_utf8(filters_json(project))))
}

/// The request that lists all containers, running or not, of a Compose
/// project that carry the Xray role label.
pub fn list_request(project: &str) -> (res: DockerCall)
    ensures
        res.method == Method::Get,
        res.path@ == list_path(project@),
        res.body@ == Seq::<u8>::empty(),
{
    let filters = filters_for_project(project);
    let encoded = percent_encode(filters.as_str());
    let mut path = "/containers/json?all=1&filters=".to_owned();
    path.append(encoded.as_str());
    call(Method::Get, path, Vec::new())
}

/// A container list read from its reply: the status must be 200.
pub open spec fn containers_outcome(r: Reply) -> Result<Seq<ContainerSummary>, Seq<char>> {
    match reply_outcome(r, 200) {
        Err(m) => Err(m),
        Ok(Payload::Containers(Ok(l))) => Ok(l@),
        Ok(Payload::Containers(Err(m))) => Err("decode container list: "@ + m@),
        Ok(_) => Err(Seq::empty()),
    }
}

/// Reads the reply to the container list.
pub fn containers_reply(r: Reply) -> (res: Result<Vec<ContainerSummary>, String>)
    requires
        fits(r, Expect::Containers),
    ensures
        match containers_outcome(r) {
            Ok(l) => res matches Ok(v) && v@ == l,
            Err(m) => res matches Err(e) && e@ == m,
        },
{
    match reply_payload(r, 200) {
        Err(m) => Err(m),
        Ok(Payload::Containers(Ok(l))) => Ok(l),
        Ok(Payload::Containers(Err(m))) => Err(prefixed("decode container list: ", m.as_str())),
        Ok(_) => Err(String::new()),
    }
}

/// The container's name without its leading slashes.
pub open spec fn trim_slashes(s: Seq<char>) -> Seq<char>
    decreases s.len(),
{
    if s.len() > 0 && s[0] == '/' {
        trim_slashes(s.drop_first())
    } else {
        s
    }
}

/// The name under which a discovered container is reported: its first name
/// without leading slashes, or, where that is missing or empty, the first 12
/// characters of its ID.
pub open spec fn display_name(c: ContainerSummary) -> Seq<char> {
    if c.names@.len() > 0 && trim_slashes(c.names@[0]@).len() > 0 {
        trim_slashes(c.names@[0]@)
    } else {
        c.id@.subrange(0, if c.id@.len() < 12 { c.id@.len() as int } else { 12 })
    }
}

fn trimmed_name(name: &str) -> (res: String)
    ensures
        res@ == trim_slashes(name@),
{
    let n = name.unicode_len();
    let mut k: usize = 0;
    assert(name@.subrange(0, n as int) =~= name@);
    while k < n && name.get_char(k) == '/'
        invariant
            k <= n,
            n == name@.len(),
            trim_slashes(name@) == trim_slashes(name@.subrange(k as int, n as int)),
        decreases n - k,
    {
        let ghost s = name@.subrange(k as int, n as int);
        assert(s.drop_first() =~= name@.subrange(k + 1, n as int));
        k = k + 1;
    }
    assert(k < n ==> name@.subrange(k as int, n as int)[0] == name@[k as int]);
    name.substring_char(k, n).to_owned()
}

/// Names a discovered container (see `display_name`).
pub fn display_name_of(c: &ContainerSummary) -> (res: String)
    ensures
        res@ == display_name(*c),
{
    if c.names.len() > 0 {
        let name = trimmed_name(c.names[0].as_str());
        if !name.as_str().is_empty() {
            return name;
        }
    }
    let n = c.id.as_str().unicode_len();
    let m = if n < 12 { n } else { 12 };
    c.id.as_str().substring_char(0, m).to_owned()
}

/// The discovered container, its display name and its project.
#[derive(Debug)]
pub struct Target {
    pub id: String,
    pub name: String,
    pub project: String,
}

/// The message that reports a list that does not hold exactly one container.
pub open spec fn count_message(project: Seq<char>, found: nat) -> Seq<char> {
    "expected exactly one container in Compose project "@ + project
        + " with label org.xray.controller.role=core, found "@ + ascii(decimal(found))
}

/// The target of an apply: the one container that the list holds.
pub fn discovered_target(list: Vec<ContainerSummary>, project: String) -> (res: Result<Target, String>)
    ensures
        list@.len() == 1 ==> (res matches Ok(t) && t.id@ == list@[0].id@ && t.name@ == display_name(
            list@[0],
        ) && t.project@ == project@),
        list@.len() != 1 ==> (res matches Err(e) && e@ == count_message(project@, list@.len())),
{
    if list.len() != 1 {
        let mut m = "expected exactly one container in Compose project ".to_owned();
        m.append(project.as_str());
        m.append(" with label org.xray.controller.role=core, found ");
        m.append(decimal_string(list.len() as u64).as_str());
        return Err(m);
    }
    let name = display_name_of(&list[0]);
    let id = list[0].id.clone();
    Ok(Target { id, name, project })
}


// ---------------------------------------------------------------------------
// The fixed configuration test, run in the Xray container
// ---------------------------------------------------------------------------

pub open spec fn exec_create_path(id: Seq<char>) -> Seq<char> {
    "/containers/"@ + id + "/exec"@
}

/// The exec instance that runs Xray's own test of its fixed configuration
/// file, with its output attached and no terminal, as compact JSON.
pub open spec fn exec_create_body() -> Seq<u8> {
    encode_utf8(
        "{\"AttachStderr\":true,\"AttachStdout\":true,\"Cmd\":[\"/usr/local/bin/xray\",\"run\",\"-test\",\"-c\",\"/usr/local/etc/xray/config.json\"],\"Tty\":false}"@,
    )
}

/// The request that creates the configuration test in a container.
pub fn exec_create_request(id: &str) -> (res: DockerCall)
    ensures
        res.method == Method::Post,
        res.path@ == exec_create_path(id@),
        res.body@ == exec_create_body(),
{
    let mut path = "/containers/".to_owned();
    path.append(id);
    path.append("/exec");
    let body = vstd::slice::slice_to_vec(
        "{\"AttachStderr\":true,\"AttachStdout\":true,\"Cmd\":[\"/usr/local/bin/xray\",\"run\",\"-test\",\"-c\",\"/usr/local/etc/xray/config.json\"],\"Tty\":false}".as_bytes(),
    );
    call(Method::Post, path, body)
}

/// The ID of the created exec instance: the status must be 201 and the ID
/// must not be empty.
pub open spec fn exec_created_outcome(r: Reply) -> Result<Seq<char>, Seq<char>> {
    match reply_outcome(r, 201) {
        Err(m) => Err(m),
        Ok(Payload::ExecCreated(Ok(id))) => if id@.len() == 0 {
            Err("Docker API returned an empty exec ID"@)
        } else {
            Ok(id@)
        },
        Ok(Payload::ExecCreated(Err(m))) => Err("decode exec creation: "@ + m@),
        Ok(_) => Err(Seq::empty()),
    }
}

/// Reads the reply to the creation of the configuration test.
pub fn exec_created_reply(r: Reply) -> (res: Result<String, String>)
    requires
        fits(r, Expect::ExecCreated),
    ensures
        match exec_created_outcome(r) {
            Ok(id) => res matches Ok(s) && s@ == id,
            Err(m) => res matches Err(e) && e@ == m,
        },
{
    match reply_payload(r, 201) {
        Err(m) => Err(m),
        Ok(Payload::ExecCreated(Ok(id))) => if id.as_str().is_empty() {
            Err("Docker API returned an empty exec ID".to_owned())
        } else {
            Ok(id)
        },
        Ok(Payload::ExecCreated(Err(m))) => Err(prefixed("decode exec creation: ", m.as_str())),
        Ok(_) => Err(String::new()),
    }
}

pub open spec fn exec_start_path(exec_id: Seq<char>) -> Seq<char> {
    "/exec/"@ + exec_id + "/start"@
}

/// Starts an exec instance attached, without a terminal, as compact JSON.
pub open spec fn exec_start_body() -> Seq<u8> {
    encode_utf8("{\"Detach\":false,\"Tty\":false}"@)
}

/// The request that runs the configuration test to its end.
pub fn exec_start_request(exec_id: &str) -> (res: DockerCall)
    ensures
        res.method == Method::Post,
        res.path@ == exec_start_path(exec_id@),
        res.body@ == exec_start_body(),
{
    let mut path = "/exec/".to_owned();
    path.append(exec_id);
    path.append("/start");
    let body = vstd::slice::slice_to_vec("{\"Detach\":false,\"Tty\":false}".as_bytes());
    call(Method::Post, path, body)
}

/// A run of the exec instance succeeds on status 200; its output is not read.
pub open spec fn exec_started_outcome(r: Reply) -> Result<(), Seq<char>> {
    match reply_outcome(r, 200) {
        Err(m) => Err(m),
        Ok(_) => Ok(()),
    }
}

/// Reads the reply to the run of the configuration test.
pub fn exec_started_reply(r: Reply) -> (res: Result<(), String>)
    ensures
        match exec_started_outcome(r) {
            Ok(_) => res is Ok,
            Err(m) => res matches Err(e) && e@ == m,
        },
{
    match reply_payload(r, 200) {
        Err(m) => Err(m),
        Ok(_) => Ok(()),
    }
}

pub open spec fn exec_inspect_path(exec_id: Seq<char>) -> Seq<char> {
    "/exec/"@ + exec_id + "/json"@
}

/// The request that inspects the finished configuration test.
pub fn exec_inspect_request(exec_id: &str) -> (res: DockerCall)
    ensures
        res.method == Method::Get,
        res.path@ == exec_inspect_path(exec_id@),
        res.body@ == Seq::<u8>::empty(),
{
    let mut path = "/exec/".to_owned();
    path.append(exec_id);
    path.append("/json");
    call(Method::Get, path, Vec::new())
}

/// The configuration test passed: status 200, the exec instance is no longer
/// running and exited with code 0.
pub open spec fn exec_inspect_outcome(r: Reply) -> Result<(), Seq<char>> {
    match reply_outcome(r, 200) {
        Err(m) => Err(m),
        Ok(Payload::Exec(Ok(e))) => if e.running {
            Err("fixed Xray configuration test did not finish"@)
        } else if e.exit_code != 0 {
            Err(
                "fixed Xray configuration test failed with exit code "@ + ascii(
                    signed_decimal(e.exit_code as int),
                ),
            )
        } else {
            Ok(())
        },
        Ok(Payload::Exec(Err(m))) => Err("decode exec inspect: "@ + m@),
        Ok(_) => Err(Seq::empty()),
    }
}

/// Reads the reply to the inspection of the configuration test.
pub fn exec_inspect_reply(r: Reply) -> (res: Result<(), String>)
    requires
        fits(r, Expect::Exec),
    ensures
        match exec_inspect_outcome(r) {
            Ok(_) => res is Ok,
            Err(m) => res matches Err(e) && e@ == m,
        },
{
    match reply_payload(r, 200) {
        Err(m) => Err(m),
        Ok(Payload::Exec(Ok(e))) => if e.running {
            Err("fixed Xray configuration test did not finish".to_owned())
        } else if e.exit_code != 0 {
            Err(
                prefixed(
                    "fixed Xray configuration test failed with exit code ",
                    signed_decimal_string(e.exit_code).as_str(),
                ),
            )
        } else {
            Ok(())
        },
        Ok(Payload::Exec(Err(m))) => Err(prefixed("decode exec inspect: ", m.as_str())),
        Ok(_) => Err(String::new()),
    }
}

// ---------------------------------------------------------------------------
// Restarting and waiting
// ---------------------------------------------------------------------------

pub open spec fn restart_path(id: Seq<char>) -> Seq<char> {
    "/containers/"@ + id + "/restart?t=10"@
}

/// The request that restarts a container, giving it 10 seconds to stop.
pub fn restart_request(id: &str) -> (res: DockerCall)
    ensures
        res.method == Method::Post,
        res.path@ == restart_path(id@),
        res.body@ == Seq::<u8>::empty(),
{
    let mut path = "/containers/".to_owned();
    path.append(id);
    path.append("/restart?t=10");
    call(Method::Post, path, Vec::new())
}

/// A restart succeeds on status 204.
pub open spec fn restart_outcome(r: Reply) -> Result<(), Seq<char>> {
    match reply_outcome(r, 204) {
        Err(m) => Err(m),
        Ok(_) => Ok(()),
    }
}

/// Reads the reply to a restart.
pub fn restart(r: Reply) -> (res: Result<(), String>)
    ensures
        match restart_outcome(r) {
            Ok(_) => res is Ok,
            Err(m) => res matches Err(e) && e@ == m,
        },
{
    match reply_payload(r, 204) {
        Err(m) => Err(m),
        Ok(_) => Ok(()),
    }
}

/// How long the controller waits for the restarted container to run.
pub const WAIT_MILLIS: u64 = 30000;

/// The pause between two inspections while it waits.
pub const POLL_MILLIS: u64 = 500;

/// The byte length of the ID prefix by which a container is reported.
pub open spec fn short_id_len(id: Seq<char>) -> int {
    let n = encode_utf8(id).len() as int;
    if n < 12 {
        n
    } else {
        12
    }
}

/// The first 12 bytes of an ID can be cut out of it only where they end on a
/// character boundary.
pub open spec fn short_id_cuttable(id: Seq<char>) -> bool {
    vstd::utf8::is_char_boundary(encode_utf8(id), short_id_len(id))
}

/// The first 12 bytes of an ID, as text.
pub open spec fn short_id(id: Seq<char>) -> Seq<char> {
    decode_utf8(encode_utf8(id).subrange(0, short_id_len(id)))
}

/// The message that reports a container that did not come up in time.
pub open spec fn timeout_message(id: Seq<char>) -> Seq<char> {
    "discovered container "@ + short_id(id) + " did not become running within 30 seconds"@
}

/// Reports a container that did not come up in time.
pub fn wait_timeout_message(id: &str) -> (res: String)
    requires
        short_id_cuttable(id@),
    ensures
        res@ == timeout_message(id@),
{
    let n = id.as_bytes().len();
    let m = if n < 12 { n } else { 12 };
    let (head, _) = id.split_at(m);
    proof {
        vstd::utf8::encode_utf8_decode_utf8(head@);
    }
    let mut out = "discovered container ".to_owned();
    out.append(head);
    out.append(" did not become running within 30 seconds");
    out
}


// ---------------------------------------------------------------------------
// The apply procedure as a state machine
// ---------------------------------------------------------------------------

/// Whether the configuration test runs before or after the restart.
#[derive(Clone, Copy, Debug, PartialEq, Eq, Structural)]
pub enum Stage {
    PreRestart,
    PostRestart,
}

/// The words put before every failure of the configuration test.
pub open spec fn stage_prefix(stage: Stage) -> Seq<char> {
    match stage {
        Stage::PreRestart => "pre-restart configuration test: "@,
        Stage::PostRestart => "post-restart configuration test: "@,
    }
}

fn stage_prefixed(stage: Stage, m: &str) -> (res: String)
    ensures
        res@ == stage_prefix(stage) + m@,
{
    match stage {
        Stage::PreRestart => prefixed("pre-restart configuration test: ", m),
        Stage::PostRestart => prefixed("post-restart configuration test: ", m),
    }
}

/// The message of a successful apply.
pub open spec fn success_message(name: Seq<char>, project: Seq<char>) -> Seq<char> {
    "configuration validated, discovered container "@ + name + " in Compose project "@ + project
        + " restarted, post-check passed"@
}

fn success_text(target: &Target) -> (res: String)
    ensures
        res@ == success_message(target.name@, target.project@),
{
    let mut out = "configuration validated, discovered container ".to_owned();
    out.append(target.name.as_str());
    out.append(" in Compose project ");
    out.append(target.project.as_str());
    out.append(" restarted, post-check passed");
    out
}

/// Where an apply stands. Each state but `Start` and `Done` waits for the
/// outcome of the action that led to it.
#[derive(Debug)]
pub enum ApplyState {
    /// Nothing done yet; the controller's own container ID is needed.
    Start,
    /// The controller's own container is being inspected.
    InspectingSelf,
    /// The containers of the project with the Xray role are being listed.
    Listing { project: String },
    /// The discovered container is being inspected.
    InspectingTarget { target: Target },
    /// The configuration test is being created.
    CreatingExec { target: Target, stage: Stage },
    /// The configuration test is running.
    StartingExec { target: Target, stage: Stage, exec_id: String },
    /// The finished configuration test is being inspected.
    InspectingExec { target: Target, stage: Stage, exec_id: String },
    /// The container is being restarted.
    Restarting { target: Target },
    /// The clock is read to set the deadline of the wait.
    WaitStart { target: Target },
    /// The clock is read to see whether the deadline has passed.
    WaitCheck { target: Target, deadline: u64 },
    /// The restarted container is being inspected.
    WaitInspect { target: Target, deadline: u64 },
    /// The controller pauses before it inspects again.
    WaitSleep { target: Target, deadline: u64 },
    /// The apply has finished.
    Done,
}

/// What the surrounding program reports back to the apply.
#[derive(Debug)]
pub enum Event {
    /// The apply begins; the controller's own container ID (its host name),
    /// if the environment provides it.
    Started(Option<String>),
    /// The outcome of a request.
    Replied(Reply),
    /// A reading of a monotonic clock, in milliseconds.
    Clock(u64),
    /// The pause is over.
    Slept,
}

/// What the apply asks the surrounding program to do next.
#[derive(Debug)]
pub enum Action {
    /// Send a request to the Docker Engine API and decode its body as told.
    Call(DockerCall, Expect),
    /// Read the monotonic clock.
    ReadClock,
    /// Pause for the given number of milliseconds.
    Sleep(u64),
    /// The apply is over, with its message or its error.
    Finish(Result<String, String>),
}

/// The events that a state waits for. A clock reading must leave room for
/// the deadline, and a passed deadline must leave the ID cuttable for its
/// report.
pub open spec fn accepts(s: ApplyState, e: Event) -> bool {
    match s {
        ApplyState::Start => e is Started,
        ApplyState::InspectingSelf => e matches Event::Replied(r) && fits(r, Expect::Container),
        ApplyState::Listing { .. } => e matches Event::Replied(r) && fits(r, Expect::Containers),
        ApplyState::InspectingTarget { .. } => e matches Event::Replied(r) && fits(
            r,
            Expect::Container,
        ),
        ApplyState::CreatingExec { .. } => e matches Event::Replied(r) && fits(r, Expect::ExecCreated),
        ApplyState::StartingExec { .. } => e matches Event::Replied(r) && fits(r, Expect::Empty),
        ApplyState::InspectingExec { .. } => e matches Event::Replied(r) && fits(r, Expect::Exec),
        ApplyState::Restarting { .. } => e matches Event::Replied(r) && fits(r, Expect::Empty),
        ApplyState::WaitStart { .. } => e matches Event::Clock(t) && t <= u64::MAX - WAIT_MILLIS,
        ApplyState::WaitCheck { target, deadline } => e matches Event::Clock(t) && (t >= deadline
            ==> short_id_cuttable(target.id@)),
        ApplyState::WaitInspect { .. } => e matches Event::Replied(r) && fits(r, Expect::Container),
        ApplyState::WaitSleep { .. } => e is Slept,
        ApplyState::Done => false,
    }
}

/// The action is the given request, with the given body kind expected.
pub open spec fn is_call(a: Action, method: Method, path: Seq<char>, body: Seq<u8>, x: Expect) -> bool {
    a matches Action::Call(c, y) && c.method == method && c.path@ == path && c.body@ == body && y == x
}

/// The apply ends with the given error.
pub open spec fn fails_with(s2: ApplyState, a: Action, message: Seq<char>) -> bool {
    s2 is Done && (a matches Action::Finish(Err(e)) && e@ == message)
}

/// The next step of the configuration test once it has been created.
pub open spec fn creates_test(s2: ApplyState, a: Action, target: Target, stage: Stage) -> bool {
    &&& s2 matches ApplyState::CreatingExec { target: t2, stage: st2 } && t2 == target && st2 == stage
    &&& is_call(a, Method::Post, exec_create_path(target.id@), exec_create_body(), Expect::ExecCreated)
}

/// The step that restarts the target.
pub open spec fn restarts(s2: ApplyState, a: Action, target: Target) -> bool {
    &&& s2 matches ApplyState::Restarting { target: t2 } && t2 == target
    &&& is_call(a, Method::Post, restart_path(target.id@), Seq::empty(), Expect::Empty)
}

/// One step of an apply: from state `s`, on event `e`, to state `s2` with
/// action `a`. Discovery finds the controller's Compose project through its
/// own container and then the one container of that project with the Xray
/// role; a running container has its configuration tested before it is
/// restarted; after the restart the controller waits up to 30 seconds for
/// the container to run, polling every half second, and tests the
/// configuration again. Every failure ends the apply with its message.
pub open spec fn steps_to(s: ApplyState, e: Event, s2: ApplyState, a: Action) -> bool {
    match s {
        ApplyState::Start => match e {
            Event::Started(None) => fails_with(s2, a, "HOSTNAME is unavailable"@),
            Event::Started(Some(h)) => s2 is InspectingSelf && is_call(
                a,
                Method::Get,
                container_path(h@),
                Seq::empty(),
                Expect::Container,
            ),
            _ => false,
        },
        ApplyState::InspectingSelf => match e {
            Event::Replied(r) => match container_outcome(r) {
                Err(m) => fails_with(s2, a, m),
                Ok(c) => match project_outcome(c) {
                    Err(m) => fails_with(s2, a, m),
                    Ok(p) => s2 matches ApplyState::Listing { project } && project@ == p && is_call(
                        a,
                        Method::Get,
                        list_path(p),
                        Seq::empty(),
                        Expect::Containers,
                    ),
                },
            },
            _ => false,
        },
        ApplyState::Listing { project } => match e {
            Event::Replied(r) => match containers_outcome(r) {
                Err(m) => fails_with(s2, a, m),
                Ok(l) => if l.len() != 1 {
                    fails_with(s2, a, count_message(project@, l.len()))
                } else {
                    &&& s2 matches ApplyState::InspectingTarget { target } && target.id@ == l[0].id@
                        && target.name@ == display_name(l[0]) && target.project@ == project@
                    &&& is_call(a, Method::Get, container_path(l[0].id@), Seq::empty(), Expect::Container)
                },
            },
            _ => false,
        },
        ApplyState::InspectingTarget { target } => match e {
            Event::Replied(r) => match container_outcome(r) {
                Err(m) => fails_with(s2, a, m),
                Ok(c) => if c.running && !c.restarting {
                    creates_test(s2, a, target, Stage::PreRestart)
                } else {
                    restarts(s2, a, target)
                },
            },
            _ => false,
        },
        ApplyState::CreatingExec { target, stage } => match e {
            Event::Replied(r) => match exec_created_outcome(r) {
                Err(m) => fails_with(s2, a, stage_prefix(stage) + m),
                Ok(x) => {
                    &&& s2 matches ApplyState::StartingExec { target: t2, stage: st2, exec_id } && t2
                        == target && st2 == stage && exec_id@ == x
                    &&& is_call(a, Method::Post, exec_start_path(x), exec_start_body(), Expect::Empty)
                },
            },
            _ => false,
        },
        ApplyState::StartingExec { target, stage, exec_id } => match e {
            Event::Replied(r) => match exec_started_outcome(r) {
                Err(m) => fails_with(s2, a, stage_prefix(stage) + m),
                Ok(_) => {
                    &&& s2 matches ApplyState::InspectingExec { target: t2, stage: st2, exec_id: x2 } && t2
                        == target && st2 == stage && x2 == exec_id
                    &&& is_call(a, Method::Get, exec_inspect_path(exec_id@), Seq::empty(), Expect::Exec)
                },
            },
            _ => false,
        },
        ApplyState::InspectingExec { target, stage, exec_id } => match e {
            Event::Replied(r) => match exec_inspect_outcome(r) {
                Err(m) => fails_with(s2, a, stage_prefix(stage) + m),
                Ok(_) => match stage {
                    Stage::PreRestart => restarts(s2, a, target),
                    Stage::PostRestart => s2 is Done && (a matches Action::Finish(Ok(m)) && m@
                        == success_message(target.name@, target.project@)),
                },
            },
            _ => false,
        },
        ApplyState::Restarting { target } => match e {
            Event::Replied(r) => match restart_outcome(r) {
                Err(m) => fails_with(s2, a, "restart discovered container: "@ + m),
                Ok(_) => s2 matches ApplyState::WaitStart { target: t2 } && t2 == target && a is ReadClock,
            },
            _ => false,
        },
        ApplyState::WaitStart { target } => match e {
            Event::Clock(t) => s2 matches ApplyState::WaitCheck { target: t2, deadline } && t2 == target
                && deadline == t + WAIT_MILLIS && a is ReadClock,
            _ => false,
        },
        ApplyState::WaitCheck { target, deadline } => match e {
            Event::Clock(t) => if t < deadline {
                &&& s2 matches ApplyState::WaitInspect { target: t2, deadline: d2 } && t2 == target && d2
                    == deadline
                &&& is_call(a, Method::Get, container_path(target.id@), Seq::empty(), Expect::Container)
            } else {
                fails_with(s2, a, timeout_message(target.id@))
            },
            _ => false,
        },
        ApplyState::WaitInspect { target, deadline } => match e {
            Event::Replied(r) => if container_outcome(r) matches Ok(c) && c.running && !c.restarting {
                creates_test(s2, a, target, Stage::PostRestart)
            } else {
                s2 matches ApplyState::WaitSleep { target: t2, deadline: d2 } && t2 == target && d2
                    == deadline && a == Action::Sleep(POLL_MILLIS)
            },
            _ => false,
        },
        ApplyState::WaitSleep { target, deadline } => match e {
            Event::Slept => s2 matches ApplyState::WaitCheck { target: t2, deadline: d2 } && t2 == target
                && d2 == deadline && a is ReadClock,
            _ => false,
        },
        ApplyState::Done => false,
    }
}

/// Whether no two labels share a key.
pub fn labels_distinct(labels: &Vec<(String, String)>) -> (res: bool)
    ensures
        res == distinct_keys(labels@),
{
    let n = labels.len();
    let mut j: usize = 0;
    while j < n
        invariant
            n == labels@.len(),
            j <= n,
            forall|a: int, b: int| 0 <= a < b < j ==> labels@[a].0@ != labels@[b].0@,
        decreases n - j,
    {
        let mut i: usize = 0;
        while i < j
            invariant
                n == labels@.len(),
                i <= j < n,
                forall|a: int, b: int| 0 <= a < b < j ==> labels@[a].0@ != labels@[b].0@,
                forall|a: int| 0 <= a < i ==> labels@[a].0@ != labels@[j as int].0@,
            decreases j - i,
        {
            if labels[i].0 == labels[j].0 {
                return false;
            }
            i = i + 1;
        }
        j = j + 1;
    }
    true
}

/// Whether a reply carries the kind of body that was asked for.
pub fn reply_fits(r: &Reply, x: Expect) -> (res: bool)
    ensures
        res == fits(*r, x),
{
    match r {
        Reply::Failed(_) => true,
        Reply::Answered(_, p) => match p {
            Payload::Empty => x == Expect::Empty,
            Payload::Container(c) => x == Expect::Container && match c {
                Ok(ci) => labels_distinct(&ci.labels),
                Err(_) => true,
            },
            Payload::Containers(_) => x == Expect::Containers,
            Payload::ExecCreated(_) => x == Expect::ExecCreated,
            Payload::Exec(_) => x == Expect::Exec,
        },
    }
}

/// Whether the ID's first 12 bytes can be cut out of it.
pub fn short_id_is_cuttable(id: &str) -> (res: bool)
    ensures
        res == short_id_cuttable(id@),
{
    let n = id.as_bytes().len();
    let m = if n < 12 { n } else { 12 };
    id.is_char_boundary(m)
}

/// Whether the apply, in state `s`, can take event `e` (see `accepts`).
pub fn accepts_event(s: &ApplyState, e: &Event) -> (res: bool)
    ensures
        res == accepts(*s, *e),
{
    match s {
        ApplyState::Start => match e {
            Event::Started(_) => true,
            _ => false,
        },
        ApplyState::InspectingSelf | ApplyState::InspectingTarget { .. } | ApplyState::WaitInspect {
            ..
        } => match e {
            Event::Replied(r) => reply_fits(r, Expect::Container),
            _ => false,
        },
        ApplyState::Listing { .. } => match e {
            Event::Replied(r) => reply_fits(r, Expect::Containers),
            _ => false,
        },
        ApplyState::CreatingExec { .. } => match e {
            Event::Replied(r) => reply_fits(r, Expect::ExecCreated),
            _ => false,
        },
        ApplyState::StartingExec { .. } | ApplyState::Restarting { .. } => match e {
            Event::Replied(r) => reply_fits(r, Expect::Empty),
            _ => false,
        },
        ApplyState::InspectingExec { .. } => match e {
            Event::Replied(r) => reply_fits(r, Expect::Exec),
            _ => false,
        },
        ApplyState::WaitStart { .. } => match e {
            Event::Clock(t) => *t <= u64::MAX - WAIT_MILLIS,
            _ => false,
        },
        ApplyState::WaitCheck { target, deadline } => match e {
            Event::Clock(t) => *t < *deadline || short_id_is_cuttable(target.id.as_str()),
            _ => false,
        },
        ApplyState::WaitSleep { .. } => match e {
            Event::Slept => true,
            _ => false,
        },
        ApplyState::Done => false,
    }
}

fn finish_err(m: String) -> (res: (ApplyState, Action))
    ensures
        fails_with(res.0, res.1, m@),
{
    (ApplyState::Done, Action::Finish(Err(m)))
}

/// Takes one step of an apply (see `steps_to`).
pub fn apply(state: ApplyState, event: Event) -> (res: (ApplyState, Action))
    requires
        accepts(state, event),
    ensures
        steps_to(state, event, res.0, res.1),
{
    match state {
        ApplyState::Start => match event {
            Event::Started(None) => finish_err("HOSTNAME is unavailable".to_owned()),
            Event::Started(Some(h)) => {
                let c = inspect_container(h.as_str());
                (ApplyState::InspectingSelf, Action::Call(c, Expect::Container))
            },
            _ => {
                assert(false);
                (ApplyState::Done, Action::ReadClock)
            },
        },
        ApplyState::InspectingSelf => match event {
            Event::Replied(r) => match container_reply(r) {
                Err(m) => finish_err(m),
                Ok(c) => match project_of(&c) {
                    Err(m) => finish_err(m),
                    Ok(p) => {
                        let call = list_request(p.as_str());
                        (ApplyState::Listing { project: p }, Action::Call(call, Expect::Containers))
                    },
                },
            },
            _ => {
                assert(false);
                (ApplyState::Done, Action::ReadClock)
            },
        },
        ApplyState::Listing { project } => match event {
            Event::Replied(r) => match containers_reply(r) {
                Err(m) => finish_err(m),
                Ok(l) => match discovered_target(l, project) {
                    Err(m) => finish_err(m),
                    Ok(target) => {
                        let call = inspect_container(target.id.as_str());
                        (ApplyState::InspectingTarget { target }, Action::Call(call, Expect::Container))
                    },
                },
            },
            _ => {
                assert(false);
                (ApplyState::Done, Action::ReadClock)
            },
        },
        ApplyState::InspectingTarget { target } => match event {
            Event::Replied(r) => match container_reply(r) {
                Err(m) => finish_err(m),
                Ok(c) => if c.running && !c.restarting {
                    let call = exec_create_request(target.id.as_str());
                    (
                        ApplyState::CreatingExec { target, stage: Stage::PreRestart },
                        Action::Call(call, Expect::ExecCreated),
                    )
                } else {
                    let call = restart_request(target.id.as_str());
                    (ApplyState::Restarting { target }, Action::Call(call, Expect::Empty))
                },
            },
            _ => {
                assert(false);
                (ApplyState::Done, Action::ReadClock)
            },
        },
        ApplyState::CreatingExec { target, stage } => match event {
            Event::Replied(r) => match exec_created_reply(r) {
                Err(m) => finish_err(stage_prefixed(stage, m.as_str())),
                Ok(exec_id) => {
                    let call = exec_start_request(exec_id.as_str());
                    (
                        ApplyState::StartingExec { target, stage, exec_id },
                        Action::Call(call, Expect::Empty),
                    )
                },
            },
            _ => {
                assert(false);
                (ApplyState::Done, Action::ReadClock)
            },
        },
        ApplyState::StartingExec { target, stage, exec_id } => match event {
            Event::Replied(r) => match exec_started_reply(r) {
                Err(m) => finish_err(stage_prefixed(stage, m.as_str())),
                Ok(_) => {
                    let call = exec_inspect_request(exec_id.as_str());
                    (
                        ApplyState::InspectingExec { target, stage, exec_id },
                        Action::Call(call, Expect::Exec),
                    )
                },
            },
            _ => {
                assert(false);
                (ApplyState::Done, Action::ReadClock)
            },
        },
        ApplyState::InspectingExec { target, stage, exec_id } => match event {
            Event::Replied(r) => match exec_inspect_reply(r) {
                Err(m) => finish_err(stage_prefixed(stage, m.as_str())),
                Ok(_) => match stage {
                    Stage::PreRestart => {
                        let call = restart_request(target.id.as_str());
                        (ApplyState::Restarting { target }, Action::Call(call, Expect::Empty))
                    },
                    Stage::PostRestart => {
                        let message = success_text(&target);
                        (ApplyState::Done, Action::Finish(Ok(message)))
                    },
                },
            },
            _ => {
                assert(false);
                (ApplyState::Done, Action::ReadClock)
            },
        },
        ApplyState::Restarting { target } => match event {
            Event::Replied(r) => match restart(r) {
                Err(m) => finish_err(prefixed("restart discovered container: ", m.as_str())),
                Ok(_) => (ApplyState::WaitStart { target }, Action::ReadClock),
            },
            _ => {
                assert(false);
                (ApplyState::Done, Action::ReadClock)
            },
        },
        ApplyState::WaitStart { target } => match event {
            Event::Clock(t) => (ApplyState::WaitCheck { target, deadline: t + WAIT_MILLIS }, Action::ReadClock),
            _ => {
                assert(false);
                (ApplyState::Done, Action::ReadClock)
            },
        },
        ApplyState::WaitCheck { target, deadline } => match event {
            Event::Clock(t) => if t < deadline {
                let call = inspect_container(target.id.as_str());
                (ApplyState::WaitInspect { target, deadline }, Action::Call(call, Expect::Container))
            } else {
                finish_err(wait_timeout_message(target.id.as_str()))
            },
            _ => {
                assert(false);
                (ApplyState::Done, Action::ReadClock)
            },
        },
        ApplyState::WaitInspect { target, deadline } => match event {
            Event::Replied(r) => {
                let up = match container_reply(r) {
                    Ok(c) => c.running && !c.restarting,
                    Err(_) => false,
                };
                if up {
                    let call = exec_create_request(target.id.as_str());
                    (
                        ApplyState::CreatingExec { target, stage: Stage::PostRestart },
                        Action::Call(call, Expect::ExecCreated),
                    )
                } else {
                    (ApplyState::WaitSleep { target, deadline }, Action::Sleep(POLL_MILLIS))
                }
            },
            _ => {
                assert(false);
                (ApplyState::Done, Action::ReadClock)
            },
        },
        ApplyState::WaitSleep { target, deadline } => match event {
            Event::Slept => (ApplyState::WaitCheck { target, deadline }, Action::ReadClock),
            _ => {
                assert(false);
                (ApplyState::Done, Action::ReadClock)
            },
        },
        ApplyState::Done => {
            assert(false);
            (ApplyState::Done, Action::ReadClock)
        },
    }
}


// ---------------------------------------------------------------------------
// Laws of the apply procedure
// ---------------------------------------------------------------------------

/// The reply that an event carries, if any.
pub open spec fn reply_of(e: Event) -> Option<Reply> {
    match e {
        Event::Replied(r) => Some(r),
        _ => None,
    }
}

/// The clock reading that an event carries, if any.
pub open spec fn clock_of(e: Event) -> Option<u64> {
    match e {
        Event::Clock(t) => Some(t),
        _ => None,
    }
}

/// The deadline of a waiting state.
pub open spec fn deadline_of(s: ApplyState) -> Option<u64> {
    match s {
        ApplyState::WaitCheck { deadline, .. } => Some(deadline),
        ApplyState::WaitInspect { deadline, .. } => Some(deadline),
        ApplyState::WaitSleep { deadline, .. } => Some(deadline),
        _ => None,
    }
}

/// The stage of a configuration-test state.
pub open spec fn stage_of(s: ApplyState) -> Option<Stage> {
    match s {
        ApplyState::CreatingExec { stage, .. } => Some(stage),
        ApplyState::StartingExec { stage, .. } => Some(stage),
        ApplyState::InspectingExec { stage, .. } => Some(stage),
        _ => None,
    }
}

/// The inspection in the reply shows the container running and not restarting.
pub open spec fn seen_up(r: Reply) -> bool {
    match container_outcome(r) {
        Ok(c) => c.running && !c.restarting,
        Err(_) => false,
    }
}

/// The inspection in the reply succeeded and shows the container not up.
pub open spec fn seen_down(r: Reply) -> bool {
    match container_outcome(r) {
        Ok(c) => !(c.running && !c.restarting),
        Err(_) => false,
    }
}

/// The list in the reply holds exactly one container.
pub open spec fn single_match(r: Reply) -> bool {
    match containers_outcome(r) {
        Ok(l) => l.len() == 1,
        Err(_) => false,
    }
}

/// A container is restarted only when it was found not running (or
/// restarting), or after its configuration test passed before the restart.
pub proof fn restart_only_after_passed_test(s: ApplyState, e: Event, s2: ApplyState, a: Action)
    requires
        steps_to(s, e, s2, a),
        s2 is Restarting,
    ensures
        reply_of(e) is Some,
        (s is InspectingTarget && seen_down(reply_of(e).unwrap())) || (s is InspectingExec
            && stage_of(s) == Some(Stage::PreRestart) && exec_inspect_outcome(reply_of(e).unwrap()) is Ok),
{
}

/// An apply succeeds only on the step that sees the configuration test after
/// the restart pass.
pub proof fn success_only_after_post_check(s: ApplyState, e: Event, s2: ApplyState, a: Action)
    requires
        steps_to(s, e, s2, a),
        a matches Action::Finish(Ok(_)),
    ensures
        s is InspectingExec,
        stage_of(s) == Some(Stage::PostRestart),
        reply_of(e) is Some,
        exec_inspect_outcome(reply_of(e).unwrap()) is Ok,
{
}

/// The configuration test after the restart starts only once the container
/// has been seen running and not restarting.
pub proof fn post_check_only_when_running(s: ApplyState, e: Event, s2: ApplyState, a: Action)
    requires
        steps_to(s, e, s2, a),
        s2 is CreatingExec,
        stage_of(s2) == Some(Stage::PostRestart),
    ensures
        s is WaitInspect,
        reply_of(e) is Some,
        seen_up(reply_of(e).unwrap()),
{
}

/// A container becomes the target only when the list of the project's
/// containers with the Xray role holds exactly one container.
pub proof fn target_is_unique(s: ApplyState, e: Event, s2: ApplyState, a: Action)
    requires
        steps_to(s, e, s2, a),
        s2 is InspectingTarget,
    ensures
        s is Listing,
        reply_of(e) is Some,
        single_match(reply_of(e).unwrap()),
{
}

/// An apply ends exactly when it reports its outcome.
pub proof fn finish_iff_done(s: ApplyState, e: Event, s2: ApplyState, a: Action)
    requires
        steps_to(s, e, s2, a),
    ensures
        s2 is Done <==> a is Finish,
{
}

/// The restarted container is inspected only before the deadline; the
/// deadline lies 30 seconds after the first clock reading that follows a
/// successful restart, and stays fixed while the controller waits.
pub proof fn wait_respects_deadline(s: ApplyState, e: Event, s2: ApplyState, a: Action)
    requires
        steps_to(s, e, s2, a),
    ensures
        s is WaitCheck && s2 is WaitInspect ==> clock_of(e) is Some && clock_of(e).unwrap()
            < deadline_of(s2).unwrap(),
        s is WaitStart ==> clock_of(e) is Some && s2 is WaitCheck && deadline_of(s2).unwrap()
            == clock_of(e).unwrap() + WAIT_MILLIS,
        deadline_of(s) is Some && deadline_of(s2) is Some ==> deadline_of(s2) == deadline_of(s),
        s2 is WaitStart ==> s is Restarting && reply_of(e) is Some && restart_outcome(
            reply_of(e).unwrap(),
        ) is Ok,
{
}


/// The states after a restart: waiting for the container, and the
/// configuration test that follows.
pub open spec fn after_restart(s: ApplyState) -> bool {
    ||| s is WaitStart
    ||| s is WaitCheck
    ||| s is WaitInspect
    ||| s is WaitSleep
    ||| stage_of(s) == Some(Stage::PostRestart)
}

/// A run of an apply: from `Start`, each state steps on its event to the next.
pub open spec fn is_run(states: Seq<ApplyState>, events: Seq<Event>, actions: Seq<Action>) -> bool {
    &&& states.len() == events.len() + 1
    &&& actions.len() == events.len()
    &&& states[0] is Start
    &&& forall|i: int|
        0 <= i < events.len() ==> #[trigger] steps_to(states[i], events[i], states[i + 1], actions[i])
}

/// The step at `i` restarted the container successfully.
pub open spec fn restarted_at(states: Seq<ApplyState>, events: Seq<Event>, i: int) -> bool {
    &&& states[i] is Restarting
    &&& reply_of(events[i]) is Some
    &&& restart_outcome(reply_of(events[i]).unwrap()) is Ok
}

proof fn lemma_after_restart_step(s: ApplyState, e: Event, s2: ApplyState, a: Action)
    requires
        steps_to(s, e, s2, a),
        after_restart(s2),
    ensures
        after_restart(s) || (s is Restarting && reply_of(e) is Some && restart_outcome(
            reply_of(e).unwrap(),
        ) is Ok),
{
}

proof fn lemma_after_restart_run(
    states: Seq<ApplyState>,
    events: Seq<Event>,
    actions: Seq<Action>,
    k: int,
)
    requires
        is_run(states, events, actions),
        0 <= k < states.len(),
        after_restart(states[k]),
    ensures
        exists|i: int| 0 <= i < k && restarted_at(states, events, i),
    decreases k,
{
    if k > 0 {
        let j = k - 1;
        assert(steps_to(states[j], events[j], states[j + 1], actions[j]));
        assert(j + 1 == k);
        lemma_after_restart_step(states[k - 1], events[k - 1], states[k], actions[k - 1]);
        if after_restart(states[k - 1]) {
            lemma_after_restart_run(states, events, actions, k - 1);
        } else {
            assert(restarted_at(states, events, k - 1));
        }
    }
}

/// Over a whole run: an apply that reports success restarted the container
/// successfully at an earlier step, and its last step saw the configuration
/// test after the restart pass.
pub proof fn success_implies_restart_and_post_check(
    states: Seq<ApplyState>,
    events: Seq<Event>,
    actions: Seq<Action>,
)
    requires
        is_run(states, events, actions),
        events.len() > 0,
        actions.last() matches Action::Finish(Ok(_)),
    ensures
        exists|i: int| 0 <= i < events.len() - 1 && restarted_at(states, events, i),
        stage_of(states[events.len() - 1]) == Some(Stage::PostRestart),
        exec_inspect_outcome(reply_of(events.last()).unwrap()) is Ok,
{
    let k = events.len() - 1;
    assert(steps_to(states[k], events[k], states[k + 1], actions[k]));
    success_only_after_post_check(states[k], events[k], states[k + 1], actions[k]);
    lemma_after_restart_run(states, events, actions, k);
}

/// The target that a state carries, once discovered.
pub open spec fn target_of(s: ApplyState) -> Option<Target> {
    match s {
        ApplyState::InspectingTarget { target } => Some(target),
        ApplyState::CreatingExec { target, .. } => Some(target),
        ApplyState::StartingExec { target, .. } => Some(target),
        ApplyState::InspectingExec { target, .. } => Some(target),
        ApplyState::Restarting { target } => Some(target),
        ApplyState::WaitStart { target } => Some(target),
        ApplyState::WaitCheck { target, .. } => Some(target),
        ApplyState::WaitInspect { target, .. } => Some(target),
        ApplyState::WaitSleep { target, .. } => Some(target),
        _ => None,
    }
}

/// The ID of the exec instance that a state carries.
pub open spec fn exec_of(s: ApplyState) -> Option<Seq<char>> {
    match s {
        ApplyState::StartingExec { exec_id, .. } => Some(exec_id@),
        ApplyState::InspectingExec { exec_id, .. } => Some(exec_id@),
        _ => None,
    }
}

/// The path of the request that an action sends.
pub open spec fn call_path(a: Action) -> Option<Seq<char>> {
    match a {
        Action::Call(c, _) => Some(c.path@),
        _ => None,
    }
}

/// Once the target is discovered, every request addresses it: the container
/// by its ID, or the exec instance created in it.
pub proof fn calls_address_the_target(s: ApplyState, e: Event, s2: ApplyState, a: Action)
    requires
        steps_to(s, e, s2, a),
        target_of(s2) is Some,
        call_path(a) is Some,
    ensures
        ({
            let id = target_of(s2).unwrap().id@;
            let path = call_path(a).unwrap();
            ||| path == container_path(id)
            ||| path == exec_create_path(id)
            ||| path == restart_path(id)
            ||| exec_of(s2) is Some && path == exec_start_path(exec_of(s2).unwrap())
            ||| exec_of(s2) is Some && path == exec_inspect_path(exec_of(s2).unwrap())
        }),
{
}

/// A step keeps the target, unless it ends the apply.
pub proof fn target_kept(s: ApplyState, e: Event, s2: ApplyState, a: Action)
    requires
        steps_to(s, e, s2, a),
        target_of(s) is Some,
    ensures
        s2 is Done || target_of(s2) == target_of(s),
{
}

/// Over a whole run, the target never changes once discovered: any two
/// states that carry a target carry the same one.
pub proof fn target_fixed_in_run(
    states: Seq<ApplyState>,
    events: Seq<Event>,
    actions: Seq<Action>,
    j: int,
    k: int,
)
    requires
        is_run(states, events, actions),
        0 <= j <= k < states.len(),
        target_of(states[j]) is Some,
        target_of(states[k]) is Some,
    ensures
        target_of(states[k]) == target_of(states[j]),
    decreases k - j,
{
    if j < k {
        assert(steps_to(states[j], events[j], states[j + 1], actions[j]));
        target_kept(states[j], events[j], states[j + 1], actions[j]);
        if states[j + 1] is Done {
            if j + 1 < k {
                let m = j + 1;
                assert(steps_to(states[m], events[m], states[m + 1], actions[m]));
            }
        } else {
            target_fixed_in_run(states, events, actions, j + 1, k);
        }
    }
}

/// The restart and what may follow it.
pub open spec fn past_restart(s: ApplyState) -> bool {
    s is Restarting || after_restart(s) || s is Done
}

proof fn lemma_past_restart_step(s: ApplyState, e: Event, s2: ApplyState, a: Action)
    requires
        steps_to(s, e, s2, a),
        past_restart(s),
    ensures
        past_restart(s2),
        !(s2 is Restarting),
{
}

proof fn lemma_past_restart_run(
    states: Seq<ApplyState>,
    events: Seq<Event>,
    actions: Seq<Action>,
    i: int,
    k: int,
)
    requires
        is_run(states, events, actions),
        0 <= i < k < states.len(),
        states[i] is Restarting,
    ensures
        past_restart(states[k]),
        !(states[k] is Restarting),
    decreases k - i,
{
    let m = k - 1;
    assert(steps_to(states[m], events[m], states[m + 1], actions[m]));
    if m > i {
        lemma_past_restart_run(states, events, actions, i, m);
    }
    lemma_past_restart_step(states[m], events[m], states[m + 1], actions[m]);
}

/// Over a whole run, the container is restarted at most once: at most one
/// step enters the restart.
pub proof fn restart_at_most_once(
    states: Seq<ApplyState>,
    events: Seq<Event>,
    actions: Seq<Action>,
    i: int,
    j: int,
)
    requires
        is_run(states, events, actions),
        0 <= i < events.len(),
        0 <= j < events.len(),
        states[i + 1] is Restarting,
        states[j + 1] is Restarting,
    ensures
        i == j,
{
    if i < j {
        lemma_past_restart_run(states, events, actions, i + 1, j + 1);
    } else if j < i {
        lemma_past_restart_run(states, events, actions, j + 1, i + 1);
    }
}

// ---------------------------------------------------------------------------
// When an apply goes on: laws over the replies themselves
// ---------------------------------------------------------------------------

/// The body of a reply that was answered with the given status.
pub open spec fn answered_with(r: Reply, status: u16) -> Option<Payload> {
    match r {
        Reply::Answered(resp, p) => if resp.status == status {
            Some(p)
        } else {
            None
        },
        Reply::Failed(_) => None,
    }
}

/// The first label keyed as the Compose project has a non-empty value.
pub open spec fn names_a_project(labels: Seq<(String, String)>) -> bool {
    exists|i: int|
        0 <= i < labels.len() && (#[trigger] labels[i]).0@ == "com.docker.compose.project"@
            && labels[i].1@.len() > 0 && forall|j: int|
            0 <= j < i ==> labels[j].0@ != "com.docker.compose.project"@
}

/// The container was reported running and not restarting.
pub open spec fn reported_up(c: ContainerInspect) -> bool {
    c.running && !c.restarting
}

/// What a reply must show for the apply to go on from state `s`: the status
/// that the request succeeds with, a decoded body, and whatever that body must
/// say (a project label; exactly one listed container; a non-empty exec ID;
/// a finished test with exit code 0).
pub open spec fn reply_succeeds(s: ApplyState, r: Reply) -> bool {
    match s {
        ApplyState::InspectingSelf => match answered_with(r, 200) {
            Some(Payload::Container(Ok(c))) => names_a_project(c.labels@),
            _ => false,
        },
        ApplyState::Listing { .. } => match answered_with(r, 200) {
            Some(Payload::Containers(Ok(l))) => l@.len() == 1,
            _ => false,
        },
        ApplyState::InspectingTarget { .. } => match answered_with(r, 200) {
            Some(Payload::Container(Ok(_))) => true,
            _ => false,
        },
        ApplyState::CreatingExec { .. } => match answered_with(r, 201) {
            Some(Payload::ExecCreated(Ok(id))) => id@.len() > 0,
            _ => false,
        },
        ApplyState::StartingExec { .. } => answered_with(r, 200) is Some,
        ApplyState::InspectingExec { .. } => match answered_with(r, 200) {
            Some(Payload::Exec(Ok(x))) => !x.running && x.exit_code == 0,
            _ => false,
        },
        ApplyState::Restarting { .. } => answered_with(r, 204) is Some,
        _ => false,
    }
}

/// The action ends the apply with an error.
pub open spec fn ends_in_error(a: Action) -> bool {
    match a {
        Action::Finish(Err(_)) => true,
        _ => false,
    }
}

proof fn lemma_project_label(labels: Seq<(String, String)>)
    ensures
        names_a_project(labels) <==> (label_value(labels) matches Some(v) && v.len() > 0),
    decreases labels.len(),
{
    reveal_strlit("com.docker.compose.project");
    if labels.len() > 0 {
        let rest = labels.drop_first();
        lemma_project_label(rest);
        if labels[0].0@ == compose_project_label() {
            if labels[0].1@.len() == 0 && names_a_project(labels) {
                let i = choose|i: int|
                    0 <= i < labels.len() && (#[trigger] labels[i]).0@ == "com.docker.compose.project"@
                        && labels[i].1@.len() > 0 && forall|j: int|
                        0 <= j < i ==> labels[j].0@ != "com.docker.compose.project"@;
                if i > 0 {
                    assert(labels[0].0@ != "com.docker.compose.project"@);
                }
            }
        } else {
            if names_a_project(labels) {
                let i = choose|i: int|
                    0 <= i < labels.len() && (#[trigger] labels[i]).0@ == "com.docker.compose.project"@
                        && labels[i].1@.len() > 0 && forall|j: int|
                        0 <= j < i ==> labels[j].0@ != "com.docker.compose.project"@;
                assert(i > 0);
                assert(rest[i - 1] == labels[i]);
                assert forall|j: int| 0 <= j < i - 1 implies rest[j].0@ != "com.docker.compose.project"@ by {
                    assert(rest[j] == labels[j + 1]);
                }
                assert(names_a_project(rest));
            }
            if names_a_project(rest) {
                let i = choose|i: int|
                    0 <= i < rest.len() && (#[trigger] rest[i]).0@ == "com.docker.compose.project"@
                        && rest[i].1@.len() > 0 && forall|j: int|
                        0 <= j < i ==> rest[j].0@ != "com.docker.compose.project"@;
                assert(labels[i + 1] == rest[i]);
                assert forall|j: int| 0 <= j < i + 1 implies labels[j].0@ != "com.docker.compose.project"@ by {
                    if j > 0 {
                        assert(labels[j] == rest[j - 1]);
                    }
                }
                assert(names_a_project(labels));
            }
        }
    }
}

/// On every reply that it waits for (outside the wait for the restarted
/// container), the apply fails exactly when the reply does not succeed as
/// the request requires: a transport failure, an unexpected status, an
/// undecodable body, a missing project label, a list that does not hold
/// exactly one container, an empty exec ID, a test still running or one
/// with a non-zero exit code all end it with an error, and nothing else does.
pub proof fn apply_goes_on_exactly_on_success(s: ApplyState, e: Event, s2: ApplyState, a: Action)
    requires
        steps_to(s, e, s2, a),
        accepts(s, e),
        reply_of(e) is Some,
        !(s is WaitInspect),
    ensures
        ends_in_error(a) <==> !reply_succeeds(s, reply_of(e).unwrap()),
{
    if s is InspectingSelf {
        let r = reply_of(e).unwrap();
        if let Some(Payload::Container(Ok(c))) = answered_with(r, 200) {
            lemma_project_label(c.labels@);
        }
    }
}

/// The test of the fixed configuration passes only when its exec instance
/// was reported, with status 200, as finished with exit code 0.
pub proof fn configuration_test_passes_only_on_exit_zero(r: Reply)
    requires
        fits(r, Expect::Exec),
    ensures
        exec_inspect_outcome(r) is Ok <==> (match answered_with(r, 200) {
            Some(Payload::Exec(Ok(x))) => !x.running && x.exit_code == 0,
            _ => false,
        }),
{
}

/// Out of the inspection of the target, the apply goes on only when the
/// inspection succeeded: to the configuration test when the container was
/// reported up, to the restart otherwise.
pub proof fn target_inspection_decides(s: ApplyState, e: Event, s2: ApplyState, a: Action)
    requires
        steps_to(s, e, s2, a),
        s is InspectingTarget,
        !(s2 is Done),
    ensures
        reply_of(e) is Some,
        answered_with(reply_of(e).unwrap(), 200) matches Some(Payload::Container(Ok(c))) && (s2 is CreatingExec
            <==> reported_up(c)) && (s2 is Restarting <==> !reported_up(c)),
        s2 is CreatingExec ==> stage_of(s2) == Some(Stage::PreRestart),
{
}

/// While waiting for the restarted container, the test after the restart
/// starts exactly when an inspection with status 200 reports it up; any
/// other reply, failure included, only pauses the wait.
pub proof fn wait_goes_on_exactly_when_up(s: ApplyState, e: Event, s2: ApplyState, a: Action)
    requires
        steps_to(s, e, s2, a),
        s is WaitInspect,
    ensures
        reply_of(e) is Some,
        s2 is CreatingExec <==> (match answered_with(reply_of(e).unwrap(), 200) {
            Some(Payload::Container(Ok(c))) => reported_up(c),
            _ => false,
        }),
        !(s2 is CreatingExec) ==> s2 is WaitSleep && a == Action::Sleep(POLL_MILLIS),
{
}

/// A passed configuration test leads to the restart before it and to the
/// report of success after it; a failed one ends the apply with an error.
pub proof fn test_outcome_decides(s: ApplyState, e: Event, s2: ApplyState, a: Action)
    requires
        steps_to(s, e, s2, a),
        s is InspectingExec,
    ensures
        reply_of(e) is Some,
        reply_succeeds(s, reply_of(e).unwrap()) && stage_of(s) == Some(Stage::PreRestart) ==> s2 is Restarting,
        reply_succeeds(s, reply_of(e).unwrap()) && stage_of(s) == Some(Stage::PostRestart) ==> (a matches Action::Finish(
            Ok(_),
        )),
        !reply_succeeds(s, reply_of(e).unwrap()) ==> s2 is Done && ends_in_error(a),
{
}

} // verus!
