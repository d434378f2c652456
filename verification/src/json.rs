//! The JSON documents that the controller writes: string literals, the
//! container-list filter and the bodies of its own replies.

use vstd::prelude::*;
use vstd::string::StringExecFns;

verus! {

/// The lower-case hexadecimal digit of `n < 16`.
pub open spec fn hex_lower_char(n: nat) -> char {
    if n < 10 {
        (0x30 + n) as char
    } else {
        (0x57 + n) as char
    }
}

/// How one character appears inside a JSON string: `"` and `\` are escaped,
/// as are the control characters below U+0020 (by their short escape where
/// JSON has one, else as `\u00XX` in lower-case hexadecimal); every other
/// character stands for itself.
pub open spec fn json_escape(c: char) -> Seq<char> {
    let u = c as u32;
    if c == '"' {
        seq!['\\', '"']
    } else if c == '\\' {
        seq!['\\', '\\']
    } else if u == 0x08 {
        seq!['\\', 'b']
    } else if u == 0x09 {
        seq!['\\', 't']
    } else if u == 0x0A {
        seq!['\\', 'n']
    } else if u == 0x0C {
        seq!['\\', 'f']
    } else if u == 0x0D {
        seq!['\\', 'r']
    } else if u < 0x20 {
        seq!['\\', 'u', '0', '0', hex_lower_char((u / 16) as nat), hex_lower_char((u % 16) as nat)]
    } else {
        seq![c]
    }
}

/// The escaped characters of a text, one after another.
pub open spec fn json_escaped(s: Seq<char>) -> Seq<char>
    decreases s.len(),
{
    if s.len() == 0 {
        Seq::empty()
    } else {
        json_escaped(s.drop_last()) + json_escape(s.last())
    }
}

/// A text written as a JSON string literal.
pub open spec fn json_string(s: Seq<char>) -> Seq<char> {
    seq!['"'] + json_escaped(s) + seq!['"']
}

/// `serde_json::to_string` on a string slice. Its source writes the string in
/// quotes with the escapes of `json_escape` and cannot fail for a string
/// slice, since it writes into memory.
#[verifier::external_body]
fn serde_json_string(s: &str) -> (res: Option<String>)
    ensures
        res is Some,
        res matches Some(t) ==> t@ == json_string(s@),
{
    serde_json::to_string(s).ok()
}

/// Writes `s` as a JSON string literal.
pub fn json_quote(s: &str) -> (res: String)
    ensures
        res@ == json_string(s@),
{
    match serde_json_string(s) {
        Some(t) => t,
        None => {
            assert(false);
            String::new()
        },
    }
}

/// The label that names the Compose project of a container.
pub open spec fn compose_project_label() -> Seq<char> {
    "com.docker.compose.project"@
}

/// The label and value that mark the Xray container within its project.
pub open spec fn role_selector() -> Seq<char> {
    "org.xray.controller.role=core"@
}

/// The container-list filter that selects, by label, the containers of a
/// Compose project that carry the Xray role, as compact JSON.
pub open spec fn filters_json(project: Seq<char>) -> Seq<char> {
    "{\"label\":["@ + json_string(compose_project_label() + "="@ + project) + ","@ + json_string(
        role_selector(),
    ) + "]}"@
}

/// Writes the container-list filter for a Compose project.
pub fn filters_for_project(project: &str) -> (res: String)
    ensures
        res@ == filters_json(project@),
{
    let mut selector = "com.docker.compose.project".to_owned();
    selector.append("=");
    selector.append(project);
    let mut out = "{\"label\":[".to_owned();
    out.append(json_quote(selector.as_str()).as_str());
    out.append(",");
    out.append(json_quote("org.xray.controller.role=core").as_str());
    out.append("]}");
    out
}

/// The body of a reply on the control socket: whether the request succeeded
/// and a message, as compact JSON with its keys in sorted order, and a newline.
pub open spec fn reply_body(ok: bool, message: Seq<char>) -> Seq<char> {
    "{\"message\":"@ + json_string(message) + ",\"ok\":"@ + (if ok {
        "true"@
    } else {
        "false"@
    }) + "}\n"@
}

/// Writes the body of a reply on the control socket.
pub fn reply_body_text(ok: bool, message: &str) -> (res: String)
    ensures
        res@ == reply_body(ok, message@),
{
    let mut out = "{\"message\":".to_owned();
    out.append(json_quote(message).as_str());
    out.append(",\"ok\":");
    if ok {
        out.append("true");
    } else {
        out.append("false");
    }
    out.append("}\n");
    out
}

} // verus!
