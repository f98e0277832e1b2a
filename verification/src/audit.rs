//! The record of what the daemon did for its clients: one line of JSON for each
//! event.
use crate::clock;
use crate::digest;
use crate::json::json_string;
use crate::json;
use crate::session::SourceView;
use crate::shutai;
use crate::shutai::{derive_session_source, Shutai};
use crate::text;
use crate::wire::{Request, Response};
use vstd::prelude::*;
use vstd::string::StringExecFns;

verus! {

/// One event.
#[derive(Debug, PartialEq, Eq)]
pub enum AuditEvent {
    SessionCreate { ts_ms: u64, sid: String, name: String, shell: String, source: String },
    SessionKill { ts_ms: u64, sid: String },
    SetInputPolicy { ts_ms: u64, pid: String, policy: String },
    StartRecording { ts_ms: u64, pid: String },
    StopRecording { ts_ms: u64, pid: String },
    /// The configuration itself is not kept, only its digest.
    SetConfig { ts_ms: u64, config_hash: String },
}

/// The contents of an [`AuditEvent`].
#[verifier::ext_equal]
pub enum AuditEventView {
    SessionCreate {
        ts_ms: u64,
        sid: Seq<char>,
        name: Seq<char>,
        shell: Seq<char>,
        source: Seq<char>,
    },
    SessionKill { ts_ms: u64, sid: Seq<char> },
    SetInputPolicy { ts_ms: u64, pid: Seq<char>, policy: Seq<char> },
    StartRecording { ts_ms: u64, pid: Seq<char> },
    StopRecording { ts_ms: u64, pid: Seq<char> },
    SetConfig { ts_ms: u64, config_hash: Seq<char> },
}

impl View for AuditEvent {
    type V = AuditEventView;

    open spec fn view(&self) -> AuditEventView {
        match self {
            AuditEvent::SessionCreate { ts_ms, sid, name, shell, source } => {
                AuditEventView::SessionCreate {
                    ts_ms: *ts_ms,
                    sid: sid@,
                    name: name@,
                    shell: shell@,
                    source: source@,
                }
            },
            AuditEvent::SessionKill { ts_ms, sid } => AuditEventView::SessionKill {
                ts_ms: *ts_ms,
                sid: sid@,
            },
            AuditEvent::SetInputPolicy { ts_ms, pid, policy } => AuditEventView::SetInputPolicy {
                ts_ms: *ts_ms,
                pid: pid@,
                policy: policy@,
            },
            AuditEvent::StartRecording { ts_ms, pid } => AuditEventView::StartRecording {
                ts_ms: *ts_ms,
                pid: pid@,
            },
            AuditEvent::StopRecording { ts_ms, pid } => AuditEventView::StopRecording {
                ts_ms: *ts_ms,
                pid: pid@,
            },
            AuditEvent::SetConfig { ts_ms, config_hash } => AuditEventView::SetConfig {
                ts_ms: *ts_ms,
                config_hash: config_hash@,
            },
        }
    }
}

/// The digest of a text in hexadecimal.
pub open spec fn text_digest(s: Seq<char>) -> Seq<char> {
    digest::hex_of_bytes(digest::blake3_digest(vstd::utf8::encode_utf8(s))@)
}

/// The digest of a text in hexadecimal.
pub fn hash_str(s: &str) -> (r: String)
    ensures
        r@ == text_digest(s@),
{
    let bytes = vstd::slice::slice_to_vec(s.as_bytes());
    digest::hex_of_digest(&digest::digest(&bytes))
}

/// The line starts with its kind.
pub open spec fn json_head(kind: Seq<char>, ts_ms: u64) -> Seq<char> {
    "{\"kind\":\""@ + kind + "\",\"ts_ms\":"@ + text::decimal(ts_ms as nat)
}

/// One more member of the line.
pub open spec fn json_member(name: Seq<char>, value: Seq<char>) -> Seq<char> {
    ",\""@ + name + "\":"@ + json::quoted(value)
}

impl AuditEventView {
    /// The line of JSON that keeps the event.
    pub open spec fn json(self) -> Seq<char> {
        match self {
            AuditEventView::SessionCreate { ts_ms, sid, name, shell, source } => json_head(
                "session_create"@,
                ts_ms,
            ) + json_member("sid"@, sid) + json_member("name"@, name) + json_member(
                "shell"@,
                shell,
            ) + json_member("source"@, source) + "}"@,
            AuditEventView::SessionKill { ts_ms, sid } => json_head("session_kill"@, ts_ms)
                + json_member("sid"@, sid) + "}"@,
            AuditEventView::SetInputPolicy { ts_ms, pid, policy } => json_head(
                "set_input_policy"@,
                ts_ms,
            ) + json_member("pid"@, pid) + json_member("policy"@, policy) + "}"@,
            AuditEventView::StartRecording { ts_ms, pid } => json_head("start_recording"@, ts_ms)
                + json_member("pid"@, pid) + "}"@,
            AuditEventView::StopRecording { ts_ms, pid } => json_head("stop_recording"@, ts_ms)
                + json_member("pid"@, pid) + "}"@,
            AuditEventView::SetConfig { ts_ms, config_hash } => json_head("set_config"@, ts_ms)
                + json_member("config_hash"@, config_hash) + "}"@,
        }
    }
}

fn start(kind: &str, ts_ms: u64) -> (r: String)
    ensures
        r@ == json_head(kind@, ts_ms),
{
    let mut s = String::from_str("{\"kind\":\"");
    s.append(kind);
    s.append("\",\"ts_ms\":");
    text::push_decimal(&mut s, ts_ms as u128);
    s
}

fn member(out: &mut String, name: &str, value: &String)
    ensures
        final(out)@ == old(out)@ + json_member(name@, value@),
{
    let ghost before = out@;
    let quoted = json_string(value.as_str());
    out.append(",\"");
    out.append(name);
    out.append("\":");
    out.append(quoted.as_str());
    assert(out@ =~= before + json_member(name@, value@));
}

impl Clone for AuditEvent {
    fn clone(&self) -> (r: AuditEvent)
        ensures
            r@ == self@,
    {
        match self {
            AuditEvent::SessionCreate { ts_ms, sid, name, shell, source } => {
                AuditEvent::SessionCreate {
                    ts_ms: *ts_ms,
                    sid: sid.clone(),
                    name: name.clone(),
                    shell: shell.clone(),
                    source: source.clone(),
                }
            },
            AuditEvent::SessionKill { ts_ms, sid } => AuditEvent::SessionKill {
                ts_ms: *ts_ms,
                sid: sid.clone(),
            },
            AuditEvent::SetInputPolicy { ts_ms, pid, policy } => AuditEvent::SetInputPolicy {
                ts_ms: *ts_ms,
                pid: pid.clone(),
                policy: policy.clone(),
            },
            AuditEvent::StartRecording { ts_ms, pid } => AuditEvent::StartRecording {
                ts_ms: *ts_ms,
                pid: pid.clone(),
            },
            AuditEvent::StopRecording { ts_ms, pid } => AuditEvent::StopRecording {
                ts_ms: *ts_ms,
                pid: pid.clone(),
            },
            AuditEvent::SetConfig { ts_ms, config_hash } => AuditEvent::SetConfig {
                ts_ms: *ts_ms,
                config_hash: config_hash.clone(),
            },
        }
    }
}

impl AuditEvent {
    /// The line of JSON that keeps the event, without its end.
    pub fn to_json(&self) -> (r: String)
        ensures
            r@ == self@.json(),
    {
        let mut s = match self {
            AuditEvent::SessionCreate { ts_ms, sid, name, shell, source } => {
                let mut s = start("session_create", *ts_ms);
                member(&mut s, "sid", sid);
                member(&mut s, "name", name);
                member(&mut s, "shell", shell);
                member(&mut s, "source", source);
                s
            },
            AuditEvent::SessionKill { ts_ms, sid } => {
                let mut s = start("session_kill", *ts_ms);
                member(&mut s, "sid", sid);
                s
            },
            AuditEvent::SetInputPolicy { ts_ms, pid, policy } => {
                let mut s = start("set_input_policy", *ts_ms);
                member(&mut s, "pid", pid);
                member(&mut s, "policy", policy);
                s
            },
            AuditEvent::StartRecording { ts_ms, pid } => {
                let mut s = start("start_recording", *ts_ms);
                member(&mut s, "pid", pid);
                s
            },
            AuditEvent::StopRecording { ts_ms, pid } => {
                let mut s = start("stop_recording", *ts_ms);
                member(&mut s, "pid", pid);
                s
            },
            AuditEvent::SetConfig { ts_ms, config_hash } => {
                let mut s = start("set_config", *ts_ms);
                member(&mut s, "config_hash", config_hash);
                s
            },
        };
        s.append("}");
        s
    }

    /// Milliseconds since the Unix epoch, read from the clock.
    pub fn now_ms() -> (r: u64)
        ensures
            exists|t: std::time::SystemTime| r == #[trigger] clock::millis_of(t),
    {
        clock::unix_millis()
    }
}

/// What is recorded of a request that was answered. Only what was carried out
/// is recorded.
pub open spec fn audited(
    req: Request,
    conn: Option<SourceView>,
    resp: Response,
    ts_ms: u64,
) -> Option<AuditEventView> {
    match req {
        Request::NewSession { name, shell, source, .. } => match resp {
            Response::SessionId(sid) => Some(
                AuditEventView::SessionCreate {
                    ts_ms,
                    sid: digest::hex(sid.0 as nat, 16),
                    name: name@,
                    shell: shell@,
                    source: shutai::derived_source(shutai::opt_source(source), conn).label(),
                },
            ),
            _ => None,
        },
        Request::KillSession(id) => if resp is Done {
            Some(AuditEventView::SessionKill { ts_ms, sid: digest::hex(id.0 as nat, 16) })
        } else {
            None
        },
        Request::SetInputPolicy { id, policy } => if resp is Done {
            Some(
                AuditEventView::SetInputPolicy {
                    ts_ms,
                    pid: digest::hex(id.0 as nat, 16),
                    policy: policy.spec_label(),
                },
            )
        } else {
            None
        },
        Request::StartPaneRecording(id) => if resp is Done {
            Some(AuditEventView::StartRecording { ts_ms, pid: digest::hex(id.0 as nat, 16) })
        } else {
            None
        },
        Request::StopPaneRecording(id) => if resp is Done {
            Some(AuditEventView::StopRecording { ts_ms, pid: digest::hex(id.0 as nat, 16) })
        } else {
            None
        },
        Request::SetConfig(yaml) => if resp is Done {
            Some(AuditEventView::SetConfig { ts_ms, config_hash: text_digest(yaml@) })
        } else {
            None
        },
        _ => None,
    }
}

/// The contents of an optional event.
pub open spec fn opt_event(e: Option<AuditEvent>) -> Option<AuditEventView> {
    match e {
        Some(e) => Some(e@),
        None => None,
    }
}

fn was_done(resp: &Response) -> (b: bool)
    ensures
        b == (resp is Done),
{
    match resp {
        Response::Done => true,
        _ => false,
    }
}

fn clone_source(s: &Option<crate::session::SessionSource>) -> (r: Option<
    crate::session::SessionSource,
>)
    ensures
        shutai::opt_source(r) == shutai::opt_source(*s),
{
    match s {
        Some(s) => Some(s.clone()),
        None => None,
    }
}

/// What is recorded of a request that was answered.
pub fn audit_event(req: &Request, actor: Option<&Shutai>, resp: &Response, ts_ms: u64) -> (r:
    Option<AuditEvent>)
    ensures
        opt_event(r) == audited(*req, shutai::conn_source(actor), *resp, ts_ms),
{
    match req {
        Request::NewSession { name, shell, source, .. } => match resp {
            Response::SessionId(sid) => {
                let src = derive_session_source(clone_source(source), actor);
                Some(
                    AuditEvent::SessionCreate {
                        ts_ms,
                        sid: sid.to_string(),
                        name: name.clone(),
                        shell: shell.clone(),
                        source: String::from_str(src.label()),
                    },
                )
            },
            _ => None,
        },
        Request::KillSession(id) => if was_done(resp) {
            Some(AuditEvent::SessionKill { ts_ms, sid: id.to_string() })
        } else {
            None
        },
        Request::SetInputPolicy { id, policy } => if was_done(resp) {
            Some(
                AuditEvent::SetInputPolicy {
                    ts_ms,
                    pid: id.to_string(),
                    policy: String::from_str(policy.label()),
                },
            )
        } else {
            None
        },
        Request::StartPaneRecording(id) => if was_done(resp) {
            Some(AuditEvent::StartRecording { ts_ms, pid: id.to_string() })
        } else {
            None
        },
        Request::StopPaneRecording(id) => if was_done(resp) {
            Some(AuditEvent::StopRecording { ts_ms, pid: id.to_string() })
        } else {
            None
        },
        Request::SetConfig(yaml) => if was_done(resp) {
            Some(AuditEvent::SetConfig { ts_ms, config_hash: hash_str(yaml.as_str()) })
        } else {
            None
        },
        _ => None,
    }
}

/// Whatever its texts hold, an event is kept on one line.
pub proof fn lemma_events_take_one_line(e: AuditEventView)
    ensures
        !e.json().contains('\n'),
{
    reveal_strlit("{\"kind\":\"");
    reveal_strlit("\",\"ts_ms\":");
    reveal_strlit(",\"");
    reveal_strlit("\":");
    reveal_strlit("}");
    reveal_strlit("session_create");
    reveal_strlit("session_kill");
    reveal_strlit("set_input_policy");
    reveal_strlit("start_recording");
    reveal_strlit("stop_recording");
    reveal_strlit("set_config");
    reveal_strlit("sid");
    reveal_strlit("pid");
    reveal_strlit("name");
    reveal_strlit("shell");
    reveal_strlit("source");
    reveal_strlit("policy");
    reveal_strlit("config_hash");
    match e {
        AuditEventView::SessionCreate { ts_ms, sid, name, shell, source } => {
            lemma_head_line("session_create"@, ts_ms);
            lemma_member_line("sid"@, sid);
            lemma_member_line("name"@, name);
            lemma_member_line("shell"@, shell);
            lemma_member_line("source"@, source);
        },
        AuditEventView::SessionKill { ts_ms, sid } => {
            lemma_head_line("session_kill"@, ts_ms);
            lemma_member_line("sid"@, sid);
        },
        AuditEventView::SetInputPolicy { ts_ms, pid, policy } => {
            lemma_head_line("set_input_policy"@, ts_ms);
            lemma_member_line("pid"@, pid);
            lemma_member_line("policy"@, policy);
        },
        AuditEventView::StartRecording { ts_ms, pid } => {
            lemma_head_line("start_recording"@, ts_ms);
            lemma_member_line("pid"@, pid);
        },
        AuditEventView::StopRecording { ts_ms, pid } => {
            lemma_head_line("stop_recording"@, ts_ms);
            lemma_member_line("pid"@, pid);
        },
        AuditEventView::SetConfig { ts_ms, config_hash } => {
            lemma_head_line("set_config"@, ts_ms);
            lemma_member_line("config_hash"@, config_hash);
        },
    }
}

proof fn lemma_head_line(kind: Seq<char>, ts_ms: u64)
    requires
        !kind.contains('\n'),
    ensures
        !json_head(kind, ts_ms).contains('\n'),
{
    reveal_strlit("{\"kind\":\"");
    reveal_strlit("\",\"ts_ms\":");
    text::lemma_decimal_reads_back(ts_ms as nat);
    let d = text::decimal(ts_ms as nat);
    assert forall|i: int| 0 <= i < d.len() implies d[i] != '\n' by {
        assert(text::is_digit(d[i]));
    }
}

proof fn lemma_member_line(name: Seq<char>, value: Seq<char>)
    requires
        !name.contains('\n'),
    ensures
        !json_member(name, value).contains('\n'),
{
    reveal_strlit(",\"");
    reveal_strlit("\":");
    lemma_escaped_line(value);
}

proof fn lemma_escaped_line(s: Seq<char>)
    ensures
        !json::escaped(s).contains('\n'),
    decreases s.len(),
{
    if s.len() > 0 {
        lemma_escaped_line(s.drop_last());
        let c = s.last();
        if (c as u32) < 32 {
            lemma_two_digits_line(c as nat);
        }
    }
}

proof fn lemma_two_digits_line(n: nat)
    ensures
        !digest::hex(n, 2).contains('\n'),
{
    reveal_with_fuel(digest::hex, 3);
}

} // verus!
