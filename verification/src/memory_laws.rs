//! What is kept: the memory of places, the trail of what was done, and the files
//! of recordings.
use crate::audit;
use crate::audit::AuditEventView;
use crate::daemon_state;
use crate::digest;
use crate::governed;
use crate::governed::{ConfigWorkView, LessonView};
use crate::id::SessionId;
use crate::inproc_model::MuxView;
use crate::json;
use crate::praca;
use crate::praca::{PlaceView, PracaView, SessionTheme};
use crate::session::{SourceView, TearSessionView, TearWindowView};
use crate::state_path;
use crate::table;
use crate::text;
use crate::text_laws;
use crate::wire::{Request, Response};
use vstd::prelude::*;

verus! {

/// The record of a created session: where it was made, and in what project, that
/// it was visited once more and when, and no name of its own yet. The records of
/// other sessions stay. A session without a directory is not remembered.
pub proof fn lemma_what_is_remembered_of_a_session(
    p: PracaView,
    id: SessionId,
    dir: Seq<char>,
    project: Option<Seq<char>>,
    now: u64,
    other: u64,
)
    ensures
        p.created(id, None, project, now) == p,
        ({
            let after = p.created(id, Some(dir), project, now);
            let r = after.index[id.0];
            &&& after.index.dom() =~= p.index.dom().insert(id.0)
            &&& r.cwd == dir
            &&& r.last_seen == now
            &&& r.custom_name is None
            &&& project is Some ==> r.place == PlaceView::Project { root: project->0 }
            &&& project is None && id.0 % 2 == 0 ==> r.place == (PlaceView::Adhoc {
                theme: SessionTheme::Frost,
            })
            &&& project is None && id.0 % 2 == 1 ==> r.place == (PlaceView::Adhoc {
                theme: SessionTheme::Brazil,
            })
            &&& !p.index.dom().contains(id.0) ==> r.visits == 1
            &&& p.index.dom().contains(id.0) && p.index[id.0].visits < u32::MAX ==> r.visits
                == p.index[id.0].visits + 1
            &&& p.index.dom().contains(id.0) && p.index[id.0].visits == u32::MAX ==> r.visits
                == u32::MAX
            &&& other != id.0 && p.index.dom().contains(other) ==> after.index[other]
                == p.index[other]
        }),
{
}

/// A session that is named keeps its place, its directory, its visits and its
/// time, the directories lead where they led, and nothing else changes. A session
/// that nothing is remembered of stays so.
pub proof fn lemma_a_name_changes_nothing_else(
    p: PracaView,
    id: SessionId,
    name: Seq<char>,
    other: u64,
)
    ensures
        ({
            let after = p.renamed(id, name);
            &&& after.binding == p.binding
            &&& after.index.dom() =~= p.index.dom()
            &&& p.index.dom().contains(id.0) ==> {
                &&& after.index[id.0].custom_name == Some(name)
                &&& after.index[id.0].place == p.index[id.0].place
                &&& after.index[id.0].cwd == p.index[id.0].cwd
                &&& after.index[id.0].visits == p.index[id.0].visits
                &&& after.index[id.0].last_seen == p.index[id.0].last_seen
            }
            &&& other != id.0 && p.index.dom().contains(other) ==> after.index[other]
                == p.index[other]
        }),
{
}

/// A killed session takes its own record with it and no other.
pub proof fn lemma_a_killed_session_takes_only_its_record(
    p: PracaView,
    id: SessionId,
    other: u64,
)
    ensures
        p.killed(id).index.dom() =~= p.index.dom().remove(id.0),
        other != id.0 && p.index.dom().contains(other) ==> p.killed(id).index[other]
            == p.index[other],
{
}

/// A directory leads to the session of the last binding of it.
pub proof fn lemma_where_a_directory_leads(
    b: Seq<(Seq<char>, SessionId)>,
    path: Seq<char>,
)
    ensures
        praca::bound_to(b, path) is None <==> forall|i: int|
            0 <= i < b.len() ==> (#[trigger] b[i]).0 != path,
        praca::bound_to(b, path) matches Some(id) ==> exists|i: int|
            0 <= i < b.len() && (#[trigger] b[i]).0 == path && b[i].1 == id && forall|j: int|
                i < j < b.len() ==> (#[trigger] b[j]).0 != path,
    decreases b.len(),
{
    if b.len() > 0 {
        let front = b.drop_last();
        lemma_where_a_directory_leads(front, path);
        assert(b.last() == b[b.len() - 1]);
        if b.last().0 != path {
            match praca::bound_to(front, path) {
                Some(id) => {
                    let i = choose|i: int|
                        0 <= i < front.len() && (#[trigger] front[i]).0 == path && front[i].1 == id
                            && forall|j: int|
                            i < j < front.len() ==> (#[trigger] front[j]).0 != path;
                    assert(b[i] == front[i]);
                    assert forall|j: int| i < j < b.len() implies (#[trigger] b[j]).0 != path by {
                        if j < front.len() {
                            assert(front[j] == b[j]);
                        }
                    }
                },
                None => {
                    assert forall|i: int| 0 <= i < b.len() implies (#[trigger] b[i]).0 != path by {
                        if i < front.len() {
                            assert(front[i] == b[i]);
                        }
                    }
                },
            }
        }
    }
}

/// Only what was carried out is learned from: a session that came to be, one that
/// is gone, one that has a new name.
pub proof fn lemma_only_what_was_done_is_learned(req: Request, resp: Response, id: SessionId)
    ensures
        governed::learned(req, resp) == LessonView::Created(id) <==> req is NewSession && resp
            == Response::SessionId(id),
        governed::learned(req, resp) == LessonView::Killed(id) <==> req == Request::KillSession(id)
            && resp is Done,
        (req matches Request::RenameSession { session, new_name } && resp is Done) ==> (req
            matches Request::RenameSession { session, new_name } && governed::learned(req, resp)
            == LessonView::Renamed(session, new_name@)),
        !(resp is Done) && !(resp is SessionId) ==> governed::learned(req, resp) is Nothing,
        !(req is NewSession) && !(req is KillSession) && !(req is RenameSession)
            ==> governed::learned(req, resp) is Nothing,
{
}

/// The recordings that are kept are those of the session that is about to be
/// killed.
pub proof fn lemma_recordings_are_kept_before_the_session_goes(req: Request, id: SessionId)
    ensures
        governed::flushed_before(req) == Some(id) <==> req == Request::KillSession(id),
{
}

/// The six requests that leave a trail.
pub open spec fn leaves_a_trail(req: Request) -> bool {
    ||| req is NewSession
    ||| req is KillSession
    ||| req is SetInputPolicy
    ||| req is StartPaneRecording
    ||| req is StopPaneRecording
    ||| req is SetConfig
}

/// When an event happened.
pub open spec fn when(e: AuditEventView) -> u64 {
    match e {
        AuditEventView::SessionCreate { ts_ms, .. } => ts_ms,
        AuditEventView::SessionKill { ts_ms, .. } => ts_ms,
        AuditEventView::SetInputPolicy { ts_ms, .. } => ts_ms,
        AuditEventView::StartRecording { ts_ms, .. } => ts_ms,
        AuditEventView::StopRecording { ts_ms, .. } => ts_ms,
        AuditEventView::SetConfig { ts_ms, .. } => ts_ms,
    }
}

/// A text that is read back as a number.
pub open spec fn names(s: Seq<char>, n: u64) -> bool {
    digest::hex_number(s) == Ok::<int, digest::HexError>(n as int)
}

/// What leaves a trail is what was carried out of these requests, and the trail
/// says when it was, and of which session or pane: its number can be read back.
pub proof fn lemma_what_was_done_leaves_a_trail(
    req: Request,
    conn: Option<SourceView>,
    resp: Response,
    ts_ms: u64,
)
    ensures
        ({
            let e = audit::audited(req, conn, resp, ts_ms);
            let done = if req is NewSession {
                resp is SessionId
            } else {
                resp is Done
            };
            &&& e is Some <==> leaves_a_trail(req) && done
            &&& e is Some ==> when(e->0) == ts_ms
            &&& e is Some && req is NewSession ==> (e->0 matches AuditEventView::SessionCreate {
                sid,
                ..
            } && (resp matches Response::SessionId(id) && names(sid, id.0)))
            &&& e is Some && req is KillSession ==> (e->0 matches AuditEventView::SessionKill {
                sid,
                ..
            } && (req matches Request::KillSession(id) && names(sid, id.0)))
            &&& e is Some && req is SetInputPolicy ==> (e->0
                matches AuditEventView::SetInputPolicy { pid, policy: p, .. } && (req
                matches Request::SetInputPolicy { id, policy } && names(pid, id.0) && p
                == policy.spec_label()))
            &&& e is Some && req is StartPaneRecording ==> (e->0
                matches AuditEventView::StartRecording { pid, .. } && (req
                matches Request::StartPaneRecording(id) && names(pid, id.0)))
            &&& e is Some && req is StopPaneRecording ==> (e->0
                matches AuditEventView::StopRecording { pid, .. } && (req
                matches Request::StopPaneRecording(id) && names(pid, id.0)))
            &&& e is Some && req is SetConfig ==> e->0 is SetConfig
        }),
{
    match req {
        Request::NewSession { .. } => {
            if let Response::SessionId(id) = resp {
                digest::lemma_hex_reads_back(id.0 as nat);
            }
        },
        Request::KillSession(id) => {
            digest::lemma_hex_reads_back(id.0 as nat);
        },
        Request::SetInputPolicy { id, .. } => {
            digest::lemma_hex_reads_back(id.0 as nat);
        },
        Request::StartPaneRecording(id) => {
            digest::lemma_hex_reads_back(id.0 as nat);
        },
        Request::StopPaneRecording(id) => {
            digest::lemma_hex_reads_back(id.0 as nat);
        },
        _ => {},
    }
}

/// The trail of a created session says its name, its shell and who started it, as
/// the request had them.
pub proof fn lemma_the_trail_of_a_created_session(
    req: Request,
    conn: Option<SourceView>,
    resp: Response,
    ts_ms: u64,
)
    requires
        resp is SessionId,
    ensures
        req matches Request::NewSession { name: n, shell: s, source, .. } ==> (audit::audited(
            req,
            conn,
            resp,
            ts_ms,
        ) matches Some(AuditEventView::SessionCreate { name, shell, source: who, .. }) && name
            == n@ && shell == s@ && who == crate::shutai::derived_source(
            crate::shutai::opt_source(source),
            conn,
        ).label()),
{
}

/// What was learned is remembered: a session that came to be, one that is gone, one
/// that was named; and nothing where nothing was learned.
pub proof fn lemma_what_was_learned_is_remembered(
    p: PracaView,
    id: SessionId,
    name: Seq<char>,
    dir: Seq<char>,
    project: Option<Seq<char>>,
    now: u64,
)
    ensures
        governed::taught(p, LessonView::Nothing, Some(dir), project, now) == p,
        ({
            let after = governed::taught(p, LessonView::Created(id), Some(dir), project, now);
            &&& after.index.dom().contains(id.0)
            &&& after.index[id.0].cwd == dir
            &&& after.index[id.0].last_seen == now
        }),
        !governed::taught(
            p,
            LessonView::Killed(id),
            Some(dir),
            project,
            now,
        ).index.dom().contains(id.0),
        p.index.dom().contains(id.0) ==> governed::taught(
            p,
            LessonView::Renamed(id, name),
            Some(dir),
            project,
            now,
        ).index[id.0].custom_name == Some(name),
{
}

/// The lines that keep what was done: the kind and the time, and then what it was
/// done to.
pub proof fn lemma_the_lines_of_the_trail(ts_ms: u64, a: Seq<char>, b: Seq<char>)
    ensures
        (AuditEventView::SessionKill { ts_ms, sid: a }).json()
            == "{\"kind\":\"session_kill\",\"ts_ms\":"@ + text::decimal(ts_ms as nat)
            + ",\"sid\":\""@ + json::escaped(a) + "\"}"@,
        (AuditEventView::SetInputPolicy { ts_ms, pid: a, policy: b }).json()
            == "{\"kind\":\"set_input_policy\",\"ts_ms\":"@ + text::decimal(ts_ms as nat)
            + ",\"pid\":\""@ + json::escaped(a) + "\",\"policy\":\""@ + json::escaped(b) + "\"}"@,
        (AuditEventView::StartRecording { ts_ms, pid: a }).json()
            == "{\"kind\":\"start_recording\",\"ts_ms\":"@ + text::decimal(ts_ms as nat)
            + ",\"pid\":\""@ + json::escaped(a) + "\"}"@,
        (AuditEventView::StopRecording { ts_ms, pid: a }).json()
            == "{\"kind\":\"stop_recording\",\"ts_ms\":"@ + text::decimal(ts_ms as nat)
            + ",\"pid\":\""@ + json::escaped(a) + "\"}"@,
        (AuditEventView::SetConfig { ts_ms, config_hash: a }).json()
            == "{\"kind\":\"set_config\",\"ts_ms\":"@ + text::decimal(ts_ms as nat)
            + ",\"config_hash\":\""@ + json::escaped(a) + "\"}"@,
{
    reveal_strlit("{\"kind\":\"");
    reveal_strlit("\",\"ts_ms\":");
    reveal_strlit(",\"");
    reveal_strlit("\":");
    reveal_strlit("}");
    reveal_strlit("\"}");
    reveal_strlit("sid");
    reveal_strlit("pid");
    reveal_strlit("policy");
    reveal_strlit("config_hash");
    reveal_strlit("session_kill");
    reveal_strlit("set_input_policy");
    reveal_strlit("start_recording");
    reveal_strlit("stop_recording");
    reveal_strlit("set_config");
    reveal_strlit("{\"kind\":\"session_kill\",\"ts_ms\":");
    reveal_strlit("{\"kind\":\"set_input_policy\",\"ts_ms\":");
    reveal_strlit("{\"kind\":\"start_recording\",\"ts_ms\":");
    reveal_strlit("{\"kind\":\"stop_recording\",\"ts_ms\":");
    reveal_strlit("{\"kind\":\"set_config\",\"ts_ms\":");
    reveal_strlit(",\"sid\":\"");
    reveal_strlit(",\"pid\":\"");
    reveal_strlit("\",\"policy\":\"");
    reveal_strlit(",\"config_hash\":\"");
    let d = text::decimal(ts_ms as nat);
    let e = json::escaped(a);
    assert((AuditEventView::SessionKill { ts_ms, sid: a }).json()
        =~= "{\"kind\":\"session_kill\",\"ts_ms\":"@ + d + ",\"sid\":\""@ + e + "\"}"@);
    assert((AuditEventView::SetInputPolicy { ts_ms, pid: a, policy: b }).json()
        =~= "{\"kind\":\"set_input_policy\",\"ts_ms\":"@ + d + ",\"pid\":\""@ + e
        + "\",\"policy\":\""@ + json::escaped(b) + "\"}"@);
    assert((AuditEventView::StartRecording { ts_ms, pid: a }).json()
        =~= "{\"kind\":\"start_recording\",\"ts_ms\":"@ + d + ",\"pid\":\""@ + e + "\"}"@);
    assert((AuditEventView::StopRecording { ts_ms, pid: a }).json()
        =~= "{\"kind\":\"stop_recording\",\"ts_ms\":"@ + d + ",\"pid\":\""@ + e + "\"}"@);
    assert((AuditEventView::SetConfig { ts_ms, config_hash: a }).json()
        =~= "{\"kind\":\"set_config\",\"ts_ms\":"@ + d + ",\"config_hash\":\""@ + e + "\"}"@);
}

/// The line that keeps that a session was created.
pub proof fn lemma_the_line_of_a_created_session(
    ts_ms: u64,
    sid: Seq<char>,
    name: Seq<char>,
    shell: Seq<char>,
    source: Seq<char>,
)
    ensures
        (AuditEventView::SessionCreate { ts_ms, sid, name, shell, source }).json()
            == "{\"kind\":\"session_create\",\"ts_ms\":"@ + text::decimal(ts_ms as nat)
            + ",\"sid\":\""@ + json::escaped(sid) + "\",\"name\":\""@ + json::escaped(name)
            + "\",\"shell\":\""@ + json::escaped(shell) + "\",\"source\":\""@ + json::escaped(
            source,
        ) + "\"}"@,
{
    reveal_strlit("{\"kind\":\"");
    reveal_strlit("\",\"ts_ms\":");
    reveal_strlit(",\"");
    reveal_strlit("\":");
    reveal_strlit("}");
    reveal_strlit("\"}");
    reveal_strlit("sid");
    reveal_strlit("name");
    reveal_strlit("shell");
    reveal_strlit("source");
    reveal_strlit("session_create");
    reveal_strlit("{\"kind\":\"session_create\",\"ts_ms\":");
    reveal_strlit(",\"sid\":\"");
    reveal_strlit("\",\"name\":\"");
    reveal_strlit("\",\"shell\":\"");
    reveal_strlit("\",\"source\":\"");
    let d = text::decimal(ts_ms as nat);
    assert((AuditEventView::SessionCreate { ts_ms, sid, name, shell, source }).json()
        =~= "{\"kind\":\"session_create\",\"ts_ms\":"@ + d + ",\"sid\":\""@ + json::escaped(sid)
        + "\",\"name\":\""@ + json::escaped(name) + "\",\"shell\":\""@ + json::escaped(shell)
        + "\",\"source\":\""@ + json::escaped(source) + "\"}"@);
}

/// The trail of a configuration holds the digest of its text in hexadecimal.
pub proof fn lemma_the_trail_of_a_configuration(
    req: Request,
    conn: Option<SourceView>,
    ts_ms: u64,
    i: int,
)
    requires
        req is SetConfig,
        0 <= i < 32,
    ensures
        (req matches Request::SetConfig(yaml) && (audit::audited(req, conn, Response::Done, ts_ms)
            matches Some(AuditEventView::SetConfig { config_hash, .. }) && {
            let d = digest::blake3_digest(vstd::utf8::encode_utf8(yaml@))@;
            &&& config_hash.len() == 64
            &&& digest::hex_value(config_hash[2 * i]) == Some(d[i] as int / 16)
            &&& digest::hex_value(config_hash[2 * i + 1]) == Some(d[i] as int % 16)
        })),
{
    if let Request::SetConfig(yaml) = req {
        let d = digest::blake3_digest(vstd::utf8::encode_utf8(yaml@))@;
        assert(d.len() == 32);
        text_laws::lemma_bytes_in_hexadecimal(d, i);
    }
}

/// A request about the configuration is answered with the text where it was asked
/// for, with its being done where it was, and refused where it failed.
pub proof fn lemma_configuration_requests_are_answered(
    req: Request,
    work: ConfigWorkView,
    done: Result<Seq<char>, Seq<char>>,
    r: Response,
)
    requires
        governed::config_work_of(req) == Some(work),
        governed::config_answer(work, done, r),
    ensures
        req is GetConfig <==> work is Show,
        req is ReloadConfig <==> work is Reload,
        req is SetConfig <==> work is Replace,
        (req matches Request::SetConfig(yaml) && work matches ConfigWorkView::Replace(t)) ==> (req
            matches Request::SetConfig(yaml) && work == ConfigWorkView::Replace(yaml@)),
        done is Ok && req is GetConfig ==> (r matches Response::ConfigYaml(y) && y@ == done->Ok_0),
        done is Ok && !(req is GetConfig) ==> r is Done,
        done is Err ==> r is Refused,
{
}

/// A path under another starts with it and ends with the part, with one slash
/// between where there was none.
pub proof fn lemma_a_path_under_another(base: Seq<char>, part: Seq<char>)
    ensures
        ({
            let p = state_path::under(base, part);
            &&& p.take(base.len() as int) == base
            &&& p.skip(p.len() - part.len()) == part
            &&& base.len() == 0 || base.last() == '/' ==> p.len() == base.len() + part.len()
            &&& base.len() > 0 && base.last() != '/' ==> p.len() == base.len() + 1 + part.len()
                && p[base.len() as int] == '/'
        }),
{
    reveal_strlit("/");
    let p = state_path::under(base, part);
    assert(p.take(base.len() as int) =~= base);
    assert(p.skip(p.len() - part.len()) =~= part);
}

/// Where things are kept: where it was said; else in the user's state directory;
/// else under the home; else here.
pub proof fn lemma_where_things_are_kept(
    explicit: Option<Seq<char>>,
    xdg: Option<Seq<char>>,
    home: Option<Seq<char>>,
)
    ensures
        ({
            let b = state_path::state_base(explicit, xdg, home);
            let named = xdg is Some && xdg->0.len() > 0;
            &&& explicit is Some ==> b == explicit->0
            &&& explicit is None && named ==> b == xdg->0
            &&& explicit is None && !named && home is Some ==> b.take(home->0.len() as int)
                == home->0
            &&& explicit is None && !named && home is Some && home->0.len() > 0 && home->0.last()
                != '/' ==> b == home->0 + "/.local/state"@
            &&& explicit is None && !named && home is None ==> b == "."@
        }),
{
    if home is Some {
        let mid = state_path::under(home->0, ".local"@);
        lemma_a_path_under_another(home->0, ".local"@);
        lemma_a_path_under_another(mid, "state"@);
        let b = state_path::under(mid, "state"@);
        assert(b.take(home->0.len() as int) =~= b.take(mid.len() as int).take(
            home->0.len() as int,
        ));
        reveal_strlit("/");
        reveal_strlit(".local");
        reveal_strlit("state");
        reveal_strlit("/.local/state");
        if home->0.len() > 0 && home->0.last() != '/' {
            assert(mid.last() == 'l');
            assert(b =~= home->0 + "/.local/state"@);
        }
    }
}

/// Two panes of one session are never kept in one file.
pub proof fn lemma_every_pane_has_a_file_of_its_own(session: SessionId, now: u64, a: u64, b: u64)
    requires
        a != b,
    ensures
        state_path::cast_name(session, now, a) != state_path::cast_name(session, now, b),
{
    digest::lemma_hex_reads_back(a as nat);
    digest::lemma_hex_reads_back(b as nat);
    let front = digest::hex(session.0 as nat, 16) + "-"@ + text::decimal(now as nat) + "-"@;
    let x = state_path::cast_name(session, now, a);
    let y = state_path::cast_name(session, now, b);
    let n = front.len() as int;
    assert(x.subrange(n, n + 16) =~= digest::hex(a as nat, 16));
    assert(y.subrange(n, n + 16) =~= digest::hex(b as nat, 16));
}

/// Some pane among `keys` is kept in this file.
pub open spec fn keeps_a_recording(
    f: (Seq<char>, Seq<char>),
    m: MuxView,
    session: SessionId,
    keys: Seq<u64>,
    dir: Seq<char>,
    shell: Seq<char>,
    now: u64,
) -> bool {
    exists|i: int|
        0 <= i < keys.len() && m.recordings.dom().contains(#[trigger] keys[i])
            && m.recordings[keys[i]].events.len() > 0 && f.0 == state_path::under(
            dir,
            state_path::cast_name(session, now, keys[i]),
        ) && f.1 == m.recordings[keys[i]].cast(shell, now)
}

/// Every file that is written keeps the recording of a pane that has one with
/// something in it, and every such pane has its file.
pub proof fn lemma_every_recording_has_its_file(
    m: MuxView,
    session: SessionId,
    keys: Seq<u64>,
    dir: Seq<char>,
    shell: Seq<char>,
    now: u64,
)
    ensures
        ({
            let files = state_path::cast_files(m, session, keys, dir, shell, now);
            &&& files.len() <= keys.len()
            &&& forall|i: int|
                0 <= i < files.len() ==> #[trigger] keeps_a_recording(
                    files[i],
                    m,
                    session,
                    keys,
                    dir,
                    shell,
                    now,
                )
            &&& forall|j: int|
                0 <= j < keys.len() && m.recordings.dom().contains(#[trigger] keys[j])
                    && m.recordings[keys[j]].events.len() > 0 ==> files.contains(
                    (
                        state_path::under(dir, state_path::cast_name(session, now, keys[j])),
                        m.recordings[keys[j]].cast(shell, now),
                    ),
                )
        }),
    decreases keys.len(),
{
    let files = state_path::cast_files(m, session, keys, dir, shell, now);
    if keys.len() > 0 {
        let front = keys.drop_last();
        let rest = state_path::cast_files(m, session, front, dir, shell, now);
        lemma_every_recording_has_its_file(m, session, front, dir, shell, now);
        assert forall|i: int| 0 <= i < files.len() implies #[trigger] keeps_a_recording(
            files[i],
            m,
            session,
            keys,
            dir,
            shell,
            now,
        ) by {
            if i < rest.len() {
                assert(files[i] == rest[i]);
                assert(keeps_a_recording(rest[i], m, session, front, dir, shell, now));
                let j = choose|j: int|
                    0 <= j < front.len() && m.recordings.dom().contains(#[trigger] front[j])
                        && m.recordings[front[j]].events.len() > 0 && rest[i].0
                        == state_path::under(
                        dir,
                        state_path::cast_name(session, now, front[j]),
                    ) && rest[i].1 == m.recordings[front[j]].cast(shell, now);
                assert(keys[j] == front[j]);
            } else {
                assert(keys[keys.len() - 1] == keys.last());
            }
        }
        assert forall|j: int|
            0 <= j < keys.len() && m.recordings.dom().contains(#[trigger] keys[j])
                && m.recordings[keys[j]].events.len() > 0 implies files.contains(
            (
                state_path::under(dir, state_path::cast_name(session, now, keys[j])),
                m.recordings[keys[j]].cast(shell, now),
            ),
        ) by {
            let f = (
                state_path::under(dir, state_path::cast_name(session, now, keys[j])),
                m.recordings[keys[j]].cast(shell, now),
            );
            if j < front.len() {
                assert(front[j] == keys[j]);
                assert(rest.contains(f));
                let i = choose|i: int| 0 <= i < rest.len() && rest[i] == f;
                assert(files[i] == f);
            } else {
                assert(files[files.len() - 1] == f);
            }
        }
    }
}

/// A window among `keys` shows a pane.
pub open spec fn is_shown(windows: Map<u64, TearWindowView>, keys: Seq<u64>, pane: u64) -> bool {
    exists|i: int|
        0 <= i < keys.len() && windows[#[trigger] keys[i]].layout.leaves().contains(pane)
}

/// The panes that are counted are those that a window shows.
pub proof fn lemma_the_panes_that_are_counted(
    windows: Map<u64, TearWindowView>,
    keys: Seq<u64>,
    pane: u64,
)
    ensures
        daemon_state::window_panes(windows, keys).contains(pane) <==> is_shown(
            windows,
            keys,
            pane,
        ),
    decreases keys.len(),
{
    if keys.len() > 0 {
        let front = keys.drop_last();
        lemma_the_panes_that_are_counted(windows, front, pane);
        let a = daemon_state::window_panes(windows, front);
        let b = windows[keys.last()].layout.leaves();
        let all = daemon_state::window_panes(windows, keys);
        assert(all == a + b);
        if all.contains(pane) {
            let i = choose|i: int| 0 <= i < all.len() && all[i] == pane;
            if i < a.len() {
                assert(a[i] == pane);
                let j = choose|j: int|
                    0 <= j < front.len() && windows[#[trigger] front[j]].layout.leaves().contains(
                        pane,
                    );
                assert(keys[j] == front[j]);
            } else {
                assert(b[i - a.len()] == pane);
                assert(windows[keys[keys.len() - 1]].layout.leaves().contains(pane));
            }
        }
        if is_shown(windows, keys, pane) {
            let j = choose|j: int|
                0 <= j < keys.len() && windows[#[trigger] keys[j]].layout.leaves().contains(pane);
            if j < front.len() {
                assert(front[j] == keys[j]);
                let i = choose|i: int| 0 <= i < a.len() && a[i] == pane;
                assert(all[i] == pane);
            } else {
                let i = choose|i: int| 0 <= i < b.len() && b[i] == pane;
                assert(all[a.len() + i] == pane);
            }
        }
    }
}

/// A session in brief: the number can be read back, the name is its own, and its
/// windows are counted.
pub proof fn lemma_a_session_in_brief(k: u64, s: TearSessionView)
    ensures
        names(daemon_state::summary(k, s).id, k),
        daemon_state::summary(k, s).name == s.name,
        daemon_state::summary(k, s).window_count == table::ordered(s.windows.dom()).len(),
{
    digest::lemma_hex_reads_back(k as nat);
}

} // verus!
