//! What the daemon does around a request: what comes before it, what a request
//! about the configuration is answered, and what is kept once it is answered.
use crate::audit;
use crate::audit::{audit_event, AuditEvent};
use crate::id::SessionId;
use crate::praca::{Praca, PracaView};
use crate::session::SourceView;
use crate::shutai;
use crate::shutai::Shutai;
use crate::wire;
use crate::wire::{Request, Response, WireError, WireErrorView};
use crate::yurai;
use vstd::prelude::*;
use vstd::string::StringExecFns;

verus! {

/// What is to be done with the configuration.
#[derive(Debug, PartialEq, Eq)]
pub enum ConfigWork {
    /// It is to be written out.
    Show,
    /// It is to be read again from where it is kept.
    Reload,
    /// It is to be replaced by what a text says.
    Replace(String),
}

/// The contents of a [`ConfigWork`].
#[verifier::ext_equal]
pub enum ConfigWorkView {
    Show,
    Reload,
    Replace(Seq<char>),
}

impl View for ConfigWork {
    type V = ConfigWorkView;

    open spec fn view(&self) -> ConfigWorkView {
        match self {
            ConfigWork::Show => ConfigWorkView::Show,
            ConfigWork::Reload => ConfigWorkView::Reload,
            ConfigWork::Replace(s) => ConfigWorkView::Replace(s@),
        }
    }
}

/// The work that a request about the configuration asks for.
pub open spec fn config_work_of(req: Request) -> Option<ConfigWorkView> {
    match req {
        Request::GetConfig => Some(ConfigWorkView::Show),
        Request::ReloadConfig => Some(ConfigWorkView::Reload),
        Request::SetConfig(yaml) => Some(ConfigWorkView::Replace(yaml@)),
        _ => None,
    }
}

pub open spec fn opt_work(w: Option<ConfigWork>) -> Option<ConfigWorkView> {
    match w {
        Some(w) => Some(w@),
        None => None,
    }
}

/// The work that a request about the configuration asks for; none for any other
/// request.
pub fn config_work(req: &Request) -> (r: Option<ConfigWork>)
    ensures
        opt_work(r) == config_work_of(*req),
{
    match req {
        Request::GetConfig => Some(ConfigWork::Show),
        Request::ReloadConfig => Some(ConfigWork::Reload),
        Request::SetConfig(yaml) => Some(ConfigWork::Replace(yaml.clone())),
        _ => None,
    }
}

/// The answer to a request about the configuration: the text that was written
/// out, that it was done, or why not.
pub open spec fn config_answer(
    work: ConfigWorkView,
    done: Result<Seq<char>, Seq<char>>,
    r: Response,
) -> bool {
    match done {
        Ok(yaml) => if work is Show {
            r matches Response::ConfigYaml(y) && y@ == yaml
        } else {
            r is Done
        },
        Err(e) => wire::refused(
            r,
            match work {
                ConfigWorkView::Show => WireErrorView::Internal(
                    "failed to serialise TearConfig as YAML: "@ + e,
                ),
                ConfigWorkView::Reload => WireErrorView::Internal(
                    "config reload failed: "@ + e,
                ),
                ConfigWorkView::Replace(_) => WireErrorView::Rejected(
                    "SetConfig payload did not parse as TearConfig YAML: "@ + e,
                ),
            },
        ),
    }
}

/// The contents of an outcome.
pub open spec fn outcome_view(r: Result<String, String>) -> Result<Seq<char>, Seq<char>> {
    match r {
        Ok(s) => Ok(s@),
        Err(e) => Err(e@),
    }
}

fn with_reason(head: &str, reason: &str) -> (r: String)
    ensures
        r@ == head@ + reason@,
{
    let mut out: String = String::from_str(head);
    out.append(reason);
    out
}

/// The answer once the work on the configuration came out as `done` says. What
/// is written out counts for a configuration that is to be shown only.
pub fn config_done(work: &ConfigWork, done: Result<String, String>) -> (r: Response)
    ensures
        config_answer(work@, outcome_view(done), r),
{
    match done {
        Ok(yaml) => match work {
            ConfigWork::Show => Response::ConfigYaml(yaml),
            _ => Response::Done,
        },
        Err(e) => Response::Refused(
            match work {
                ConfigWork::Show => WireError::Internal(
                    with_reason("failed to serialise TearConfig as YAML: ", e.as_str()),
                ),
                ConfigWork::Reload => WireError::Internal(
                    with_reason("config reload failed: ", e.as_str()),
                ),
                ConfigWork::Replace(_) => WireError::Rejected(
                    with_reason(
                        "SetConfig payload did not parse as TearConfig YAML: ",
                        e.as_str(),
                    ),
                ),
            },
        ),
    }
}

/// The session whose recordings are to be kept before a request is carried out.
pub open spec fn flushed_before(req: Request) -> Option<SessionId> {
    match req {
        Request::KillSession(id) => Some(id),
        _ => None,
    }
}

/// The session whose recordings are to be kept before a request is carried out:
/// the one that is about to be killed.
pub fn flush_first(req: &Request) -> (r: Option<SessionId>)
    ensures
        r == flushed_before(*req),
{
    match req {
        Request::KillSession(id) => Some(*id),
        _ => None,
    }
}

/// What the memory of places learns from a request that was answered.
#[derive(Debug, PartialEq, Eq)]
pub enum Lesson {
    Nothing,
    Created(SessionId),
    Killed(SessionId),
    Renamed(SessionId, String),
}

/// The contents of a [`Lesson`].
#[verifier::ext_equal]
pub enum LessonView {
    Nothing,
    Created(SessionId),
    Killed(SessionId),
    Renamed(SessionId, Seq<char>),
}

impl View for Lesson {
    type V = LessonView;

    open spec fn view(&self) -> LessonView {
        match self {
            Lesson::Nothing => LessonView::Nothing,
            Lesson::Created(id) => LessonView::Created(*id),
            Lesson::Killed(id) => LessonView::Killed(*id),
            Lesson::Renamed(id, name) => LessonView::Renamed(*id, name@),
        }
    }
}

/// What the memory of places learns from a request and its answer.
pub open spec fn learned(req: Request, resp: Response) -> LessonView {
    match req {
        Request::NewSession { .. } => match resp {
            Response::SessionId(id) => LessonView::Created(id),
            _ => LessonView::Nothing,
        },
        Request::KillSession(id) => if resp is Done {
            LessonView::Killed(id)
        } else {
            LessonView::Nothing
        },
        Request::RenameSession { session, new_name } => if resp is Done {
            LessonView::Renamed(session, new_name@)
        } else {
            LessonView::Nothing
        },
        _ => LessonView::Nothing,
    }
}

/// What is kept of a request that was answered: the event for the audit log, and
/// the lesson for the memory of places.
pub fn aftermath(req: &Request, actor: Option<&Shutai>, resp: &Response, ts_ms: u64) -> (r: (
    Option<AuditEvent>,
    Lesson,
))
    ensures
        audit::opt_event(r.0) == audit::audited(*req, shutai::conn_source(actor), *resp, ts_ms),
        r.1@ == learned(*req, *resp),
{
    let event = audit_event(req, actor, resp, ts_ms);
    let lesson = match req {
        Request::NewSession { .. } => match resp {
            Response::SessionId(id) => Lesson::Created(*id),
            _ => Lesson::Nothing,
        },
        Request::KillSession(id) => match resp {
            Response::Done => Lesson::Killed(*id),
            _ => Lesson::Nothing,
        },
        Request::RenameSession { session, new_name } => match resp {
            Response::Done => Lesson::Renamed(*session, new_name.clone()),
            _ => Lesson::Nothing,
        },
        _ => Lesson::Nothing,
    };
    (event, lesson)
}

/// What is remembered after a lesson. `cwd` is the directory that a new session
/// was made in, and `project` the root of the project around it.
pub open spec fn taught(
    p: PracaView,
    lesson: LessonView,
    cwd: Option<Seq<char>>,
    project: Option<Seq<char>>,
    now: u64,
) -> PracaView {
    match lesson {
        LessonView::Nothing => p,
        LessonView::Created(id) => p.created(id, cwd, project, now),
        LessonView::Killed(id) => p.killed(id),
        LessonView::Renamed(id, name) => p.renamed(id, name),
    }
}

/// Takes a lesson to heart.
pub fn learn(
    praca: &mut Praca,
    lesson: Lesson,
    cwd: Option<String>,
    project: Option<String>,
    now: u64,
)
    ensures
        final(praca)@ == taught(
            old(praca)@,
            lesson@,
            yurai::opt_text(cwd),
            yurai::opt_text(project),
            now,
        ),
{
    match lesson {
        Lesson::Nothing => {},
        Lesson::Created(id) => praca.on_session_create(id, cwd, project, now),
        Lesson::Killed(id) => praca.on_session_kill(id),
        Lesson::Renamed(id, name) => praca.on_session_rename(id, name.as_str()),
    }
}

/// A request that was refused leaves no trace: nothing for the log, and nothing
/// to remember.
pub proof fn lemma_refusals_leave_no_trace(
    req: Request,
    conn: Option<SourceView>,
    resp: Response,
    ts_ms: u64,
)
    requires
        resp is Refused,
    ensures
        audit::audited(req, conn, resp, ts_ms) is None,
        learned(req, resp) is Nothing,
{
}

/// A configuration that could not be read or written is a refusal, and so leaves
/// no trace either.
pub proof fn lemma_failed_configuration_leaves_no_trace(
    req: Request,
    work: ConfigWorkView,
    reason: Seq<char>,
    resp: Response,
    conn: Option<SourceView>,
    ts_ms: u64,
)
    requires
        config_work_of(req) == Some(work),
        config_answer(work, Err(reason), resp),
    ensures
        resp is Refused,
        audit::audited(req, conn, resp, ts_ms) is None,
        learned(req, resp) is Nothing,
{
}

} // verus!
