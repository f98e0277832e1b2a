//! From a request to its answer, or to what must be done with a terminal first.
use crate::block;
use crate::blocks;
use crate::capability::{DaemonHello, HelloView};
use crate::clock;
use crate::control::ControlError;
use crate::freio::Freio;
use crate::genesis;
use crate::id::{PaneId, SessionId, WindowId};
use crate::inproc;
use crate::inproc::{InProcess, SpawnPlan};
use crate::inproc_events;
use crate::inproc_model;
use crate::inproc_model::MuxView;
use crate::inproc_panes;
use crate::inproc_sessions;
use crate::layout;
use crate::layout::{Direction, LayoutKind};
use crate::pane;
use crate::pane::{clone_pairs, TearPaneView};
use crate::registry;
use crate::registry::SpawnView;
use crate::session::{SourceView, TearSessionView, TearWindowView};
use crate::shutai;
use crate::shutai::{derive_session_source, Shutai};
use crate::table;
use crate::wire;
use crate::wire::{Request, Response, WireError, WireErrorView};
use crate::yurai::YuraiView;
use vstd::prelude::*;

verus! {

/// What an answer depends on besides the multiplexer.
pub struct Surroundings {
    /// Seconds of the Unix epoch.
    pub now: u64,
    /// The version of the daemon.
    pub version: String,
    /// The shell that recordings name.
    pub shell: String,
    /// The environment that programs inherit.
    pub inherited: Vec<(String, String)>,
}

/// What was started when a program starts.
#[derive(Debug, Clone, Copy, PartialEq, Eq, Structural)]
pub enum Started {
    Session(SessionId),
    Window(WindowId),
    /// A pane, and the window that is to be arranged anew.
    Pane { session: SessionId, window: WindowId, pane: PaneId },
}

/// What a request leads to.
#[derive(Debug, PartialEq, Eq)]
pub enum Step {
    /// The answer.
    Reply(Response),
    /// A program is to be started; then see [`spawn_done`].
    Spawn { plan: SpawnPlan, what: Started },
    /// Terminals are to be closed, and perhaps a window arranged anew; then the
    /// request is done.
    Close { panes: Vec<PaneId>, reflow: Option<(SessionId, WindowId)> },
    /// Bytes are to be written to a terminal; then see [`write_done`].
    Write { pane: PaneId, bytes: Vec<u8> },
    /// A terminal is to be resized; then see [`resize_done`].
    Resize { pane: PaneId, cols: u16, rows: u16 },
    /// A divider is to be moved by cells of a span, and the window arranged
    /// anew; then the request is done.
    MoveDivider {
        session: SessionId,
        window: WindowId,
        pane: PaneId,
        direction: Direction,
        delta_cells: i16,
        span: u16,
    },
    /// The panes of a window are to be arranged in a named way; then the request
    /// is done.
    Arrange { window: WindowId, kind: LayoutKind, panes: Vec<PaneId> },
}

// ── which requests are which ──

/// Requests that change nothing.
pub open spec fn is_read(req: Request) -> bool {
    match req {
        Request::ListSessions => true,
        Request::GetSession(_) => true,
        Request::GetWindow(_) => true,
        Request::GetPane(_) => true,
        Request::GetFreio => true,
        Request::PaneSubscriberCount(_) => true,
        Request::ExportPaneRecording(_) => true,
        Request::PaneRecordingStatus(_) => true,
        Request::PaneBlocksList { .. } => true,
        Request::PaneBlockAt { .. } => true,
        Request::PaneBlocksStatus(_) => true,
        Request::PaneSnapshot(_) => true,
        _ => false,
    }
}

/// Requests that change the multiplexer and touch no terminal.
pub open spec fn is_change(req: Request) -> bool {
    match req {
        Request::RenameSession { .. } => true,
        Request::SelectWindow(_) => true,
        Request::SelectPane(_) => true,
        Request::SetFreio { .. } => true,
        Request::SetInputPolicy { .. } => true,
        Request::StartPaneRecording(_) => true,
        Request::StopPaneRecording(_) => true,
        Request::SetSpawnEnv(_) => true,
        _ => false,
    }
}

/// Requests that are answered without the multiplexer.
pub open spec fn is_fixed(req: Request) -> bool {
    match req {
        Request::Subscribe(_) => true,
        Request::GetConfig => true,
        Request::ReloadConfig => true,
        Request::SetConfig(_) => true,
        Request::SubscribeConfigChange => true,
        Request::Authenticate(_) => true,
        Request::IdentifyClient(_) => true,
        Request::Hello { .. } => true,
        _ => false,
    }
}

// ── the answers ──

/// The answer to a request that changes nothing.
pub open spec fn read_answer(m: MuxView, req: Request, around: Surroundings, r: Response) -> bool {
    match req {
        Request::ListSessions => r matches Response::Sessions(v) && exists|keys: Seq<u64>| #[trigger]
            registry::oldest_first(m.sessions(), keys) && registry::sessions_view(v@)
                == registry::listing(m.sessions(), keys),
        Request::GetSession(id) => if m.sessions().dom().contains(id.0) {
            r matches Response::Session(s) && s@ == m.sessions()[id.0]
        } else {
            wire::refused(r, WireErrorView::NoSuchSession(id))
        },
        Request::GetWindow(id) => match m.registry.window_owner(id) {
            Some(k) => r matches Response::Window { session, window } && session
                == m.sessions()[k].id && window@ == m.sessions()[k].windows[id.0],
            None => wire::refused(r, WireErrorView::NoSuchWindow(id)),
        },
        Request::GetPane(id) => match m.registry.owner(id) {
            Some(k) => r matches Response::Pane(p) && p@ == m.sessions()[k].panes[id.0],
            None => wire::refused(r, WireErrorView::NoSuchPane(id)),
        },
        Request::GetFreio => r matches Response::Freio { sessions, braked, unbrakable }
            && sessions@ == inproc_events::brakes(
            m.sessions(),
            table::ordered(m.sessions().dom()),
        ) && braked@.len() == 0 && unbrakable@.len() == 0,
        Request::PaneSubscriberCount(id) => r matches Response::SubscriberCount(n) && n
            == m.readers_of(id).senders.len() % 0x1_0000_0000,
        Request::ExportPaneRecording(id) => if inproc::exportable(m, id) {
            r matches Response::CastJson(s) && s@ == inproc::exported(
                m,
                id,
                around.shell@,
                around.now,
            )
        } else {
            wire::refused(r, WireErrorView::NoSuchPane(id))
        },
        Request::PaneRecordingStatus(id) => r matches Response::RecordingStatus {
            enabled,
            events,
        } && enabled == (m.recordings.dom().contains(id.0) && m.recordings[id.0].anchor is Some)
            && events == if m.recordings.dom().contains(id.0) {
            m.recordings[id.0].events.len() % 0x1_0000_0000
        } else {
            0
        },
        Request::PaneBlocksList { pane, since_index, limit } => if m.grids.dom().contains(pane.0) {
            r matches Response::Blocks(v) && block::blocks_view(v@) == inproc::listed_blocks(
                m.grids[pane.0],
                since_index,
                limit,
            )
        } else {
            wire::refused(r, WireErrorView::NoSuchPane(pane))
        },
        Request::PaneBlockAt { pane, index } => if !m.grids.dom().contains(pane.0) {
            wire::refused(r, WireErrorView::NoSuchPane(pane))
        } else if exists|i: int|
            0 <= i < m.grids[pane.0].grid.blocks.blocks.len() && (
            #[trigger] m.grids[pane.0].grid.blocks.blocks[i]).index == index {
            r matches Response::Block(b) && blocks::is_oldest(
                m.grids[pane.0].grid.blocks.blocks,
                index,
                b@,
            )
        } else {
            wire::refused(r, WireErrorView::Rejected(inproc_model::no_block_text(index)))
        },
        Request::PaneBlocksStatus(id) => if m.grids.dom().contains(id.0) {
            r matches Response::BlocksStatus { total, in_progress } && total
                == m.grids[id.0].grid.blocks.blocks.len() % 0x1_0000_0000 && in_progress == (
            m.grids[id.0].grid.blocks.current is Some)
        } else {
            wire::refused(r, WireErrorView::NoSuchPane(id))
        },
        Request::PaneSnapshot(id) => if m.grids.dom().contains(id.0) {
            r matches Response::PaneSnapshot(s) && s@ == m.grids[id.0].grid.snapshot()
        } else {
            wire::refused(r, WireErrorView::NoSuchPane(id))
        },
        _ => false,
    }
}

/// The state after a request that touches no terminal, and the answer.
pub open spec fn change_answer(
    before: MuxView,
    after: MuxView,
    req: Request,
    now: u64,
    r: Response,
) -> bool {
    match req {
        Request::RenameSession { session, new_name } => if before.sessions().dom().contains(
            session.0,
        ) {
            r is Done && after == before.with_session(
                session.0,
                TearSessionView { name: new_name@, ..before.sessions()[session.0] },
            )
        } else {
            wire::refused(r, WireErrorView::NoSuchSession(session)) && after == before
        },
        Request::SelectWindow(id) => match before.registry.window_owner(id) {
            Some(k) => r is Done && after == before.with_session(
                k,
                TearSessionView { active_window: id, ..before.sessions()[k] },
            ),
            None => wire::refused(r, WireErrorView::NoSuchWindow(id)) && after == before,
        },
        Request::SelectPane(id) => match before.registry.locate(id) {
            None => wire::refused(r, WireErrorView::NoSuchPane(id)) && after == before,
            Some((sid, wid)) => r is Done && after == if before.sessions().dom().contains(sid.0)
                && before.sessions()[sid.0].windows.dom().contains(wid.0) {
                let s = before.sessions()[sid.0];
                before.with_session(
                    sid.0,
                    TearSessionView {
                        windows: s.windows.insert(
                            wid.0,
                            TearWindowView { active_pane: id, ..s.windows[wid.0] },
                        ),
                        ..s
                    },
                )
            } else {
                before
            },
        },
        Request::SetFreio { target, engaged } => {
            let m = before.sessions();
            let targets = inproc_model::brake_targets(m, target);
            let brake = if engaged {
                Freio::Engaged { at_unix: now }
            } else {
                Freio::Released
            };
            let braked_sessions = inproc_model::with_brake(m, targets, brake);
            &&& after == (MuxView {
                registry: registry::RegistryView {
                    sessions: braked_sessions,
                    ..before.registry
                },
                ..before
            })
            &&& r matches Response::Freio { sessions, braked, unbrakable } && sessions@
                == inproc_events::brakes(braked_sessions, table::ordered(braked_sessions.dom()))
                && layout::pane_numbers(braked@) == if engaged {
                inproc_model::braked_panes(m, targets, true)
            } else {
                Seq::empty()
            } && layout::pane_numbers(unbrakable@) == if engaged {
                inproc_model::braked_panes(m, targets, false)
            } else {
                Seq::empty()
            }
        },
        Request::SetInputPolicy { id, policy } => match before.registry.owner(id) {
            None => wire::refused(r, WireErrorView::NoSuchPane(id)) && after == before,
            Some(k) => {
                let s = before.sessions()[k];
                &&& r is Done
                &&& after == before.with_session(
                    k,
                    TearSessionView {
                        panes: s.panes.insert(
                            id.0,
                            TearPaneView { input_policy: policy, ..s.panes[id.0] },
                        ),
                        ..s
                    },
                )
            },
        },
        Request::StartPaneRecording(id) => if before.shown_pane(id) is Some {
            r is Done && exists|at: std::time::Instant, t: std::time::SystemTime|
                after == #[trigger] inproc::recording_on(before, id, at, clock::millis_of(t))
        } else {
            wire::refused(r, WireErrorView::NoSuchPane(id)) && after == before
        },
        Request::StopPaneRecording(id) => if before.recordings.dom().contains(id.0) {
            r is Done && after == (MuxView {
                recordings: before.recordings.insert(
                    id.0,
                    before.recordings[id.0].disable(),
                ),
                ..before
            })
        } else {
            wire::refused(r, WireErrorView::NoSuchPane(id)) && after == before
        },
        Request::SetSpawnEnv(env) => r is Done && after == (MuxView { env: env@, ..before }),
        _ => false,
    }
}

/// The answer to a request that the multiplexer has no part in.
pub open spec fn fixed_answer(req: Request, version: Seq<char>, r: Response) -> bool {
    match req {
        Request::Subscribe(_) => wire::refused(
            r,
            WireErrorView::Rejected(
                "Subscribe must be handled by serve_connection (push mode), not dispatch"@,
            ),
        ),
        Request::SubscribeConfigChange => wire::refused(
            r,
            WireErrorView::Rejected(
                "SubscribeConfigChange must be handled by serve_connection (push mode), not dispatch"@,
            ),
        ),
        Request::Authenticate(_) => r is Done,
        Request::IdentifyClient(_) => r is Done,
        Request::Hello { .. } => r matches Response::Hello(h) && h@ == HelloView::of_this_build(
            version,
        ),
        _ => wire::refused(
            r,
            WireErrorView::Rejected(
                "config requests must be handled by dispatch_with_config (needs LiveConfig)"@,
            ),
        ),
    }
}

/// What a request that needs a terminal leads to.
pub open spec fn terminal_step(
    before: MuxView,
    after: MuxView,
    req: Request,
    conn: Option<SourceView>,
    around: Surroundings,
    step: Step,
) -> bool {
    let inherited = pane::pairs(around.inherited@);
    match req {
        Request::NewSession { name, shell, source, size_cells, args } => {
            let size = match size_cells {
                Some(s) => s,
                None => (80u16, 24u16),
            };
            step matches Step::Spawn { plan, what } && what matches Started::Session(id)
                && inproc_sessions::session_started(
                before,
                after,
                name@,
                SpawnView {
                    shell: shell@,
                    args: genesis::texts(args@),
                    cwd: before.env.cwd,
                    env: Seq::empty(),
                    yurai: YuraiView::Unknown,
                    size: inproc_model::at_least_one(size),
                },
                shutai::derived_source(shutai::opt_source(source), conn),
                inherited,
                around.now,
                (id, plan),
            )
        },
        Request::KillSession(id) => if before.sessions().dom().contains(id.0) {
            step matches Step::Close { panes, reflow } && reflow is None && after
                == before.kill_session(id) && layout::pane_numbers(panes@) == inproc_model::let_go(
                table::ordered(before.sessions()[id.0].panes.dom()),
                before.live,
            )
        } else {
            answered(step, WireErrorView::NoSuchSession(id)) && after == before
        },
        Request::NewWindow { session, name, shell, args } => {
            let spawn = SpawnView {
                shell: shell@,
                args: genesis::texts(args@),
                cwd: before.env.cwd,
                env: Seq::empty(),
                yurai: YuraiView::Unknown,
                size: (80, 24),
            };
            if before.sessions().dom().contains(session.0) {
                step matches Step::Spawn { plan, what } && what matches Started::Window(w)
                    && inproc_sessions::window_started(
                    before,
                    after,
                    session,
                    name@,
                    spawn,
                    inherited,
                    around.now,
                    Ok((w, plan)),
                )
            } else {
                answered(step, WireErrorView::NoSuchSession(session)) && after == before
            }
        },
        Request::KillWindow(id) => match before.registry.window_owner(id) {
            Some(k) => step matches Step::Close { panes, reflow } && reflow is None && after
                == before.kill_window(k, id) && layout::pane_numbers(panes@)
                == inproc_model::let_go(
                before.sessions()[k].windows[id.0].layout.leaves(),
                before.live,
            ),
            None => answered(step, WireErrorView::NoSuchWindow(id)) && after == before,
        },
        Request::SplitPane { origin, direction, shell, args } => {
            let spawn = SpawnView {
                shell: shell@,
                args: genesis::texts(args@),
                cwd: before.env.cwd,
                env: Seq::empty(),
                yurai: YuraiView::Unknown,
                size: (80, 12),
            };
            ||| (step matches Step::Spawn { plan, what } && what matches Started::Pane {
                session,
                window,
                pane,
            } && pane == plan.pane && inproc_panes::pane_split(
                before,
                after,
                origin,
                direction,
                HALF,
                spawn,
                inherited,
                around.now,
                Ok((session, window, plan)),
            ))
            ||| (exists|e: ControlError|
                answered(step, wire::on_wire(#[trigger] e@)) && inproc_panes::pane_split(
                    before,
                    after,
                    origin,
                    direction,
                    HALF,
                    spawn,
                    inherited,
                    around.now,
                    Err(e),
                ))
        },
        Request::KillPane(id) => {
            ||| (step matches Step::Close { panes, reflow } && exists|k: inproc_panes::PaneKilled|
                k.gone@ == panes@ && k.reflow == reflow && #[trigger] inproc_panes::pane_killed(
                    before,
                    after,
                    id,
                    Ok(k),
                ))
            ||| (exists|e: ControlError|
                answered(step, wire::on_wire(#[trigger] e@)) && inproc_panes::pane_killed(
                    before,
                    after,
                    id,
                    Err(e),
                ))
        },
        Request::ResizePane { id, direction, delta_cells } => after == before && match before.registry.locate(
            id,
        ) {
            None => answered(step, WireErrorView::NoSuchPane(id)),
            Some((sid, wid)) => if !before.sessions().dom().contains(sid.0) {
                answered(step, WireErrorView::NoSuchSession(sid))
            } else if !before.sessions()[sid.0].windows.dom().contains(wid.0) {
                answered(step, WireErrorView::NoSuchWindow(wid))
            } else {
                let size = before.sessions()[sid.0].windows[wid.0].size_cells;
                step == (Step::MoveDivider {
                    session: sid,
                    window: wid,
                    pane: id,
                    direction,
                    delta_cells,
                    span: if direction.spec_orientation() is Vertical {
                        size.0
                    } else {
                        size.1
                    },
                })
            },
        },
        Request::ApplyLayout { window, kind } => after == before && match before.registry.window_owner(
            window,
        ) {
            None => answered(step, WireErrorView::NoSuchWindow(window)),
            Some(k) => step matches Step::Arrange { window: w, kind: how, panes } && w == window
                && how == kind && layout::pane_numbers(panes@)
                == before.sessions()[k].windows[window.0].layout.leaves(),
        },
        Request::SendKeys { id, bytes } => after == before && match before.shown_pane(id) {
            None => answered(step, WireErrorView::NoSuchPane(id)),
            Some(p) => if p.input_policy is Locked {
                answered(step, WireErrorView::Rejected(inproc_model::locked_text(id)))
            } else if !before.live.contains(id.0) {
                answered(step, WireErrorView::NoSuchPane(id))
            } else {
                step matches Step::Write { pane, bytes: b } && pane == id && b@ == bytes@
            },
        },
        Request::PaneResizeAbsolute { id, cols, rows } => after == before
            && if before.live.contains(id.0) {
            step == (Step::Resize { pane: id, cols, rows })
        } else {
            answered(step, WireErrorView::NoSuchPane(id))
        },
        _ => false,
    }
}

/// The step is this refusal.
pub open spec fn answered(step: Step, e: WireErrorView) -> bool {
    step matches Step::Reply(r) && wire::refused(r, e)
}

/// The bits of one half, the share of either pane of a split.
pub const HALF: u32 = 0x3f00_0000;

/// What a request leads to.
pub open spec fn dispatched(
    before: MuxView,
    after: MuxView,
    req: Request,
    conn: Option<SourceView>,
    around: Surroundings,
    step: Step,
) -> bool {
    if is_read(req) {
        &&& after == before
        &&& step matches Step::Reply(r)
        &&& read_answer(before, req, around, r)
    } else if is_change(req) {
        step matches Step::Reply(r) && change_answer(before, after, req, around.now, r)
    } else if is_fixed(req) {
        &&& after == before
        &&& step matches Step::Reply(r)
        &&& fixed_answer(req, around.version@, r)
    } else {
        terminal_step(before, after, req, conn, around, step)
    }
}

fn refuse(e: ControlError) -> (r: Response)
    ensures
        wire::refused(r, wire::on_wire(e@)),
{
    Response::Refused(WireError::from_control(e))
}

fn reject(text: &str) -> (r: Response)
    ensures
        wire::refused(r, WireErrorView::Rejected(text@)),
{
    Response::Refused(WireError::rejected(text))
}

fn read(inproc: &InProcess, req: &Request, around: &Surroundings) -> (r: Option<Response>)
    ensures
        match r {
            Some(resp) => is_read(*req) && read_answer(inproc@, *req, *around, resp),
            None => !is_read(*req),
        },
{
    Some(
        match req {
            Request::ListSessions => Response::Sessions(inproc.list_sessions()),
            Request::GetSession(id) => match inproc.get_session(*id) {
                Ok(s) => Response::Session(s),
                Err(e) => refuse(e),
            },
            Request::GetWindow(id) => match inproc.get_window(*id) {
                Ok((session, window)) => Response::Window { session, window },
                Err(e) => refuse(e),
            },
            Request::GetPane(id) => match inproc.get_pane(*id) {
                Ok(p) => Response::Pane(p),
                Err(e) => refuse(e),
            },
            Request::GetFreio => Response::Freio {
                sessions: inproc.freio_state(),
                braked: Vec::new(),
                unbrakable: Vec::new(),
            },
            Request::PaneSubscriberCount(id) => match inproc.pane_subscriber_count(*id) {
                Ok(n) => Response::SubscriberCount(n),
                Err(e) => refuse(e),
            },
            Request::ExportPaneRecording(id) => match inproc.export_pane_recording(
                *id,
                around.shell.as_str(),
                around.now,
            ) {
                Ok(s) => Response::CastJson(s),
                Err(e) => refuse(e),
            },
            Request::PaneRecordingStatus(id) => match inproc.pane_recording_status(*id) {
                Ok((enabled, events)) => Response::RecordingStatus { enabled, events },
                Err(e) => refuse(e),
            },
            Request::PaneBlocksList { pane, since_index, limit } => match inproc.pane_blocks_list(
                *pane,
                *since_index,
                *limit,
            ) {
                Ok(v) => Response::Blocks(v),
                Err(e) => refuse(e),
            },
            Request::PaneBlockAt { pane, index } => match inproc.pane_block_at(*pane, *index) {
                Ok(b) => Response::Block(b),
                Err(e) => refuse(e),
            },
            Request::PaneBlocksStatus(id) => match inproc.pane_blocks_status(*id) {
                Ok((total, in_progress)) => Response::BlocksStatus { total, in_progress },
                Err(e) => refuse(e),
            },
            Request::PaneSnapshot(id) => match inproc.pane_snapshot(*id) {
                Ok(s) => Response::PaneSnapshot(s),
                Err(e) => refuse(e),
            },
            _ => {
                return None;
            },
        },
    )
}

fn done(r: Result<(), ControlError>) -> (resp: Response)
    ensures
        match r {
            Ok(()) => resp is Done,
            Err(e) => wire::refused(resp, wire::on_wire(e@)),
        },
{
    match r {
        Ok(()) => Response::Done,
        Err(e) => refuse(e),
    }
}

fn change(inproc: &mut InProcess, req: &Request, now: u64) -> (r: Option<Response>)
    ensures
        match r {
            Some(resp) => is_change(*req) && change_answer(
                old(inproc)@,
                final(inproc)@,
                *req,
                now,
                resp,
            ),
            None => !is_change(*req) && final(inproc)@ == old(inproc)@,
        },
{
    Some(
        match req {
            Request::RenameSession { session, new_name } => done(
                inproc.rename_session(*session, new_name.as_str()),
            ),
            Request::SelectWindow(id) => done(inproc.select_window(*id)),
            Request::SelectPane(id) => done(inproc.select_pane(*id)),
            Request::SetFreio { target, engaged } => {
                let (braked, unbrakable) = inproc.set_freio(*target, *engaged, now);
                let sessions = inproc.freio_state();
                Response::Freio { sessions, braked, unbrakable }
            },
            Request::SetInputPolicy { id, policy } => done(inproc.set_input_policy(*id, *policy)),
            Request::StartPaneRecording(id) => done(inproc.enable_pane_recording(*id)),
            Request::StopPaneRecording(id) => done(inproc.disable_pane_recording(*id)),
            Request::SetSpawnEnv(env) => {
                inproc.set_spawn_env(env.clone());
                Response::Done
            },
            _ => {
                return None;
            },
        },
    )
}

fn fixed(req: &Request, version: &str) -> (r: Option<Response>)
    ensures
        match r {
            Some(resp) => is_fixed(*req) && fixed_answer(*req, version@, resp),
            None => !is_fixed(*req),
        },
{
    Some(
        match req {
            Request::Subscribe(_) => reject(
                "Subscribe must be handled by serve_connection (push mode), not dispatch",
            ),
            Request::SubscribeConfigChange => reject(
                "SubscribeConfigChange must be handled by serve_connection (push mode), not dispatch",
            ),
            Request::Authenticate(_) => Response::Done,
            Request::IdentifyClient(_) => Response::Done,
            Request::Hello { .. } => Response::Hello(DaemonHello::for_this_build(version)),
            Request::GetConfig => reject(
                "config requests must be handled by dispatch_with_config (needs LiveConfig)",
            ),
            Request::ReloadConfig => reject(
                "config requests must be handled by dispatch_with_config (needs LiveConfig)",
            ),
            Request::SetConfig(_) => reject(
                "config requests must be handled by dispatch_with_config (needs LiveConfig)",
            ),
            _ => {
                return None;
            },
        },
    )
}

/// What a request leads to, on a connection of which nothing is known.
pub fn dispatch(inproc: &mut InProcess, req: Request, around: &Surroundings) -> (step: Step)
    ensures
        dispatched(old(inproc)@, final(inproc)@, req, None, *around, step),
{
    dispatch_with_shutai(inproc, req, around, None)
}

/// What a request leads to, on a connection whose actor may be known.
pub fn dispatch_with_shutai(
    inproc: &mut InProcess,
    req: Request,
    around: &Surroundings,
    actor: Option<&Shutai>,
) -> (step: Step)
    ensures
        dispatched(
            old(inproc)@,
            final(inproc)@,
            req,
            shutai::conn_source(actor),
            *around,
            step,
        ),
{
    match read(inproc, &req, around) {
        Some(r) => {
            return Step::Reply(r);
        },
        None => {},
    }
    match fixed(&req, around.version.as_str()) {
        Some(r) => {
            return Step::Reply(r);
        },
        None => {},
    }
    match change(inproc, &req, around.now) {
        Some(r) => {
            return Step::Reply(r);
        },
        None => {},
    }
    terminal(inproc, req, around, actor)
}

fn terminal(
    inproc: &mut InProcess,
    req: Request,
    around: &Surroundings,
    actor: Option<&Shutai>,
) -> (step: Step)
    requires
        !is_read(req),
        !is_change(req),
        !is_fixed(req),
    ensures
        terminal_step(
            old(inproc)@,
            final(inproc)@,
            req,
            shutai::conn_source(actor),
            *around,
            step,
        ),
{
    match req {
        Request::NewSession { name, shell, source, size_cells, args } => {
            let source = derive_session_source(source, actor);
            let size: (u16, u16) = match size_cells {
                Some(s) => s,
                None => (80, 24),
            };
            let (id, plan) = inproc.new_session_with_source_and_size(
                name.as_str(),
                shell.as_str(),
                &args,
                source,
                size,
                clone_pairs(&around.inherited),
                around.now,
            );
            Step::Spawn { plan, what: Started::Session(id) }
        },
        Request::KillSession(id) => match inproc.kill_session(id) {
            Ok(panes) => Step::Close { panes, reflow: None },
            Err(e) => Step::Reply(refuse(e)),
        },
        Request::NewWindow { session, name, shell, args } => {
            let r = inproc.new_window(
                session,
                name.as_str(),
                shell.as_str(),
                &args,
                clone_pairs(&around.inherited),
                around.now,
            );
            match r {
                Ok((w, plan)) => Step::Spawn { plan, what: Started::Window(w) },
                Err(e) => Step::Reply(refuse(e)),
            }
        },
        Request::KillWindow(id) => match inproc.kill_window(id) {
            Ok(panes) => Step::Close { panes, reflow: None },
            Err(e) => Step::Reply(refuse(e)),
        },
        Request::SplitPane { origin, direction, shell, args } => {
            let r = inproc.split_pane(
                origin,
                direction,
                HALF,
                shell.as_str(),
                &args,
                clone_pairs(&around.inherited),
                around.now,
            );
            match r {
                Ok((session, window, plan)) => {
                    let pane = plan.pane;
                    Step::Spawn { plan, what: Started::Pane { session, window, pane } }
                },
                Err(e) => {
                    let ghost ge = e;
                    let step = Step::Reply(refuse(e));
                    assert(answered(step, wire::on_wire(ge@)));
                    step
                },
            }
        },
        Request::KillPane(id) => match inproc.kill_pane(id) {
            Ok(k) => {
                let ghost gk = k;
                let step = Step::Close { panes: k.gone, reflow: k.reflow };
                assert(inproc_panes::pane_killed(old(inproc)@, inproc@, id, Ok(gk)));
                step
            },
            Err(e) => {
                let ghost ge = e;
                let step = Step::Reply(refuse(e));
                assert(answered(step, wire::on_wire(ge@)));
                step
            },
        },
        Request::ResizePane { id, direction, delta_cells } => match inproc.resize_pane(
            id,
            direction,
        ) {
            Ok((session, window, span)) => Step::MoveDivider {
                session,
                window,
                pane: id,
                direction,
                delta_cells,
                span,
            },
            Err(e) => Step::Reply(refuse(e)),
        },
        Request::ApplyLayout { window, kind } => match inproc.get_window(window) {
            Ok((_, w)) => Step::Arrange { window, kind, panes: w.layout.panes() },
            Err(e) => Step::Reply(refuse(e)),
        },
        Request::SendKeys { id, bytes } => match inproc.send_keys(id) {
            Ok(()) => Step::Write { pane: id, bytes },
            Err(e) => Step::Reply(refuse(e)),
        },
        Request::PaneResizeAbsolute { id, cols, rows } => match inproc.pane_resize_absolute(id) {
            Ok(()) => Step::Resize { pane: id, cols, rows },
            Err(e) => Step::Reply(refuse(e)),
        },
        _ => Step::Reply(Response::Done),
    }
}

/// The answer once a program was started, or was not; and the panes whose
/// terminals are to be closed. A started program whose pane is gone by now is
/// not kept. A session whose program did not start is gone; a window or a pane
/// stays.
pub fn spawn_done(
    inproc: &mut InProcess,
    what: Started,
    pane: PaneId,
    outcome: Result<(), String>,
) -> (r: (Response, Vec<PaneId>))
    ensures
        match outcome {
            Ok(()) => {
                &&& final(inproc)@ == old(inproc)@.spawned(pane)
                &&& r.1@ == (if old(inproc)@.registry.owner(pane) is Some {
                    Seq::empty()
                } else {
                    seq![pane]
                })
                &&& r.0 == match what {
                    Started::Session(id) => Response::SessionId(id),
                    Started::Window(id) => Response::WindowId(id),
                    Started::Pane { pane: p, .. } => Response::PaneId(p),
                }
            },
            Err(e) => {
                &&& wire::refused(r.0, WireErrorView::Internal(e@))
                &&& final(inproc)@ == match what {
                    Started::Session(id) => old(inproc)@.session_failed(id),
                    _ => old(inproc)@,
                }
                &&& layout::pane_numbers(r.1@) == match what {
                    Started::Session(id) => old(inproc)@.closed_with(id),
                    _ => Seq::empty(),
                }
            },
        },
{
    match outcome {
        Ok(()) => {
            let kept = inproc.spawned(pane);
            let resp = match what {
                Started::Session(id) => Response::SessionId(id),
                Started::Window(id) => Response::WindowId(id),
                Started::Pane { pane: p, .. } => Response::PaneId(p),
            };
            let mut gone: Vec<PaneId> = Vec::new();
            if !kept {
                gone.push(pane);
            }
            assert(!kept ==> gone@ =~= seq![pane]);
            (resp, gone)
        },
        Err(e) => {
            let gone: Vec<PaneId> = match what {
                Started::Session(id) => inproc.new_session_failed(id),
                _ => Vec::new(),
            };
            assert(!(what is Session) ==> layout::pane_numbers(gone@) =~= Seq::<u64>::empty());
            (Response::Refused(WireError::Internal(e)), gone)
        },
    }
}

/// The answer once bytes were written to a terminal, or were not.
pub fn write_done(outcome: Result<(), String>) -> (r: Response)
    ensures
        match outcome {
            Ok(()) => r is Done,
            Err(e) => wire::refused(r, WireErrorView::Transport(e@)),
        },
{
    match outcome {
        Ok(()) => Response::Done,
        Err(e) => Response::Refused(WireError::Transport(e)),
    }
}

/// The answer once a terminal was resized, or was not; the record and the screen
/// of the pane follow it.
pub fn resize_done(
    inproc: &mut InProcess,
    pane: PaneId,
    cols: u16,
    rows: u16,
    outcome: Result<(), String>,
) -> (r: Response)
    ensures
        match outcome {
            Ok(()) => r is Done && final(inproc)@ == old(inproc)@.resized(pane, cols, rows),
            Err(e) => wire::refused(r, WireErrorView::Internal(e@)) && final(inproc)@ == old(
                inproc,
            )@,
        },
{
    match outcome {
        Ok(()) => {
            inproc.pane_resized(pane, cols, rows);
            Response::Done
        },
        Err(e) => Response::Refused(WireError::Internal(e)),
    }
}

} // verus!
