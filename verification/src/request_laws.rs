//! What each request does: what it changes, what it leaves alone, and what it is
//! answered.
use crate::dispatch::{dispatched, Started, Step, Surroundings};
use crate::id::{PaneId, SessionId, WindowId};
use crate::inproc_laws::lemma_ordered_lists;
use crate::inproc_model::MuxView;
use crate::layout;
use crate::layout::{Direction, LayoutKind};
use crate::lookup;
use crate::pane::InputPolicy;
use crate::registry;
use crate::registry::RegistryView;
use crate::session::{SourceView, TearSessionView, TearWindowView};
use crate::spawn_env::SpawnEnv;
use crate::table;
use crate::wire::{Request, Response};
use vstd::prelude::*;

verus! {

// ── where things are found ──

proof fn lemma_holder(sessions: Map<u64, TearSessionView>, keys: Seq<u64>, pane: PaneId)
    ensures
        lookup::holder(sessions, keys, pane) matches Some(k) ==> keys.contains(k)
            && sessions[k].panes.dom().contains(pane.0),
        lookup::holder(sessions, keys, pane) is None ==> forall|k: u64| #[trigger]
            keys.contains(k) ==> !sessions[k].panes.dom().contains(pane.0),
    decreases keys.len(),
{
    if keys.len() > 0 {
        let rest = keys.drop_first();
        lemma_holder(sessions, rest, pane);
        assert(keys.contains(keys[0]));
        assert forall|k: u64| #[trigger] keys.contains(k) implies k == keys[0] || rest.contains(
            k,
        ) by {
            let i = choose|i: int| 0 <= i < keys.len() && keys[i] == k;
            if i > 0 {
                assert(rest[i - 1] == k);
            }
        }
        if let Some(k) = lookup::holder(sessions, rest, pane) {
            let i = choose|i: int| 0 <= i < rest.len() && rest[i] == k;
            assert(keys[i + 1] == k);
        }
    }
}

/// The session that has a pane is found, and where none is found none has it.
pub proof fn lemma_the_owner_of_a_pane(r: RegistryView, pane: PaneId)
    requires
        r.sessions.dom().finite(),
    ensures
        r.owner(pane) matches Some(k) ==> r.sessions.dom().contains(k)
            && r.sessions[k].panes.dom().contains(pane.0),
        r.owner(pane) is None ==> forall|k: u64| #[trigger]
            r.sessions.dom().contains(k) ==> !r.sessions[k].panes.dom().contains(pane.0),
{
    let keys = table::ordered(r.sessions.dom());
    lemma_ordered_lists(r.sessions.dom());
    lemma_holder(r.sessions, keys, pane);
    assert forall|k: u64| #[trigger] r.sessions.dom().contains(k) implies keys.contains(k) by {}
}

proof fn lemma_window_holder(
    sessions: Map<u64, TearSessionView>,
    keys: Seq<u64>,
    window: WindowId,
)
    ensures
        lookup::window_holder(sessions, keys, window) matches Some(k) ==> keys.contains(k)
            && sessions[k].windows.dom().contains(window.0),
        lookup::window_holder(sessions, keys, window) is None ==> forall|k: u64| #[trigger]
            keys.contains(k) ==> !sessions[k].windows.dom().contains(window.0),
    decreases keys.len(),
{
    if keys.len() > 0 {
        let rest = keys.drop_first();
        lemma_window_holder(sessions, rest, window);
        assert(keys.contains(keys[0]));
        assert forall|k: u64| #[trigger] keys.contains(k) implies k == keys[0] || rest.contains(
            k,
        ) by {
            let i = choose|i: int| 0 <= i < keys.len() && keys[i] == k;
            if i > 0 {
                assert(rest[i - 1] == k);
            }
        }
        if let Some(k) = lookup::window_holder(sessions, rest, window) {
            let i = choose|i: int| 0 <= i < rest.len() && rest[i] == k;
            assert(keys[i + 1] == k);
        }
    }
}

/// The session that has a window is found, and where none is found none has it.
pub proof fn lemma_the_owner_of_a_window(r: RegistryView, window: WindowId)
    requires
        r.sessions.dom().finite(),
    ensures
        r.window_owner(window) matches Some(k) ==> r.sessions.dom().contains(k)
            && r.sessions[k].windows.dom().contains(window.0),
        r.window_owner(window) is None ==> forall|k: u64| #[trigger]
            r.sessions.dom().contains(k) ==> !r.sessions[k].windows.dom().contains(window.0),
{
    let keys = table::ordered(r.sessions.dom());
    lemma_ordered_lists(r.sessions.dom());
    lemma_window_holder(r.sessions, keys, window);
    assert forall|k: u64| #[trigger] r.sessions.dom().contains(k) implies keys.contains(k) by {}
}

// ── what one session is asked ──

/// Nothing changed but one session.
pub open spec fn only_session_changed(before: MuxView, after: MuxView, k: u64) -> bool {
    &&& after == (MuxView {
        registry: RegistryView { sessions: after.registry.sessions, ..before.registry },
        ..before
    })
    &&& after.sessions().dom() =~= before.sessions().dom().insert(k)
    &&& forall|j: u64| j != k ==> #[trigger] after.sessions()[j] == before.sessions()[j]
}

/// The answer is a refusal.
pub open spec fn is_refused(step: Step) -> bool {
    step matches Step::Reply(r) && r is Refused
}

/// The request is done.
pub open spec fn is_done(step: Step) -> bool {
    step matches Step::Reply(r) && r is Done
}

/// Renaming a session changes its name and nothing else; a session that is not
/// there cannot be renamed.
pub proof fn lemma_a_session_is_renamed(
    before: MuxView,
    after: MuxView,
    session: SessionId,
    name: String,
    conn: Option<SourceView>,
    around: Surroundings,
    step: Step,
)
    requires
        dispatched(
            before,
            after,
            Request::RenameSession { session, new_name: name },
            conn,
            around,
            step,
        ),
    ensures
        before.sessions().dom().contains(session.0) ==> {
            &&& is_done(step)
            &&& only_session_changed(before, after, session.0)
            &&& after.sessions()[session.0].name == name@
            &&& after.sessions()[session.0] == (TearSessionView {
                name: after.sessions()[session.0].name,
                ..before.sessions()[session.0]
            })
        },
        !before.sessions().dom().contains(session.0) ==> is_refused(step) && after == before,
{
}

/// Selecting a window brings it to the front of its session and changes nothing
/// else.
pub proof fn lemma_a_window_comes_to_the_front(
    before: MuxView,
    after: MuxView,
    window: WindowId,
    conn: Option<SourceView>,
    around: Surroundings,
    step: Step,
)
    requires
        dispatched(before, after, Request::SelectWindow(window), conn, around, step),
    ensures
        before.registry.window_owner(window) matches Some(k) ==> {
            &&& is_done(step)
            &&& only_session_changed(before, after, k)
            &&& after.sessions()[k].active_window == window
            &&& after.sessions()[k] == (TearSessionView {
                active_window: after.sessions()[k].active_window,
                ..before.sessions()[k]
            })
        },
        before.registry.window_owner(window) is None ==> is_refused(step) && after == before,
{
}

/// Selecting a pane makes it the one that its window acts on, and changes nothing
/// else.
pub proof fn lemma_a_pane_is_selected(
    before: MuxView,
    after: MuxView,
    pane: PaneId,
    conn: Option<SourceView>,
    around: Surroundings,
    step: Step,
)
    requires
        dispatched(before, after, Request::SelectPane(pane), conn, around, step),
    ensures
        before.registry.locate(pane) is None ==> is_refused(step) && after == before,
        before.registry.locate(pane) is Some ==> is_done(step),
        before.registry.locate(pane) matches Some((sid, wid)) ==> (before.sessions().dom().contains(
            sid.0,
        ) && before.sessions()[sid.0].windows.dom().contains(wid.0) ==> {
            let old_window = before.sessions()[sid.0].windows[wid.0];
            let window = after.sessions()[sid.0].windows[wid.0];
            &&& only_session_changed(before, after, sid.0)
            &&& window.active_pane == pane
            &&& window == (TearWindowView { active_pane: window.active_pane, ..old_window })
            &&& after.sessions()[sid.0] == (TearSessionView {
                windows: before.sessions()[sid.0].windows.insert(wid.0, window),
                ..before.sessions()[sid.0]
            })
        }),
{
}

/// The policy of a pane is what it was set to, and nothing else of the pane or of
/// others changes.
pub proof fn lemma_a_policy_is_set(
    before: MuxView,
    after: MuxView,
    pane: PaneId,
    policy: InputPolicy,
    conn: Option<SourceView>,
    around: Surroundings,
    step: Step,
)
    requires
        dispatched(
            before,
            after,
            Request::SetInputPolicy { id: pane, policy },
            conn,
            around,
            step,
        ),
    ensures
        before.registry.owner(pane) is None ==> is_refused(step) && after == before,
        before.registry.owner(pane) matches Some(k) ==> {
            let p = after.sessions()[k].panes[pane.0];
            &&& is_done(step)
            &&& only_session_changed(before, after, k)
            &&& p.input_policy == policy
            &&& p == (crate::pane::TearPaneView {
                input_policy: p.input_policy,
                ..before.sessions()[k].panes[pane.0]
            })
            &&& after.sessions()[k] == (TearSessionView {
                panes: before.sessions()[k].panes.insert(pane.0, p),
                ..before.sessions()[k]
            })
        },
{
}

/// What programs are started with from now on; nothing else changes.
pub proof fn lemma_the_environment_of_later_programs(
    before: MuxView,
    after: MuxView,
    env: SpawnEnv,
    conn: Option<SourceView>,
    around: Surroundings,
    step: Step,
)
    requires
        dispatched(before, after, Request::SetSpawnEnv(env), conn, around, step),
    ensures
        is_done(step),
        after.env == env@,
        after == (MuxView { env: after.env, ..before }),
{
}

// ── recordings ──

/// A pane that is shown is recorded from now on, from nothing and over its size; a
/// recording that is stopped keeps what it has; no other pane's changes.
pub proof fn lemma_recordings_start_and_stop(
    before: MuxView,
    after: MuxView,
    pane: PaneId,
    on: bool,
    conn: Option<SourceView>,
    around: Surroundings,
    step: Step,
)
    requires
        dispatched(
            before,
            after,
            if on {
                Request::StartPaneRecording(pane)
            } else {
                Request::StopPaneRecording(pane)
            },
            conn,
            around,
            step,
        ),
    ensures
        on && before.shown_pane(pane) is None ==> is_refused(step) && after == before,
        !on && !before.recordings.dom().contains(pane.0) ==> is_refused(step) && after == before,
        after == (MuxView { recordings: after.recordings, ..before }),
        forall|j: u64|
            j != pane.0 ==> #[trigger] after.recordings.dom().contains(j)
                == before.recordings.dom().contains(j) && after.recordings[j]
                == before.recordings[j],
        on && before.shown_pane(pane) is Some ==> {
            &&& is_done(step)
            &&& after.recordings.dom().contains(pane.0)
            &&& after.recordings[pane.0].events.len() == 0
            &&& after.recordings[pane.0].anchor is Some
            &&& after.recordings[pane.0].cols == before.shown_pane(pane)->0.size_cells.0
            &&& after.recordings[pane.0].rows == before.shown_pane(pane)->0.size_cells.1
        },
        !on && before.recordings.dom().contains(pane.0) ==> {
            &&& is_done(step)
            &&& after.recordings[pane.0].events == before.recordings[pane.0].events
            &&& after.recordings[pane.0].anchor is None
        },
{
}

// ── questions ──

/// What is asked for is what is there: a session, a window with its session, a
/// pane, its screen, how often it is read, what is recorded of it and how many
/// commands it ran. What is not there is refused.
pub proof fn lemma_questions_are_answered(
    before: MuxView,
    after: MuxView,
    req: Request,
    conn: Option<SourceView>,
    around: Surroundings,
    step: Step,
)
    requires
        dispatched(before, after, req, conn, around, step),
    ensures
        req matches Request::GetSession(id) ==> if before.sessions().dom().contains(id.0) {
            step matches Step::Reply(r) && (r matches Response::Session(s) && s@
                == before.sessions()[id.0])
        } else {
            is_refused(step)
        },
        req matches Request::GetWindow(id) ==> if before.registry.window_owner(id) is Some {
            let k = before.registry.window_owner(id)->0;
            step matches Step::Reply(r) && (r matches Response::Window { session, window }
                && session == before.sessions()[k].id && window@
                == before.sessions()[k].windows[id.0])
        } else {
            is_refused(step)
        },
        req matches Request::GetPane(id) ==> if before.registry.owner(id) is Some {
            let k = before.registry.owner(id)->0;
            step matches Step::Reply(r) && (r matches Response::Pane(p) && p@
                == before.sessions()[k].panes[id.0])
        } else {
            is_refused(step)
        },
        req matches Request::PaneSnapshot(id) ==> if before.grids.dom().contains(id.0) {
            step matches Step::Reply(r) && (r matches Response::PaneSnapshot(s) && s@.cells
                == before.grids[id.0].grid.snapshot().cells && s@
                == before.grids[id.0].grid.snapshot())
        } else {
            is_refused(step)
        },
        req matches Request::PaneSubscriberCount(id) ==> (step matches Step::Reply(r) && (r
            matches Response::SubscriberCount(n) && (before.readers_of(id).senders.len() <= u32::MAX
            ==> n == before.readers_of(id).senders.len()))),
        req matches Request::PaneRecordingStatus(id) ==> (step matches Step::Reply(r) && (r
            matches Response::RecordingStatus { enabled, events } && (enabled ==> (
        before.recordings.dom().contains(id.0) && before.recordings[id.0].anchor is Some)) && (
        before.recordings.dom().contains(id.0) && before.recordings[id.0].anchor is Some
            ==> enabled) && (!before.recordings.dom().contains(id.0) ==> events == 0) && (
        before.recordings.dom().contains(id.0) && before.recordings[id.0].events.len() <= u32::MAX
            ==> events == before.recordings[id.0].events.len()))),
        req matches Request::PaneBlocksStatus(id) ==> if before.grids.dom().contains(id.0) {
            let b = before.grids[id.0].grid.blocks;
            step matches Step::Reply(r) && (r matches Response::BlocksStatus { total, in_progress }
                && (b.blocks.len() <= u32::MAX ==> total == b.blocks.len()) && (in_progress
                <==> b.current is Some))
        } else {
            is_refused(step)
        },
{
}

/// A session stands among those that are listed.
pub open spec fn among(v: Seq<TearSessionView>, s: TearSessionView) -> bool {
    exists|i: int| 0 <= i < v.len() && #[trigger] v[i] == s
}

/// A session is one of those that are there.
pub open spec fn is_one_of(m: Map<u64, TearSessionView>, s: TearSessionView) -> bool {
    exists|k: u64| #[trigger] m.dom().contains(k) && m[k] == s
}

/// All sessions are listed and no others, and an older one never stands behind a
/// newer one.
pub proof fn lemma_sessions_are_listed_by_age(
    before: MuxView,
    after: MuxView,
    conn: Option<SourceView>,
    around: Surroundings,
    step: Step,
)
    requires
        dispatched(before, after, Request::ListSessions, conn, around, step),
    ensures
        step matches Step::Reply(r) && r is Sessions,
        step matches Step::Reply(Response::Sessions(v)) ==> {
            let shown = registry::sessions_view(v@);
            &&& forall|k: u64| #[trigger]
                before.sessions().dom().contains(k) ==> among(shown, before.sessions()[k])
            &&& forall|i: int|
                0 <= i < shown.len() ==> is_one_of(before.sessions(), #[trigger] shown[i])
            &&& forall|i: int, j: int|
                0 <= i < j < shown.len() ==> (#[trigger] shown[i]).created_at_unix <= (
                #[trigger] shown[j]).created_at_unix
        },
{
    if let Step::Reply(Response::Sessions(v)) = step {
        let m = before.sessions();
        let shown = registry::sessions_view(v@);
        let keys = choose|keys: Seq<u64>| #[trigger]
            registry::oldest_first(m, keys) && shown == registry::listing(m, keys);
        assert forall|k: u64| #[trigger] m.dom().contains(k) implies among(shown, m[k]) by {
            assert(keys.contains(k));
            let i = choose|i: int| 0 <= i < keys.len() && keys[i] == k;
            assert(shown[i] == m[k]);
        }
        assert forall|i: int| 0 <= i < shown.len() implies is_one_of(m, #[trigger] shown[i]) by {
            assert(keys.contains(keys[i]));
            assert(m.dom().contains(keys[i]) && m[keys[i]] == shown[i]);
        }
        assert forall|i: int, j: int| 0 <= i < j < shown.len() implies (
        #[trigger] shown[i]).created_at_unix <= (#[trigger] shown[j]).created_at_unix by {
            assert(registry::listed_before(m, keys[i], keys[j]));
        }
    }
}

// ── terminals ──

/// Keys go to the terminal of the pane as they are, where the pane is shown, is
/// not locked and has a terminal; else they go nowhere. Nothing changes.
pub proof fn lemma_keys_go_to_their_pane(
    before: MuxView,
    after: MuxView,
    id: PaneId,
    bytes: Vec<u8>,
    conn: Option<SourceView>,
    around: Surroundings,
    step: Step,
)
    requires
        dispatched(before, after, Request::SendKeys { id, bytes }, conn, around, step),
    ensures
        after == before,
        ({
            let p = before.shown_pane(id);
            if p is Some && !(p->0.input_policy is Locked) && before.live.contains(id.0) {
                step matches Step::Write { pane, bytes: b } && pane == id && b@ == bytes@
            } else {
                is_refused(step)
            }
        }),
{
}

/// A terminal is resized to what was asked for, columns and rows.
pub proof fn lemma_a_terminal_is_resized(
    before: MuxView,
    after: MuxView,
    id: PaneId,
    cols: u16,
    rows: u16,
    conn: Option<SourceView>,
    around: Surroundings,
    step: Step,
)
    requires
        dispatched(
            before,
            after,
            Request::PaneResizeAbsolute { id, cols, rows },
            conn,
            around,
            step,
        ),
    ensures
        after == before,
        before.live.contains(id.0) ==> (step matches Step::Resize { pane, cols: c, rows: r }
            && pane == id && c == cols && r == rows),
        !before.live.contains(id.0) ==> is_refused(step),
{
}

/// A divider is moved by the cells that were asked for: across the width of the
/// window to the left and to the right, over its height up and down.
pub proof fn lemma_a_divider_is_moved(
    before: MuxView,
    after: MuxView,
    id: PaneId,
    direction: Direction,
    delta_cells: i16,
    conn: Option<SourceView>,
    around: Surroundings,
    step: Step,
)
    requires
        dispatched(
            before,
            after,
            Request::ResizePane { id, direction, delta_cells },
            conn,
            around,
            step,
        ),
    ensures
        after == before,
        before.registry.locate(id) is None ==> is_refused(step),
        step is MoveDivider || is_refused(step),
        step matches Step::MoveDivider {
            session,
            window,
            pane,
            direction: d,
            delta_cells: n,
            span,
        } ==> {
            let size = before.sessions()[session.0].windows[window.0].size_cells;
            &&& before.registry.locate(id) == Some((session, window))
            &&& pane == id
            &&& d == direction
            &&& n == delta_cells
            &&& direction is Left || direction is Right ==> span == size.0
            &&& direction is Above || direction is Below ==> span == size.1
        },
{
}

/// An arrangement is made of all panes of the window, in the order they have, and
/// in the way that was asked for.
pub proof fn lemma_a_window_is_arranged(
    before: MuxView,
    after: MuxView,
    window: WindowId,
    kind: LayoutKind,
    conn: Option<SourceView>,
    around: Surroundings,
    step: Step,
)
    requires
        dispatched(before, after, Request::ApplyLayout { window, kind }, conn, around, step),
    ensures
        after == before,
        before.registry.window_owner(window) is None ==> is_refused(step),
        before.registry.window_owner(window) matches Some(k) ==> (step matches Step::Arrange {
            window: w,
            kind: how,
            panes,
        } && w == window && how == kind && layout::pane_numbers(panes@)
            == before.sessions()[k].windows[window.0].layout.leaves()),
{
}

/// A session that is killed is gone, and the terminals that are closed are those
/// of its panes; a session that is not there cannot be killed.
pub proof fn lemma_a_killed_session_is_gone(
    before: MuxView,
    after: MuxView,
    id: SessionId,
    conn: Option<SourceView>,
    around: Surroundings,
    step: Step,
)
    requires
        dispatched(before, after, Request::KillSession(id), conn, around, step),
    ensures
        !before.sessions().dom().contains(id.0) ==> is_refused(step) && after == before,
        before.sessions().dom().contains(id.0) ==> {
            &&& step is Close
            &&& after.sessions() =~= before.sessions().remove(id.0)
        },
{
}

/// A window that is closed is gone from its session, with the panes it showed; the
/// other windows of the session stay, and so do all other sessions.
pub proof fn lemma_a_closed_window_is_gone(
    before: MuxView,
    after: MuxView,
    id: WindowId,
    conn: Option<SourceView>,
    around: Surroundings,
    step: Step,
)
    requires
        dispatched(before, after, Request::KillWindow(id), conn, around, step),
    ensures
        before.registry.window_owner(id) is None ==> is_refused(step) && after == before,
        before.registry.window_owner(id) matches Some(k) ==> {
            let gone = before.sessions()[k].windows[id.0].layout.leaves();
            &&& step is Close
            &&& after.sessions()[k].windows =~= before.sessions()[k].windows.remove(id.0)
            &&& forall|p: u64| #[trigger]
                after.sessions()[k].panes.dom().contains(p) <==> before.sessions()[k].panes.dom().contains(
                    p,
                ) && !gone.contains(p)
            &&& forall|p: u64| #[trigger]
                after.sessions()[k].panes.dom().contains(p) ==> after.sessions()[k].panes[p]
                    == before.sessions()[k].panes[p]
            &&& forall|p: u64| #[trigger]
                after.grids.dom().contains(p) <==> before.grids.dom().contains(p) && !gone.contains(
                    p,
                )
            &&& forall|p: u64| #[trigger]
                after.live.contains(p) <==> before.live.contains(p) && !gone.contains(p)
            &&& forall|j: u64| j != k ==> #[trigger] after.sessions()[j] == before.sessions()[j]
        },
{
}

/// A session is started with the program that was asked for, over the size that
/// was asked for or 80 by 24, and in the directory that programs are started in; it
/// is put down to who asked for it.
pub proof fn lemma_a_session_is_started(
    before: MuxView,
    after: MuxView,
    req: Request,
    conn: Option<SourceView>,
    around: Surroundings,
    step: Step,
)
    requires
        dispatched(before, after, req, conn, around, step),
        req is NewSession,
    ensures
        step matches Step::Spawn { plan, what } && what is Session,
        (req matches Request::NewSession { name, shell, source, size_cells, args } && (step
            matches Step::Spawn { plan, what } && (what matches Started::Session(id) && {
            let s = after.sessions()[id.0];
            let pane = plan@.pane;
            &&& after.sessions().dom().contains(id.0)
            &&& s.name == name@
            &&& s.created_at_unix == around.now
            &&& s.source == crate::shutai::derived_source(crate::shutai::opt_source(source), conn)
            &&& s.panes.dom().contains(pane.0)
            &&& s.panes[pane.0].shell == shell@
            &&& s.panes[pane.0].cwd == before.env.cwd
            &&& s.panes[pane.0].size_cells == plan@.size
            &&& plan@.shell == shell@
            &&& size_cells is None ==> plan@.size == (80u16, 24u16)
            &&& (size_cells matches Some(size) && size.0 > 0 && size.1 > 0) ==> plan@.size
                == size_cells->0
            &&& plan@.size.0 > 0 && plan@.size.1 > 0
        }))),
{
}

} // verus!
