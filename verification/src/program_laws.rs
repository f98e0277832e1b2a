//! What requests do to brakes, panes and programs, and what is told of them.
use crate::daemon_state;
use crate::digest;
use crate::dispatch::{dispatched, Started, Step, Surroundings};
use crate::env_laws;
use crate::freio::Freio;
use crate::genesis;
use crate::id::{PaneId, SessionId, WindowId};
use crate::inproc_laws::lemma_ordered_lists;
use crate::inproc_model;
use crate::inproc_model::MuxView;
use crate::layout::{Direction, LayoutNode};
use crate::registry;
use crate::registry::{RegistryView, SpawnView};
use crate::request_laws::is_refused;
use crate::session::{SourceView, TearSessionView, TearWindowView};
use crate::spawn_env;
use crate::spawn_env::value_of;
use crate::spawn_laws;
use crate::table;
use crate::text;
use crate::wire::{Request, Response};
use crate::yurai::YuraiView;
use vstd::prelude::*;

verus! {

/// The brake is set on the sessions that are meant, all of them or one, and on no
/// other; nothing else of any session changes.
pub proof fn lemma_the_brake_is_set(
    before: MuxView,
    after: MuxView,
    target: Option<SessionId>,
    engaged: bool,
    conn: Option<SourceView>,
    around: Surroundings,
    step: Step,
    k: u64,
)
    requires
        dispatched(before, after, Request::SetFreio { target, engaged }, conn, around, step),
        before.sessions().dom().finite(),
        before.sessions().dom().contains(k),
    ensures
        after == (MuxView {
            registry: RegistryView { sessions: after.registry.sessions, ..before.registry },
            ..before
        }),
        after.sessions().dom() == before.sessions().dom(),
        after.sessions()[k] == (TearSessionView {
            freio: after.sessions()[k].freio,
            ..before.sessions()[k]
        }),
        ({
            let meant = target is None || target == Some(SessionId(k));
            &&& meant && engaged ==> after.sessions()[k].freio == (Freio::Engaged {
                at_unix: around.now,
            })
            &&& meant && !engaged ==> after.sessions()[k].freio == Freio::Released
            &&& !meant ==> after.sessions()[k].freio == before.sessions()[k].freio
        }),
        step matches Step::Reply(r) && r is Freio,
{
    let m = before.sessions();
    let keys = inproc_model::brake_targets(m, target);
    let brake = if engaged {
        Freio::Engaged { at_unix: around.now }
    } else {
        Freio::Released
    };
    lemma_ordered_lists(m.dom());
    if target is None {
        let all = table::ordered(m.dom());
        assert(all.contains(k));
        assert forall|i: int| 0 <= i < keys.len() implies m.dom().contains(#[trigger] keys[i]) by {
            assert(all.contains(all[i]));
        }
    } else {
        assert(keys.contains(k) <==> target == Some(SessionId(k))) by {
            if target == Some(SessionId(k)) {
                assert(keys[0] == k);
            }
        }
    }
    spawn_laws::lemma_a_brake_is_set_where_it_is_meant(m, keys, brake, k);
}

/// A pane that is closed is gone with its terminal, its screen, its readers and
/// its recording, and so is its record; what other panes have stays.
pub proof fn lemma_a_closed_pane_is_gone(
    before: MuxView,
    after: MuxView,
    pane: PaneId,
    conn: Option<SourceView>,
    around: Surroundings,
    step: Step,
    sid: SessionId,
    wid: WindowId,
    p: u64,
)
    requires
        dispatched(before, after, Request::KillPane(pane), conn, around, step),
        before.registry.locate(pane) == Some((sid, wid)),
        before.sessions().dom().contains(sid.0),
        before.shows(sid, wid, pane),
        p != pane.0,
    ensures
        step is Close,
        !after.live.contains(pane.0),
        !after.grids.dom().contains(pane.0),
        !after.readers.dom().contains(pane.0),
        !after.recordings.dom().contains(pane.0),
        !after.sessions()[sid.0].panes.dom().contains(pane.0),
        after.live.contains(p) == before.live.contains(p),
        before.grids.dom().contains(p) ==> after.grids.dom().contains(p) && after.grids[p]
            == before.grids[p],
        after.sessions()[sid.0].panes.dom().contains(p)
            == before.sessions()[sid.0].panes.dom().contains(p),
        after.sessions()[sid.0].panes[p] == before.sessions()[sid.0].panes[p],
{
    spawn_laws::lemma_a_closed_pane_leaves_the_others(before, sid, wid, pane, p);
}

/// A pane that is nowhere shown is neither closed nor split.
pub proof fn lemma_a_pane_that_is_not_shown_is_refused(
    before: MuxView,
    after: MuxView,
    req: Request,
    conn: Option<SourceView>,
    around: Surroundings,
    step: Step,
    pane: PaneId,
)
    requires
        dispatched(before, after, req, conn, around, step),
        before.registry.locate(pane) is None,
        req == Request::KillPane(pane) || (req matches Request::SplitPane { origin, .. } && origin
            == pane),
    ensures
        is_refused(step),
        after == before,
{
}

/// A split starts the program that was asked for beside the pane, on the side that
/// was asked for and with half of its room; the new pane is the one that the window
/// acts on.
pub proof fn lemma_a_pane_is_split(
    before: MuxView,
    after: MuxView,
    origin: PaneId,
    direction: Direction,
    shell: String,
    args: Vec<String>,
    conn: Option<SourceView>,
    around: Surroundings,
    step: Step,
    sid: SessionId,
    wid: WindowId,
)
    requires
        dispatched(
            before,
            after,
            Request::SplitPane { origin, direction, shell, args },
            conn,
            around,
            step,
        ),
        before.registry.locate(origin) == Some((sid, wid)),
        before.sessions().dom().contains(sid.0),
        before.shows(sid, wid, origin),
    ensures
        step matches Step::Spawn { plan, what } && what is Pane,
        step matches Step::Spawn { plan, what } ==> {
            let s = after.sessions()[sid.0];
            let pane = plan@.pane;
            &&& what == (Started::Pane { session: sid, window: wid, pane })
            &&& plan@.shell == shell@
            &&& plan@.cwd == before.env.cwd
            &&& s.panes.dom().contains(pane.0)
            &&& s.panes[pane.0].shell == shell@
            &&& s.panes[pane.0].size_cells == plan@.size
            &&& s.panes[pane.0].state is Running
            &&& s.windows[wid.0].active_pane == pane
            &&& s.windows[wid.0].layout == before.sessions()[sid.0].windows[wid.0].layout.split(
                origin,
                pane,
                direction,
                0x3f00_0000,
            )
        },
{
    let spawn = SpawnView {
        shell: shell@,
        args: genesis::texts(args@),
        cwd: before.env.cwd,
        env: Seq::empty(),
        yurai: YuraiView::Unknown,
        size: (80, 12),
    };
    spawn_laws::lemma_a_split_adds_one_pane(
        before,
        sid,
        wid,
        origin,
        direction,
        0x3f00_0000,
        spawn,
        around.now,
    );
}

/// A new window has the name it was asked for and starts the program that was
/// asked for.
pub proof fn lemma_a_window_is_started(
    before: MuxView,
    after: MuxView,
    session: SessionId,
    name: String,
    shell: String,
    args: Vec<String>,
    conn: Option<SourceView>,
    around: Surroundings,
    step: Step,
)
    requires
        dispatched(
            before,
            after,
            Request::NewWindow { session, name, shell, args },
            conn,
            around,
            step,
        ),
    ensures
        !before.sessions().dom().contains(session.0) ==> is_refused(step) && after == before,
        before.sessions().dom().contains(session.0) ==> (step matches Step::Spawn { plan, what }
            && (what matches Started::Window(w) && {
            let s = after.sessions()[session.0];
            let pane = plan@.pane;
            &&& plan@.shell == shell@
            &&& plan@.size == (80u16, 24u16)
            &&& s.windows.dom().contains(w.0)
            &&& s.windows[w.0].name == name@
            &&& s.windows[w.0].layout.leaves() == seq![pane.0]
            &&& s.panes.dom().contains(pane.0)
            &&& s.panes[pane.0].shell == shell@
            &&& s.panes[pane.0].size_cells == plan@.size
        })),
{
}

/// A greeting is answered with the version and with what this daemon can do.
pub proof fn lemma_a_greeting_is_answered(
    before: MuxView,
    after: MuxView,
    req: Request,
    conn: Option<SourceView>,
    around: Surroundings,
    step: Step,
)
    requires
        dispatched(before, after, req, conn, around, step),
        req is Hello,
    ensures
        after == before,
        step matches Step::Reply(r) && (r matches Response::Hello(h) && h@.version
            == around.version@ && h@.capabilities.contains("spawn-args"@)),
{
    reveal_with_fuel(crate::capability::advertised_names, 2);
    let all = crate::capability::Capability::spec_all();
    assert(all.drop_last() =~= Seq::empty());
    let names = crate::capability::advertised_names(all);
    assert(names[0] == "spawn-args"@);
}

/// A command that is asked for by its number is the one with that number, where
/// the pane has it.
pub proof fn lemma_a_command_is_found_by_its_number(
    before: MuxView,
    after: MuxView,
    pane: PaneId,
    index: u64,
    conn: Option<SourceView>,
    around: Surroundings,
    step: Step,
)
    requires
        dispatched(before, after, Request::PaneBlockAt { pane, index }, conn, around, step),
    ensures
        after == before,
        ({
            let kept = before.grids[pane.0].grid.blocks.blocks;
            let there = before.grids.dom().contains(pane.0) && exists|i: int|
                0 <= i < kept.len() && (#[trigger] kept[i]).index == index;
            &&& there ==> (step matches Step::Reply(r) && (r matches Response::Block(b) && b@.index
                == index && kept.contains(b@)))
            &&& !there ==> is_refused(step)
        }),
{
}

/// What is exported of a pane is empty where nothing was captured, and else what
/// the recording is as text; a pane that is not there is refused.
pub proof fn lemma_a_recording_is_exported(
    before: MuxView,
    after: MuxView,
    pane: PaneId,
    conn: Option<SourceView>,
    around: Surroundings,
    step: Step,
)
    requires
        dispatched(before, after, Request::ExportPaneRecording(pane), conn, around, step),
    ensures
        after == before,
        ({
            let held = before.recordings.dom().contains(pane.0);
            let some = held && before.recordings[pane.0].events.len() > 0;
            &&& some ==> (step matches Step::Reply(r) && (r matches Response::CastJson(t) && t@
                == before.recordings[pane.0].cast(around.shell@, around.now)))
            &&& !some && (held || before.shown_pane(pane) is Some) ==> (step matches Step::Reply(r)
                && (r matches Response::CastJson(t) && t@.len() == 0))
            &&& !held && before.shown_pane(pane) is None ==> is_refused(step)
        }),
{
}

/// Every session's brake is told, by the number of the session.
pub proof fn lemma_the_brakes_are_told(
    before: MuxView,
    after: MuxView,
    conn: Option<SourceView>,
    around: Surroundings,
    step: Step,
    k: u64,
)
    requires
        dispatched(before, after, Request::GetFreio, conn, around, step),
        before.sessions().dom().finite(),
        before.sessions().dom().contains(k),
    ensures
        after == before,
        step matches Step::Reply(r) && (r matches Response::Freio { sessions, .. }
            && sessions@.contains((before.sessions()[k].id, before.sessions()[k].freio))),
{
    let keys = table::ordered(before.sessions().dom());
    lemma_ordered_lists(before.sessions().dom());
    assert(keys.contains(k));
    let i = choose|i: int| 0 <= i < keys.len() && keys[i] == k;
    if let Step::Reply(Response::Freio { sessions, .. }) = step {
        assert(sessions@[i] == (before.sessions()[k].id, before.sessions()[k].freio));
    }
}

// ── programs ──

/// The program of a pane is told which pane it runs in and of which session: the
/// numbers can be read back, where the embedder does not name them otherwise.
pub proof fn lemma_a_program_is_told_its_pane(
    m: MuxView,
    pane: PaneId,
    shell: Seq<char>,
    args: Seq<Seq<char>>,
    size: (u16, u16),
    inherited: Seq<(Seq<char>, Seq<char>)>,
    k: u64,
)
    requires
        m.registry.owner(pane) == Some(k),
        value_of(m.env.added(), "TEAR_PANE_ID"@) is None,
        value_of(m.env.added(), "TEAR_SESSION_ID"@) is None,
        value_of(m.env.added(), "TEAR_SESSION_NAME"@) is None,
    ensures
        ({
            let plan = m.plan(pane, shell, args, size, inherited);
            &&& plan.pane == pane
            &&& plan.shell == shell
            &&& plan.args == args
            &&& plan.size == size
            &&& plan.cwd == m.env.cwd
            &&& value_of(plan.env, "TEAR_PANE_ID"@) matches Some(t) && digest::hex_number(t)
                == Ok::<int, digest::HexError>(pane.0 as int)
            &&& value_of(plan.env, "TEAR_SESSION_ID"@) matches Some(t) && digest::hex_number(t)
                == Ok::<int, digest::HexError>(m.sessions()[k].id.0 as int)
            &&& value_of(plan.env, "TEAR_SESSION_NAME"@) == Some(m.sessions()[k].name)
        }),
{
    let id = m.sessions()[k].id;
    let sid = digest::hex(id.0 as nat, 16);
    let name = m.sessions()[k].name;
    let vars = spawn_env::pane_vars(sid, name, pane, m.socket);
    digest::lemma_hex_reads_back(id.0 as nat);
    env_laws::lemma_the_variables_of_a_pane(sid, name, pane, m.socket);
    reveal_strlit("TERM");
    reveal_strlit("COLORTERM");
    reveal_strlit("PATH");
    reveal_strlit("TEAR_PANE_ID");
    reveal_strlit("TEAR_SESSION_ID");
    reveal_strlit("TEAR_SESSION_NAME");
    assert("TERM"@.len() == 4 && "COLORTERM"@.len() == 9 && "PATH"@.len() == 4);
    assert("TEAR_PANE_ID"@.len() == 12 && "TEAR_SESSION_ID"@.len() == 15
        && "TEAR_SESSION_NAME"@.len() == 17);
    spawn_env::lemma_pane_vars_reach_the_child(inherited, vars, m.env, "TEAR_PANE_ID"@);
    spawn_env::lemma_pane_vars_reach_the_child(inherited, vars, m.env, "TEAR_SESSION_ID"@);
    spawn_env::lemma_pane_vars_reach_the_child(inherited, vars, m.env, "TEAR_SESSION_NAME"@);
}

/// A program that was started has a terminal where its pane is still there; else
/// nothing is kept of it.
pub proof fn lemma_a_started_program_has_a_terminal(m: MuxView, pane: PaneId, p: u64)
    ensures
        ({
            let w = m.spawned(pane);
            &&& w.registry == m.registry
            &&& w.recordings == m.recordings
            &&& m.registry.owner(pane) is Some ==> w.live.contains(pane.0) && w.grids == m.grids
                && w.readers == m.readers
            &&& m.registry.owner(pane) is None ==> !w.live.contains(pane.0)
                && !w.grids.dom().contains(pane.0) && !w.readers.dom().contains(pane.0)
            &&& p != pane.0 ==> w.live.contains(p) == m.live.contains(p)
            &&& p != pane.0 && m.grids.dom().contains(p) ==> w.grids.dom().contains(p)
                && w.grids[p] == m.grids[p]
        }),
{
}

/// What a program writes is shown on its screen and held by its recording, where it
/// has them.
pub proof fn lemma_what_a_program_writes_is_shown_and_held(
    m: MuxView,
    pane: PaneId,
    bytes: Seq<u8>,
    now: u64,
    ts_ms: u64,
)
    ensures
        ({
            let w = m.bytes(pane, bytes, now, ts_ms);
            &&& m.grids.dom().contains(pane.0) ==> w.grids[pane.0] == m.grids[pane.0].feed(
                bytes,
                now,
            )
            &&& m.recordings.dom().contains(pane.0) && m.recordings[pane.0].started is Some
                && m.recordings[pane.0].max_events >= 1 ==> {
                &&& w.recordings[pane.0].events.len() >= 1
                &&& w.recordings[pane.0].events.last().bytes == bytes
                &&& w.recordings[pane.0].events.last().ts_ms == ts_ms
            }
            &&& m.recordings.dom().contains(pane.0) && m.recordings[pane.0].started is None
                ==> w.recordings[pane.0] == m.recordings[pane.0]
            &&& !m.recordings.dom().contains(pane.0) ==> w.recordings == m.recordings
        }),
{
}

/// Where the window in front is closed, one of those that are left comes to the
/// front, the one with the least number; else the window in front stays.
pub proof fn lemma_the_window_in_front_once_one_is_closed(s: TearSessionView, window: WindowId)
    requires
        s.windows.dom().finite(),
    ensures
        ({
            let front = inproc_model::front_without(s, window);
            let left = s.windows.remove(window.0).dom();
            &&& s.active_window != window ==> front == s.active_window
            &&& s.active_window == window && (exists|k: u64| #[trigger] left.contains(k)) ==> {
                &&& left.contains(front.0)
                &&& forall|k: u64| #[trigger] left.contains(k) ==> front.0 <= k
            }
        }),
{
    let left = s.windows.remove(window.0).dom();
    let keys = table::ordered(left);
    lemma_ordered_lists(left);
    if exists|k: u64| #[trigger] left.contains(k) {
        let k = choose|k: u64| #[trigger] left.contains(k);
        assert(keys.contains(k));
        assert(keys.contains(keys[0]));
        assert forall|j: u64| #[trigger] left.contains(j) implies keys[0] <= j by {
            assert(keys.contains(j));
            let i = choose|i: int| 0 <= i < keys.len() && keys[i] == j;
            if i > 0 {
                assert(keys[0] < keys[i]);
            }
        }
    }
}

/// Two sessions, windows or panes that are made one after the other are made of
/// different seeds, whatever they are called.
pub proof fn lemma_seeds_differ_by_their_count(
    name: Seq<char>,
    session: SessionId,
    window: WindowId,
    now: u64,
    a: u64,
    b: u64,
)
    requires
        a != b,
    ensures
        registry::session_seed(name, now, a) != registry::session_seed(name, now, b),
        registry::window_seed(session, name, now, a) != registry::window_seed(
            session,
            name,
            now,
            b,
        ),
        registry::pane_seed(window, name, now, a) != registry::pane_seed(window, name, now, b),
        registry::bump(a) != a,
{
    text::lemma_decimal_reads_back(a as nat);
    text::lemma_decimal_reads_back(b as nat);
    let x = text::decimal(a as nat);
    let y = text::decimal(b as nat);
    let mid = ":"@ + text::decimal(now as nat) + ":"@;
    let s = "session:"@ + name;
    let w = "window:"@ + digest::hex(session.0 as nat, 16) + ":"@ + name;
    let p = "pane:"@ + digest::hex(window.0 as nat, 16) + ":"@ + name;
    lemma_same_front(s + mid, x, y);
    lemma_same_front(w + mid, x, y);
    lemma_same_front(p + mid, x, y);
    assert(registry::session_seed(name, now, a) =~= s + mid + x);
    assert(registry::session_seed(name, now, b) =~= s + mid + y);
    assert(registry::window_seed(session, name, now, a) =~= w + mid + x);
    assert(registry::window_seed(session, name, now, b) =~= w + mid + y);
    assert(registry::pane_seed(window, name, now, a) =~= p + mid + x);
    assert(registry::pane_seed(window, name, now, b) =~= p + mid + y);
}

proof fn lemma_same_front(front: Seq<char>, x: Seq<char>, y: Seq<char>)
    requires
        x != y,
    ensures
        front + x != front + y,
{
    if front + x == front + y {
        assert((front + x).skip(front.len() as int) =~= x);
        assert((front + y).skip(front.len() as int) =~= y);
    }
}

// ── what goes and what stays ──

/// A session whose first program did not start is gone, and nothing is left of its
/// panes; where there is no such session nothing changes.
pub proof fn lemma_a_session_that_did_not_start_is_gone(m: MuxView, id: SessionId, pane: u64)
    requires
        m.sessions().dom().contains(id.0) ==> m.sessions()[id.0].panes.dom().finite(),
    ensures
        !m.sessions().dom().contains(id.0) ==> m.session_failed(id) == m,
        m.sessions().dom().contains(id.0) ==> {
            let after = m.session_failed(id);
            &&& after.sessions() == m.sessions().remove(id.0)
            &&& m.sessions()[id.0].panes.dom().contains(pane) ==> !after.grids.dom().contains(pane)
                && !after.live.contains(pane) && !after.readers.dom().contains(pane)
                && !after.recordings.dom().contains(pane)
            &&& !m.sessions()[id.0].panes.dom().contains(pane) ==> after.live.contains(pane)
                == m.live.contains(pane) && after.grids.dom().contains(pane)
                == m.grids.dom().contains(pane) && after.recordings.dom().contains(pane)
                == m.recordings.dom().contains(pane)
        },
{
    if m.sessions().dom().contains(id.0) {
        let d = m.sessions()[id.0].panes.dom();
        lemma_ordered_lists(d);
        let keys = table::ordered(d);
        assert(keys.contains(pane) <==> d.contains(pane));
    }
}

/// A session whose programs have all ended is gone, with the screens, terminals and
/// readers of its panes; what was recorded of them stays. Any other session stays as
/// it is.
pub proof fn lemma_a_dead_session_leaves_its_recordings(m: MuxView, id: SessionId, pane: u64)
    requires
        m.sessions().dom().contains(id.0),
        m.sessions()[id.0].panes.dom().finite(),
    ensures
        !m.sessions()[id.0].dead() ==> m.reap(id) == m,
        m.sessions()[id.0].dead() ==> {
            let after = m.reap(id);
            &&& after.sessions() == m.sessions().remove(id.0)
            &&& after.recordings == m.recordings
            &&& m.sessions()[id.0].panes.dom().contains(pane) ==> !after.grids.dom().contains(pane)
                && !after.live.contains(pane) && !after.readers.dom().contains(pane)
            &&& !m.sessions()[id.0].panes.dom().contains(pane) ==> after.live.contains(pane)
                == m.live.contains(pane) && after.grids.dom().contains(pane)
                == m.grids.dom().contains(pane) && after.readers.dom().contains(pane)
                == m.readers.dom().contains(pane)
        },
{
    let d = m.sessions()[id.0].panes.dom();
    lemma_ordered_lists(d);
    let keys = table::ordered(d);
    assert(keys.contains(pane) <==> d.contains(pane));
}

/// A session of which some other pane is read stays when a program of it ends, and so
/// does one of which the pane itself was read.
pub proof fn lemma_a_session_that_is_read_stays(
    m: MuxView,
    pane: PaneId,
    code: i32,
    k: u64,
    p: u64,
)
    requires
        m.registry.owner(pane) == Some(k),
        m.sessions().dom().contains(k),
        m.sessions()[k].id.0 == k,
        m.sessions()[k].panes.dom().contains(pane.0),
        m.sessions()[k].panes.dom().contains(p),
        m.readers.dom().contains(p),
        m.readers[p].senders.len() > 0,
    ensures
        m.exit(pane, code).sessions().dom().contains(k),
        m.doomed(pane, code) is None,
{
    if p != pane.0 {
        let after = m.marked(pane, code).closed(pane, code, true);
        assert(after.sessions()[k].panes.dom().contains(p));
        assert(after.readers.dom().contains(p) && after.readers[p].senders.len() > 0);
        assert(after.read_elsewhere(m.sessions()[k].id, pane));
    }
}

/// A session goes with its last program where nobody reads any of its panes.
pub proof fn lemma_a_session_goes_with_its_last_program(
    m: MuxView,
    pane: PaneId,
    code: i32,
    k: u64,
)
    requires
        m.registry.owner(pane) == Some(k),
        m.sessions().dom().contains(k),
        m.sessions()[k].id.0 == k,
        m.sessions()[k].panes.dom().contains(pane.0),
        forall|p: u64| #[trigger]
            m.sessions()[k].panes.dom().contains(p) && p != pane.0 ==> m.sessions()[k].panes[p].state
                is Exited,
        forall|p: u64| #[trigger]
            m.sessions()[k].panes.dom().contains(p) && m.readers.dom().contains(p)
                ==> m.readers[p].senders.len() == 0,
    ensures
        !m.exit(pane, code).sessions().dom().contains(k),
{
    let marked = m.marked(pane, code);
    let s = marked.sessions()[k];
    assert(s.panes.dom() =~= m.sessions()[k].panes.dom());
    assert forall|p: u64| s.panes.dom().contains(p) implies (#[trigger] s.panes[p]).state
        is Exited by {
        assert(m.sessions()[k].panes.dom().contains(p));
    }
    assert(s.all_exited());
    let after = marked.closed(pane, code, true);
    assert(after.sessions() == marked.sessions());
    assert(m.sessions()[k].panes.dom().contains(pane.0));
    if after.read_elsewhere(m.sessions()[k].id, pane) {
        let p = choose|p: u64|
            p != pane.0 && #[trigger] after.sessions()[k].panes.dom().contains(p)
                && after.readers.dom().contains(p) && after.readers[p].senders.len() > 0;
        assert(m.sessions()[k].panes.dom().contains(p));
        assert(m.readers.dom().contains(p));
    }
    assert(m.doomed(pane, code) == Some(m.sessions()[k].id));
    assert(s.panes.dom() != Set::<u64>::empty()) by {
        assert(s.panes.dom().contains(pane.0));
    }
}

/// A window that is arranged anew keeps its name, its size and the pane it acts on;
/// no other window and no pane changes.
pub proof fn lemma_an_arranged_window_keeps_the_rest(
    m: MuxView,
    k: u64,
    window: WindowId,
    tree: LayoutNode,
    other: u64,
)
    requires
        m.sessions().dom().contains(k),
        m.sessions()[k].windows.dom().contains(window.0),
    ensures
        ({
            let after = m.set_layout(k, window, tree);
            let s = after.sessions()[k];
            let old = m.sessions()[k];
            &&& s.windows[window.0].layout == tree
            &&& s.windows[window.0].active_pane == old.windows[window.0].active_pane
            &&& s.windows[window.0].name == old.windows[window.0].name
            &&& s.windows[window.0].size_cells == old.windows[window.0].size_cells
            &&& s.panes == old.panes
            &&& s.active_window == old.active_window
            &&& s.windows.dom() =~= old.windows.dom()
            &&& other != window.0 ==> s.windows[other] == old.windows[other]
            &&& other != k ==> after.sessions()[other] == m.sessions()[other]
            &&& after.grids == m.grids
            &&& after.live == m.live
            &&& after.readers == m.readers
            &&& after.recordings == m.recordings
        }),
{
}

proof fn lemma_window_with(windows: Map<u64, TearWindowView>, keys: Seq<u64>, pane: PaneId, w: u64)
    requires
        keys.contains(w),
        windows[w].layout.leaves().contains(pane.0),
    ensures
        registry::window_with(windows, keys, pane) is Some,
    decreases keys.len(),
{
    if !windows[keys[0]].layout.leaves().contains(pane.0) {
        let rest = keys.drop_first();
        let i = choose|i: int| 0 <= i < keys.len() && keys[i] == w;
        assert(rest[i - 1] == w);
        lemma_window_with(windows, rest, pane, w);
    }
}

proof fn lemma_located_among(
    sessions: Map<u64, TearSessionView>,
    keys: Seq<u64>,
    pane: PaneId,
    k: u64,
    w: u64,
)
    requires
        keys.contains(k),
        sessions[k].panes.dom().contains(pane.0),
        sessions[k].windows.dom().finite(),
        sessions[k].windows.dom().contains(w),
        sessions[k].windows[w].layout.leaves().contains(pane.0),
    ensures
        registry::locate_among(sessions, keys, pane) is Some,
    decreases keys.len(),
{
    if keys[0] == k {
        let ws = table::ordered(sessions[k].windows.dom());
        lemma_ordered_lists(sessions[k].windows.dom());
        assert(ws.contains(w));
        lemma_window_with(sessions[k].windows, ws, pane, w);
    } else {
        let rest = keys.drop_first();
        let i = choose|i: int| 0 <= i < keys.len() && keys[i] == k;
        assert(rest[i - 1] == k);
        lemma_located_among(sessions, rest, pane, k, w);
    }
}

/// A pane that a window of a session shows is always located.
pub proof fn lemma_a_pane_that_is_shown_is_located(m: MuxView, pane: PaneId, k: u64, w: u64)
    requires
        m.sessions().dom().finite(),
        m.sessions().dom().contains(k),
        m.sessions()[k].panes.dom().contains(pane.0),
        m.sessions()[k].windows.dom().finite(),
        m.sessions()[k].windows.dom().contains(w),
        m.sessions()[k].windows[w].layout.leaves().contains(pane.0),
    ensures
        m.registry.locate(pane) is Some,
{
    let keys = table::ordered(m.sessions().dom());
    lemma_ordered_lists(m.sessions().dom());
    assert(keys.contains(k));
    lemma_located_among(m.sessions(), keys, pane, k, w);
}

/// A session among `keys` has a pane that a brake holds, or whose origin is unknown.
pub open spec fn is_braked(
    sessions: Map<u64, TearSessionView>,
    keys: Seq<u64>,
    held: bool,
    p: u64,
) -> bool {
    exists|i: int|
        0 <= i < keys.len() && sessions[#[trigger] keys[i]].panes.dom().contains(p) && if held {
            sessions[keys[i]].panes[p].yurai is Automation
        } else {
            sessions[keys[i]].panes[p].yurai == YuraiView::Unknown
        }
}

/// The panes that are told as braked are those of automations in the sessions that
/// were braked, and those told as out of reach are those whose origin is unknown.
pub proof fn lemma_the_braked_panes(
    sessions: Map<u64, TearSessionView>,
    keys: Seq<u64>,
    held: bool,
    p: u64,
)
    requires
        forall|i: int|
            0 <= i < keys.len() ==> (#[trigger] sessions[keys[i]]).panes.dom().finite(),
    ensures
        inproc_model::braked_panes(sessions, keys, held).contains(p) <==> is_braked(
            sessions,
            keys,
            held,
            p,
        ),
    decreases keys.len(),
{
    if keys.len() > 0 {
        let front = keys.drop_last();
        assert forall|i: int| 0 <= i < front.len() implies (
        #[trigger] sessions[front[i]]).panes.dom().finite() by {
            assert(sessions[keys[i]].panes.dom().finite());
        }
        lemma_the_braked_panes(sessions, front, held, p);
        let last = keys.len() - 1;
        assert(sessions[keys[last]].panes.dom().finite());
        let panes = sessions[keys.last()].panes;
        let ks = table::ordered(panes.dom());
        lemma_ordered_lists(panes.dom());
        spawn_laws::lemma_panes_by_origin(panes, ks, held, p);
        let a = inproc_model::braked_panes(sessions, front, held);
        let b = inproc_model::panes_by_origin(panes, ks, held);
        let all = inproc_model::braked_panes(sessions, keys, held);
        assert(all == a + b);
        assert(ks.contains(p) <==> panes.dom().contains(p));
        if all.contains(p) {
            let i = choose|i: int| 0 <= i < all.len() && all[i] == p;
            if i < a.len() {
                assert(a[i] == p);
                let j = choose|j: int|
                    0 <= j < front.len() && sessions[#[trigger] front[j]].panes.dom().contains(p)
                        && if held {
                        sessions[front[j]].panes[p].yurai is Automation
                    } else {
                        sessions[front[j]].panes[p].yurai == YuraiView::Unknown
                    };
                assert(keys[j] == front[j]);
            } else {
                assert(b[i - a.len()] == p);
                assert(sessions[keys[last]].panes.dom().contains(p));
            }
        }
        if is_braked(sessions, keys, held, p) {
            let j = choose|j: int|
                0 <= j < keys.len() && sessions[#[trigger] keys[j]].panes.dom().contains(p)
                    && if held {
                    sessions[keys[j]].panes[p].yurai is Automation
                } else {
                    sessions[keys[j]].panes[p].yurai == YuraiView::Unknown
                };
            if j < front.len() {
                assert(front[j] == keys[j]);
                let i = choose|i: int| 0 <= i < a.len() && a[i] == p;
                assert(all[i] == p);
            } else {
                let i = choose|i: int| 0 <= i < b.len() && b[i] == p;
                assert(all[a.len() + i] == p);
            }
        }
    }
}

// ── questions about the daemon ──

/// The daemon tells how many sessions it has and how long it runs; it knows four
/// questions and refuses every other by its name.
pub proof fn lemma_questions_about_the_daemon(
    m: MuxView,
    started: u64,
    now: u64,
    path: Seq<Seq<char>>,
    r: Result<daemon_state::Answer, Seq<char>>,
)
    requires
        daemon_state::answered(m, started, now, path, r),
        m.sessions().dom().finite(),
        path.len() > 0,
    ensures
        path[0] == "sessions"@ ==> (r matches Ok(daemon_state::Answer::Sessions {
            count,
            sessions,
        }) && count == m.sessions().dom().len() && sessions@.len() == count),
        path[0] == "panes"@ ==> r is Ok && r->Ok_0 is Panes,
        path[0] == "socket"@ ==> r is Ok && r->Ok_0 is Socket,
        path[0] == "process"@ ==> (r matches Ok(daemon_state::Answer::Process {
            started_at_unix_ms,
            uptime_ms,
        }) && started_at_unix_ms == started && (now >= started ==> started + uptime_ms == now) && (
        now < started ==> uptime_ms == 0)),
        path[0] != "sessions"@ && path[0] != "panes"@ && path[0] != "socket"@ && path[0]
            != "process"@ ==> r == Err::<daemon_state::Answer, Seq<char>>(path[0]),
{
    let keys = table::ordered(m.sessions().dom());
    lemma_ordered_lists(m.sessions().dom());
    table::lemma_lists_len(keys, m.sessions().dom());
    reveal_strlit("sessions");
    reveal_strlit("panes");
    reveal_strlit("socket");
    reveal_strlit("process");
    assert("sessions"@.len() == 8 && "panes"@.len() == 5 && "socket"@.len() == 6 && "process"@.len()
        == 7);
    if let Ok(daemon_state::Answer::Sessions { count, sessions }) = r {
        assert(daemon_state::summaries_view(sessions@).len() == sessions@.len());
    }
}

} // verus!
