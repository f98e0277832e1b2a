//! What holds of every request.
use crate::dispatch;
use crate::dispatch::{Step, Surroundings};
use crate::freio::Freio;
use crate::genesis;
use crate::id::{PaneId, WindowId};
use crate::inproc_laws;
use crate::inproc_model;
use crate::inproc_model::MuxView;
use crate::lookup;
use crate::mux_laws;
use crate::pane::TearPaneView;
use crate::registry::{RegistryView, SpawnView};
use crate::session::{SourceView, TearSessionView};
use crate::table;
use crate::wire::{Request, Response};
use crate::yurai::YuraiView;
use vstd::prelude::*;

verus! {

/// A refusal.
pub open spec fn is_refusal(step: Step) -> bool {
    step matches Step::Reply(r) && r is Refused
}

/// A request that only asks, and one that is none of the multiplexer's
/// business, changes nothing.
pub proof fn lemma_questions_change_nothing(
    before: MuxView,
    after: MuxView,
    req: Request,
    conn: Option<SourceView>,
    around: Surroundings,
    step: Step,
)
    requires
        dispatch::dispatched(before, after, req, conn, around, step),
        dispatch::is_read(req) || dispatch::is_fixed(req),
    ensures
        after == before,
        step is Reply,
{
}

proof fn lemma_located(m: MuxView, pane: PaneId)
    requires
        mux_laws::sound(m),
        m.registry.locate(pane) is Some,
    ensures
        ({
            let (sid, wid) = m.registry.locate(pane)->0;
            m.sessions().dom().contains(sid.0) && m.shows(sid, wid, pane)
        }),
{
    inproc_laws::lemma_located_is_shown(m, pane);
}

/// A request that is refused changes nothing.
pub proof fn lemma_refusals_change_nothing(
    before: MuxView,
    after: MuxView,
    req: Request,
    conn: Option<SourceView>,
    around: Surroundings,
    step: Step,
)
    requires
        mux_laws::sound(before),
        dispatch::dispatched(before, after, req, conn, around, step),
        is_refusal(step),
    ensures
        after == before,
{
    match req {
        Request::SplitPane { origin, .. } => {
            if before.registry.locate(origin) is Some {
                lemma_located(before, origin);
            }
        },
        Request::KillPane(id) => {
            if before.registry.locate(id) is Some {
                lemma_located(before, id);
            }
        },
        _ => {},
    }
}

/// What a program of a request that names no origin starts with.
pub open spec fn plain_spawn(
    m: MuxView,
    shell: Seq<char>,
    args: Seq<String>,
    size: (u16, u16),
) -> SpawnView {
    SpawnView {
        shell,
        args: genesis::texts(args),
        cwd: m.env.cwd,
        env: Seq::empty(),
        yurai: YuraiView::Unknown,
        size,
    }
}

/// The numbers that a request would give out are not taken.
pub open spec fn numbers_are_free(m: MuxView, req: Request, now: u64) -> bool {
    match req {
        Request::NewSession { name, .. } => !m.sessions().dom().contains(
            m.registry.fresh_session(name@, now).id.0,
        ),
        Request::NewWindow { session, name, shell, .. } => {
            let s = m.sessions()[session.0];
            &&& !s.windows.dom().contains(m.registry.next_window(session, name@, now).0)
            &&& !s.panes.dom().contains(m.registry.first_pane(session, name@, shell@, now).0)
            &&& s.active_window == WindowId(0) ==> !s.windows.dom().contains(0)
        },
        Request::SplitPane { origin, shell, .. } => match m.registry.locate(origin) {
            Some((sid, wid)) => !m.sessions()[sid.0].panes.dom().contains(
                m.split_pane_id(wid, shell@, now).0,
            ),
            None => true,
        },
        _ => true,
    }
}

proof fn lemma_window_holder(sessions: Map<u64, TearSessionView>, keys: Seq<u64>, window: WindowId)
    ensures
        match lookup::window_holder(sessions, keys, window) {
            Some(k) => keys.contains(k) && sessions[k].windows.dom().contains(window.0),
            None => true,
        },
    decreases keys.len(),
{
    if keys.len() > 0 {
        lemma_window_holder(sessions, keys.drop_first(), window);
        assert(keys.contains(keys[0]));
        assert forall|k: u64| keys.drop_first().contains(k) implies keys.contains(k) by {
            let i = choose|i: int| 0 <= i < keys.drop_first().len() && keys.drop_first()[i] == k;
            assert(keys[i + 1] == k);
        }
    }
}

proof fn lemma_window_owner(m: MuxView, window: WindowId)
    requires
        m.sessions().dom().finite(),
    ensures
        match m.registry.window_owner(window) {
            Some(k) => m.sessions().dom().contains(k) && m.sessions()[k].windows.dom().contains(
                window.0,
            ),
            None => true,
        },
{
    lemma_window_holder(m.sessions(), table::ordered(m.sessions().dom()), window);
    inproc_laws::lemma_ordered_lists(m.sessions().dom());
}

/// The multiplexer is the same but for what is recorded and inherited.
proof fn lemma_aside_stays_sound(m: MuxView, n: MuxView)
    requires
        mux_laws::sound(m),
        n.registry == m.registry,
        n.grids == m.grids,
        n.live == m.live,
        n.readers == m.readers,
    ensures
        mux_laws::sound(n),
{
    assert forall|p: u64| mux_laws::recorded(m, p) implies #[trigger] mux_laws::recorded(n, p) by {
        let j = choose|j: u64| #[trigger]
            m.sessions().dom().contains(j) && m.sessions()[j].panes.dom().contains(p);
        assert(n.sessions().dom().contains(j));
    }
    assert forall|p: u64| #[trigger] n.grids.dom().contains(p) implies mux_laws::recorded(n, p) by {
        assert(m.grids.dom().contains(p));
    }
    assert forall|p: u64| #[trigger] n.live.contains(p) implies mux_laws::recorded(n, p) by {
        assert(m.live.contains(p));
    }
    assert forall|p: u64| #[trigger] n.readers.dom().contains(p) implies mux_laws::recorded(
        n,
        p,
    ) by {
        assert(m.readers.dom().contains(p));
    }
}

proof fn lemma_windows_are_tidy(m: MuxView, k: u64)
    requires
        mux_laws::sound(m),
        m.sessions().dom().contains(k),
    ensures
        inproc_laws::tidy(m.sessions()[k]),
        forall|w: u64| #[trigger]
            m.sessions()[k].windows.dom().contains(w) ==> inproc_laws::tidy_window(
                m.sessions()[k],
                w,
            ),
{
}

proof fn lemma_policy_stays_sound(m: MuxView, k: u64, pane: PaneId, record: TearPaneView)
    requires
        mux_laws::sound(m),
        m.sessions().dom().contains(k),
        m.sessions()[k].panes.dom().contains(pane.0),
        record.id == m.sessions()[k].panes[pane.0].id,
    ensures
        mux_laws::sound(
            m.with_session(
                k,
                TearSessionView {
                    panes: m.sessions()[k].panes.insert(pane.0, record),
                    ..m.sessions()[k]
                },
            ),
        ),
{
    let s = m.sessions()[k];
    let t = TearSessionView { panes: s.panes.insert(pane.0, record), ..s };
    lemma_windows_are_tidy(m, k);
    assert(t.panes.dom() =~= s.panes.dom());
    mux_laws::lemma_edit_stays_sound(m, k, t);
}

proof fn lemma_brake_stays_sound(m: MuxView, keys: Seq<u64>, brake: Freio)
    requires
        mux_laws::sound(m),
        forall|i: int| 0 <= i < keys.len() ==> m.sessions().dom().contains(#[trigger] keys[i]),
    ensures
        mux_laws::sound(
            MuxView {
                registry: RegistryView {
                    sessions: inproc_model::with_brake(m.sessions(), keys, brake),
                    ..m.registry
                },
                ..m
            },
        ),
        inproc_model::with_brake(m.sessions(), keys, brake).dom() == m.sessions().dom(),
    decreases keys.len(),
{
    if keys.len() == 0 {
        lemma_aside_stays_sound(
            m,
            MuxView {
                registry: RegistryView {
                    sessions: inproc_model::with_brake(m.sessions(), keys, brake),
                    ..m.registry
                },
                ..m
            },
        );
    } else {
        let rest = keys.drop_last();
        let k = keys.last();
        assert forall|i: int| 0 <= i < rest.len() implies m.sessions().dom().contains(
            #[trigger] rest[i],
        ) by {
            assert(rest[i] == keys[i]);
        }
        lemma_brake_stays_sound(m, rest, brake);
        let braked = inproc_model::with_brake(m.sessions(), rest, brake);
        let n = MuxView {
            registry: RegistryView { sessions: braked, ..m.registry },
            ..m
        };
        assert(m.sessions().dom().contains(keys[keys.len() - 1]));
        lemma_windows_are_tidy(n, k);
        let s = TearSessionView { freio: brake, ..n.sessions()[k] };
        mux_laws::lemma_edit_stays_sound(n, k, s);
        let goal = MuxView {
            registry: RegistryView {
                sessions: inproc_model::with_brake(m.sessions(), keys, brake),
                ..m.registry
            },
            ..m
        };
        assert(goal =~= n.with_session(k, s));
        assert(goal.sessions().dom() =~= m.sessions().dom());
    }
}

proof fn lemma_change_stays_sound(
    before: MuxView,
    after: MuxView,
    req: Request,
    now: u64,
    r: Response,
)
    requires
        mux_laws::sound(before),
        dispatch::change_answer(before, after, req, now, r),
    ensures
        mux_laws::sound(after),
{
    match req {
        Request::RenameSession { session, new_name } => {
            if before.sessions().dom().contains(session.0) {
                mux_laws::lemma_front_and_name_stay_sound(
                    before,
                    session.0,
                    WindowId(0),
                    new_name@,
                );
            }
        },
        Request::SelectWindow(id) => {
            lemma_window_owner(before, id);
            if let Some(k) = before.registry.window_owner(id) {
                mux_laws::lemma_front_and_name_stay_sound(before, k, id, Seq::empty());
            }
        },
        Request::SelectPane(id) => {
            if let Some((sid, wid)) = before.registry.locate(id) {
                lemma_located(before, id);
                mux_laws::lemma_focus_stays_sound(before, sid, wid, id);
            }
        },
        Request::SetFreio { target, engaged } => {
            let keys = inproc_model::brake_targets(before.sessions(), target);
            let brake = if engaged {
                Freio::Engaged { at_unix: now }
            } else {
                Freio::Released
            };
            inproc_laws::lemma_ordered_lists(before.sessions().dom());
            assert forall|i: int| 0 <= i < keys.len() implies before.sessions().dom().contains(
                #[trigger] keys[i],
            ) by {
                assert(keys.contains(keys[i]));
            }
            lemma_brake_stays_sound(before, keys, brake);
        },
        Request::SetInputPolicy { id, policy } => {
            mux_laws::lemma_owner_has_the_record(before, id);
            if let Some(k) = before.registry.owner(id) {
                let p = before.sessions()[k].panes[id.0];
                lemma_policy_stays_sound(
                    before,
                    k,
                    id,
                    TearPaneView { input_policy: policy, ..p },
                );
            }
        },
        _ => {
            lemma_aside_stays_sound(before, after);
        },
    }
}

/// Whatever is asked, a sound multiplexer stays sound, as long as the numbers it
/// gives out are not taken.
pub proof fn lemma_requests_keep_the_multiplexer_sound(
    before: MuxView,
    after: MuxView,
    req: Request,
    conn: Option<SourceView>,
    around: Surroundings,
    step: Step,
)
    requires
        mux_laws::sound(before),
        numbers_are_free(before, req, around.now),
        dispatch::dispatched(before, after, req, conn, around, step),
    ensures
        mux_laws::sound(after),
{
    if dispatch::is_change(req) {
        if let Step::Reply(r) = step {
            lemma_change_stays_sound(before, after, req, around.now, r);
        }
    } else if !dispatch::is_read(req) && !dispatch::is_fixed(req) {
        lemma_terminal_stays_sound(before, after, req, conn, around, step);
    }
}

proof fn lemma_terminal_stays_sound(
    before: MuxView,
    after: MuxView,
    req: Request,
    conn: Option<SourceView>,
    around: Surroundings,
    step: Step,
)
    requires
        mux_laws::sound(before),
        numbers_are_free(before, req, around.now),
        dispatch::terminal_step(before, after, req, conn, around, step),
    ensures
        mux_laws::sound(after),
{
    let now = around.now;
    match req {
        Request::NewSession { name, shell, source, size_cells, args } => {
            let size = match size_cells {
                Some(s) => s,
                None => (80u16, 24u16),
            };
            mux_laws::lemma_new_session_stays_sound(
                before,
                name@,
                plain_spawn(before, shell@, args@, inproc_model::at_least_one(size)),
                crate::shutai::derived_source(crate::shutai::opt_source(source), conn),
                now,
            );
        },
        Request::KillSession(id) => {
            if before.sessions().dom().contains(id.0) {
                mux_laws::lemma_kill_session_stays_sound(before, id);
            }
        },
        Request::NewWindow { session, name, shell, args } => {
            if before.sessions().dom().contains(session.0) {
                mux_laws::lemma_new_window_stays_sound(
                    before,
                    session,
                    name@,
                    plain_spawn(before, shell@, args@, (80, 24)),
                    now,
                );
            }
        },
        Request::KillWindow(id) => {
            lemma_window_owner(before, id);
            if let Some(k) = before.registry.window_owner(id) {
                mux_laws::lemma_kill_window_stays_sound(before, k, id);
            }
        },
        Request::SplitPane { origin, direction, shell, args } => {
            if let Some((sid, wid)) = before.registry.locate(origin) {
                lemma_located(before, origin);
                mux_laws::lemma_split_stays_sound(
                    before,
                    sid,
                    wid,
                    origin,
                    direction,
                    dispatch::HALF,
                    plain_spawn(before, shell@, args@, (80, 12)),
                    now,
                );
            }
        },
        Request::KillPane(id) => {
            if let Some((sid, wid)) = before.registry.locate(id) {
                lemma_located(before, id);
                mux_laws::lemma_close_pane_stays_sound(before, sid, wid, id);
            }
        },
        _ => {},
    }
}

} // verus!
