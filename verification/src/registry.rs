//! Which sessions, windows and panes there are.
use crate::clock;
use crate::digest;
use crate::freio::Freio;
use crate::genesis;
use crate::id;
use crate::id::{PaneId, SessionId, WindowId};
use crate::layout::LayoutNode;
use crate::pane;
use crate::pane::{clone_pairs, clone_texts, InputPolicy, PaneState, TearPane, TearPaneView};
use crate::session::{
    SessionSource, SessionState, SourceView, TearSession, TearSessionView, TearWindow,
    TearWindowView, WindowState,
};
use crate::table;
use crate::table::Table;
use crate::text;
use crate::text::push_decimal;
use crate::yurai;
use crate::yurai::{clone_opt, Yurai, YuraiView};
use vstd::prelude::*;
use vstd::string::StringExecFns;

verus! {

/// The end of a seed: a time and a count.
pub open spec fn stamp(now: u64, count: u64) -> Seq<char> {
    ":"@ + text::decimal(now as nat) + ":"@ + text::decimal(count as nat)
}

pub open spec fn session_seed(name: Seq<char>, now: u64, count: u64) -> Seq<char> {
    "session:"@ + name + stamp(now, count)
}

pub open spec fn window_seed(parent: SessionId, name: Seq<char>, now: u64, count: u64) -> Seq<char> {
    "window:"@ + digest::hex(parent.0 as nat, 16) + ":"@ + name + stamp(now, count)
}

pub open spec fn pane_seed(parent: WindowId, shell: Seq<char>, now: u64, count: u64) -> Seq<char> {
    "pane:"@ + digest::hex(parent.0 as nat, 16) + ":"@ + shell + stamp(now, count)
}

fn push_stamp(out: &mut String, now: u64, count: u64)
    ensures
        final(out)@ == old(out)@ + stamp(now, count),
{
    let ghost before = out@;
    out.append(":");
    push_decimal(out, now as u128);
    out.append(":");
    push_decimal(out, count as u128);
    assert(out@ =~= before + stamp(now, count));
}

/// The identifier of a new session.
pub fn mint_session_id(name: &str, now: u64, count: u64) -> (r: SessionId)
    ensures
        r.0 as nat == id::seed_value(session_seed(name@, now, count)),
{
    let mut seed = String::from_str("session:");
    seed.append(name);
    push_stamp(&mut seed, now, count);
    assert(seed@ =~= session_seed(name@, now, count));
    SessionId::from_seed(seed.as_str())
}

/// The identifier of a new window.
pub fn mint_window_id(parent: SessionId, name: &str, now: u64, count: u64) -> (r: WindowId)
    ensures
        r.0 as nat == id::seed_value(window_seed(parent, name@, now, count)),
{
    let mut seed = String::from_str("window:");
    seed.append(parent.to_string().as_str());
    seed.append(":");
    seed.append(name);
    push_stamp(&mut seed, now, count);
    assert(seed@ =~= window_seed(parent, name@, now, count));
    WindowId::from_seed(seed.as_str())
}

/// The identifier of a new pane.
pub fn mint_pane_id(parent: WindowId, shell: &str, now: u64, count: u64) -> (r: PaneId)
    ensures
        r.0 as nat == id::seed_value(pane_seed(parent, shell@, now, count)),
{
    let mut seed = String::from_str("pane:");
    seed.append(parent.to_string().as_str());
    seed.append(":");
    seed.append(shell);
    push_stamp(&mut seed, now, count);
    assert(seed@ =~= pane_seed(parent, shell@, now, count));
    PaneId::from_seed(seed.as_str())
}

/// The count after `count`; it starts over behind the greatest.
pub open spec fn bump(count: u64) -> u64 {
    if count == u64::MAX {
        0
    } else {
        (count + 1) as u64
    }
}

/// The count after `n` more.
pub open spec fn bumped(count: u64, n: nat) -> u64
    decreases n,
{
    if n == 0 {
        count
    } else {
        bump(bumped(count, (n - 1) as nat))
    }
}

proof fn lemma_bumped_counts_on(count: u64, n: nat)
    ensures
        bumped(count, n) == (count + n) as nat % 0x1_0000_0000_0000_0000,
    decreases n,
{
    if n > 0 {
        lemma_bumped_counts_on(count, (n - 1) as nat);
    }
}

/// A count does not come again before it has gone through all its values.
pub proof fn lemma_counts_do_not_repeat(count: u64, i: nat, j: nat)
    requires
        i < j,
        j - i <= u64::MAX,
    ensures
        bumped(count, i) != bumped(count, j),
{
    lemma_bumped_counts_on(count, i);
    lemma_bumped_counts_on(count, j);
}

proof fn lemma_ends_differ(p: Seq<char>, q: Seq<char>, a: u64, b: u64)
    requires
        a != b,
    ensures
        p + ":"@ + text::decimal(a as nat) != q + ":"@ + text::decimal(b as nat),
{
    reveal_strlit(":");
    let x = p + ":"@ + text::decimal(a as nat);
    let y = q + ":"@ + text::decimal(b as nat);
    let d = text::decimal(a as nat);
    let e = text::decimal(b as nat);
    text::lemma_decimal_reads_back(a as nat);
    text::lemma_decimal_reads_back(b as nat);
    if x == y {
        assert(x[x.len() - d.len() - 1] == ':');
        assert(y[y.len() - e.len() - 1] == ':');
        if d.len() < e.len() {
            assert(y[y.len() - d.len() - 1] == e[e.len() - d.len() - 1]);
        } else if e.len() < d.len() {
            assert(x[x.len() - e.len() - 1] == d[d.len() - e.len() - 1]);
        } else {
            assert(d =~= x.skip(x.len() - d.len()));
            assert(e =~= y.skip(y.len() - e.len()));
        }
    }
}

proof fn lemma_stamps_differ(p: Seq<char>, q: Seq<char>, t: u64, u: u64, a: u64, b: u64)
    requires
        a != b,
    ensures
        p + stamp(t, a) != q + stamp(u, b),
{
    let x = p + ":"@ + text::decimal(t as nat);
    let y = q + ":"@ + text::decimal(u as nat);
    assert(p + stamp(t, a) =~= x + ":"@ + text::decimal(a as nat));
    assert(q + stamp(u, b) =~= y + ":"@ + text::decimal(b as nat));
    lemma_ends_differ(x, y, a, b);
}

/// Two seeds made with different counts differ, whatever else they are made of,
/// so that the identifiers of what is made under them differ unless their
/// digests begin alike.
pub proof fn lemma_seeds_of_two_counts_differ(
    s: (Seq<char>, u64),
    t: (Seq<char>, u64),
    p: u64,
    q: u64,
    a: u64,
    b: u64,
)
    requires
        a != b,
    ensures
        session_seed(s.0, s.1, a) != session_seed(t.0, t.1, b),
        window_seed(SessionId(p), s.0, s.1, a) != window_seed(SessionId(q), t.0, t.1, b),
        pane_seed(WindowId(p), s.0, s.1, a) != pane_seed(WindowId(q), t.0, t.1, b),
{
    lemma_stamps_differ("session:"@ + s.0, "session:"@ + t.0, s.1, t.1, a, b);
    lemma_stamps_differ(
        "window:"@ + digest::hex(p as nat, 16) + ":"@ + s.0,
        "window:"@ + digest::hex(q as nat, 16) + ":"@ + t.0,
        s.1,
        t.1,
        a,
        b,
    );
    lemma_stamps_differ(
        "pane:"@ + digest::hex(p as nat, 16) + ":"@ + s.0,
        "pane:"@ + digest::hex(q as nat, 16) + ":"@ + t.0,
        s.1,
        t.1,
        a,
        b,
    );
}

/// The number a seed stands for, as an identifier holds it.
pub open spec fn seed_u64(seed: Seq<char>) -> u64 {
    id::seed_value(seed) as u64
}

/// What a new pane is started with.
#[verifier::ext_equal]
pub struct SpawnView {
    pub shell: Seq<char>,
    pub args: Seq<Seq<char>>,
    pub cwd: Option<Seq<char>>,
    pub env: Seq<(Seq<char>, Seq<char>)>,
    pub yurai: YuraiView,
    pub size: (u16, u16),
}

/// What a new pane is started with.
pub struct Spawn {
    pub shell: String,
    pub args: Vec<String>,
    pub cwd: Option<String>,
    pub env: Vec<(String, String)>,
    pub yurai: Yurai,
    pub size: (u16, u16),
}

impl Spawn {
    pub open spec fn view(self) -> SpawnView {
        SpawnView {
            shell: self.shell@,
            args: genesis::texts(self.args@),
            cwd: yurai::opt_text(self.cwd),
            env: pane::pairs(self.env@),
            yurai: self.yurai@,
            size: self.size,
        }
    }

    /// A program without arguments, where the session is, of unknown provenance.
    pub fn plain(shell: &str, size: (u16, u16)) -> (r: Spawn)
        ensures
            r@ == (SpawnView {
                shell: shell@,
                args: Seq::empty(),
                cwd: None,
                env: Seq::empty(),
                yurai: YuraiView::Unknown,
                size,
            }),
    {
        let r = Spawn {
            shell: String::from_str(shell),
            args: Vec::new(),
            cwd: None,
            env: Vec::new(),
            yurai: Yurai::Unknown,
            size,
        };
        assert(r@.args =~= Seq::empty());
        assert(r@.env =~= Seq::empty());
        r
    }

    /// The record of a pane that runs this.
    pub fn record(&self, id: PaneId) -> (p: TearPane)
        ensures
            p@ == self@.record(id),
    {
        TearPane {
            id,
            shell: self.shell.clone(),
            args: clone_texts(&self.args),
            cwd: clone_opt(&self.cwd),
            env: clone_pairs(&self.env),
            size_cells: self.size,
            origin_cells: (0, 0),
            state: PaneState::Running,
            title: self.shell.clone(),
            input_policy: InputPolicy::Free,
            yurai: self.yurai.clone(),
        }
    }
}

impl SpawnView {
    /// The record of a pane that runs this.
    pub open spec fn record(self, id: PaneId) -> TearPaneView {
        TearPaneView {
            id,
            shell: self.shell,
            args: self.args,
            cwd: self.cwd,
            env: self.env,
            size_cells: self.size,
            origin_cells: (0, 0),
            state: PaneState::Running,
            title: self.shell,
            input_policy: InputPolicy::Free,
            yurai: self.yurai,
        }
    }
}

/// Every session, and the count that keeps identifiers apart.
#[derive(Debug)]
pub struct Registry {
    pub sessions: Table<TearSession>,
    pub count: u64,
}

/// The contents of a [`Registry`].
#[verifier::ext_equal]
pub struct RegistryView {
    pub sessions: Map<u64, TearSessionView>,
    pub count: u64,
}

impl View for Registry {
    type V = RegistryView;

    open spec fn view(&self) -> RegistryView {
        RegistryView { sessions: self.sessions@, count: self.count }
    }
}

/// The first of these windows that shows a pane.
pub open spec fn window_with(
    windows: Map<u64, TearWindowView>,
    keys: Seq<u64>,
    pane: PaneId,
) -> Option<u64>
    decreases keys.len(),
{
    if keys.len() == 0 {
        None
    } else if windows[keys[0]].layout.leaves().contains(pane.0) {
        Some(keys[0])
    } else {
        window_with(windows, keys.drop_first(), pane)
    }
}

/// The first of these sessions that has a pane and a window that shows it.
pub open spec fn locate_among(
    sessions: Map<u64, TearSessionView>,
    keys: Seq<u64>,
    pane: PaneId,
) -> Option<(SessionId, WindowId)>
    decreases keys.len(),
{
    if keys.len() == 0 {
        None
    } else {
        let s = sessions[keys[0]];
        let w = window_with(s.windows, table::ordered(s.windows.dom()), pane);
        if s.panes.dom().contains(pane.0) && w is Some {
            Some((s.id, WindowId(w->0)))
        } else {
            locate_among(sessions, keys.drop_first(), pane)
        }
    }
}

/// Whether one session is listed before another: the older first, and of the
/// same age by number.
pub open spec fn listed_before(sessions: Map<u64, TearSessionView>, a: u64, b: u64) -> bool {
    let x = sessions[a].created_at_unix;
    let y = sessions[b].created_at_unix;
    x < y || (x == y && a < b)
}

/// `keys` names every session once, the oldest first.
pub open spec fn oldest_first(sessions: Map<u64, TearSessionView>, keys: Seq<u64>) -> bool {
    &&& forall|k: u64| #[trigger] keys.contains(k) <==> sessions.dom().contains(k)
    &&& forall|i: int, j: int|
        0 <= i < j < keys.len() ==> listed_before(sessions, #[trigger] keys[i], #[trigger] keys[j])
}

/// The contents of a list of sessions.
pub open spec fn sessions_view(s: Seq<TearSession>) -> Seq<TearSessionView> {
    Seq::new(s.len(), |i: int| s[i]@)
}

/// The sessions that a list of numbers names.
pub open spec fn listing(
    sessions: Map<u64, TearSessionView>,
    keys: Seq<u64>,
) -> Seq<TearSessionView> {
    Seq::new(keys.len(), |i: int| sessions[keys[i]])
}

impl RegistryView {
    pub open spec fn start() -> RegistryView {
        RegistryView { sessions: Map::empty(), count: 1 }
    }

    /// The session that a name makes at a time.
    pub open spec fn fresh_session(self, name: Seq<char>, now: u64) -> TearSessionView {
        TearSessionView {
            id: SessionId(seed_u64(session_seed(name, now, self.count))),
            name,
            windows: Map::empty(),
            panes: Map::empty(),
            active_window: WindowId(0),
            state: SessionState::Active,
            created_at_unix: now,
            description: Seq::empty(),
            source: SourceView::Human,
            freio: Freio::Released,
        }
    }

    pub open spec fn create_session(self, name: Seq<char>, now: u64) -> RegistryView {
        let s = self.fresh_session(name, now);
        RegistryView { sessions: self.sessions.insert(s.id.0, s), count: bump(self.count) }
    }

    pub open spec fn next_window(self, session: SessionId, name: Seq<char>, now: u64) -> WindowId {
        WindowId(seed_u64(window_seed(session, name, now, self.count)))
    }

    pub open spec fn next_pane(self, window: WindowId, shell: Seq<char>, now: u64) -> PaneId {
        PaneId(seed_u64(pane_seed(window, shell, now, self.count)))
    }

    /// The pane that a new window of a session starts with.
    pub open spec fn first_pane(
        self,
        session: SessionId,
        name: Seq<char>,
        shell: Seq<char>,
        now: u64,
    ) -> PaneId {
        let w = self.next_window(session, name, now);
        PaneId(seed_u64(pane_seed(w, shell, now, bump(self.count))))
    }

    /// A session with one more window, which shows one pane.
    pub open spec fn with_window(
        s: TearSessionView,
        window: WindowId,
        pane: PaneId,
        name: Seq<char>,
        spawn: SpawnView,
    ) -> TearSessionView {
        TearSessionView {
            windows: s.windows.insert(
                window.0,
                TearWindowView {
                    id: window,
                    name,
                    layout: LayoutNode::Leaf(pane),
                    active_pane: pane,
                    size_cells: spawn.size,
                    state: WindowState::Active,
                },
            ),
            panes: s.panes.insert(pane.0, spawn.record(pane)),
            active_window: if s.active_window == WindowId(0) {
                window
            } else {
                s.active_window
            },
            ..s
        }
    }

    pub open spec fn add_window(
        self,
        session: SessionId,
        name: Seq<char>,
        spawn: SpawnView,
        now: u64,
    ) -> RegistryView {
        if self.sessions.dom().contains(session.0) {
            let w = self.next_window(session, name, now);
            let p = self.first_pane(session, name, spawn.shell, now);
            RegistryView {
                sessions: self.sessions.insert(
                    session.0,
                    RegistryView::with_window(self.sessions[session.0], w, p, name, spawn),
                ),
                count: bump(bump(self.count)),
            }
        } else {
            self
        }
    }

    /// Where a pane is shown.
    pub open spec fn locate(self, pane: PaneId) -> Option<(SessionId, WindowId)> {
        locate_among(self.sessions, table::ordered(self.sessions.dom()), pane)
    }
}

impl Registry {
    /// An empty registry.
    pub fn new() -> (r: Registry)
        ensures
            r@ == RegistryView::start(),
    {
        Registry { sessions: Table::new(), count: 1 }
    }

    fn next_count(&mut self) -> (n: u64)
        ensures
            n == old(self).count,
            final(self).count == bump(n),
            final(self).sessions == old(self).sessions,
    {
        let n = self.count;
        self.count = if n == u64::MAX {
            0
        } else {
            n + 1
        };
        n
    }

    /// Every session, the oldest first.
    pub fn sessions_in_order(&self) -> (r: Vec<TearSession>)
        ensures
            exists|keys: Seq<u64>| #[trigger]
                oldest_first(self@.sessions, keys) && sessions_view(r@) == listing(
                    self@.sessions,
                    keys,
                ),
    {
        let order = self.order();
        let mut r: Vec<TearSession> = Vec::new();
        let mut i: usize = 0;
        while i < order.len()
            invariant
                i <= order@.len(),
                oldest_first(self@.sessions, order@),
                r@.len() == i,
                forall|j: int| 0 <= j < i ==> (#[trigger] r@[j])@ == self@.sessions[order@[j]],
            decreases order@.len() - i,
        {
            assert(order@.contains(order@[i as int]));
            match self.sessions.get(order[i]) {
                Some(s) => {
                    r.push(s.clone());
                },
                None => {},
            }
            i = i + 1;
        }
        assert(sessions_view(r@) =~= listing(self@.sessions, order@));
        r
    }

    fn order(&self) -> (r: Vec<u64>)
        ensures
            oldest_first(self@.sessions, r@),
    {
        let keys = self.sessions.keys();
        let ghost m = self@.sessions;
        let mut r: Vec<u64> = Vec::new();
        let mut i: usize = 0;
        while i < keys.len()
            invariant
                i <= keys@.len(),
                m == self@.sessions,
                table::lists(keys@, m.dom()),
                forall|k: u64| #[trigger] r@.contains(k) <==> keys@.take(i as int).contains(k),
                forall|a: int, b: int|
                    0 <= a < b < r@.len() ==> listed_before(m, #[trigger] r@[a], #[trigger] r@[b]),
            decreases keys@.len() - i,
        {
            let k = keys[i];
            assert(keys@.contains(k));
            let age = self.created(k);
            let mut at: usize = r.len();
            proof {
                assert forall|j: int| 0 <= j < r@.len() implies #[trigger] r@[j] < k
                    && m.dom().contains(r@[j]) by {
                    assert(r@.contains(r@[j]));
                    let p = choose|p: int|
                        0 <= p < keys@.take(i as int).len() && keys@.take(i as int)[p] == r@[j];
                    assert(keys@[p] < keys@[i as int]);
                    assert(keys@.contains(keys@[p]));
                }
            }
            while at > 0 && self.created(r[at - 1]) > age
                invariant
                    at <= r@.len(),
                    m == self@.sessions,
                    m.dom().contains(k),
                    age == m[k].created_at_unix,
                    forall|j: int| 0 <= j < r@.len() ==> #[trigger] r@[j] < k && m.dom().contains(r@[j]),
                    forall|j: int|
                        at <= j < r@.len() ==> m[#[trigger] r@[j]].created_at_unix > age,
                decreases at,
            {
                at = at - 1;
            }
            let ghost before = r@;
            r.insert(at, k);
            proof {
                assert forall|a: int, b: int| 0 <= a < b < r@.len() implies listed_before(
                    m,
                    #[trigger] r@[a],
                    #[trigger] r@[b],
                ) by {
                    let pa = if a < at {
                        a
                    } else {
                        a - 1
                    };
                    let pb = if b < at {
                        b
                    } else {
                        b - 1
                    };
                    if a == at {
                        assert(r@[b] == before[pb]);
                    } else if b == at {
                        assert(r@[a] == before[pa]);
                        let last = at - 1;
                        assert(m[before[last as int]].created_at_unix <= age);
                        if pa < last {
                            assert(listed_before(m, before[pa], before[last as int]));
                        }
                    } else {
                        assert(r@[a] == before[pa]);
                        assert(r@[b] == before[pb]);
                        assert(listed_before(m, before[pa], before[pb]));
                    }
                }
                let longer = keys@.take(i as int + 1);
                let shorter = keys@.take(i as int);
                assert forall|x: u64| #[trigger] r@.contains(x) <==> longer.contains(x) by {
                    if r@.contains(x) {
                        let a = choose|a: int| 0 <= a < r@.len() && r@[a] == x;
                        if a != at {
                            let p = if a < at {
                                a
                            } else {
                                a - 1
                            };
                            assert(before[p] == x);
                            assert(before.contains(x));
                            assert(shorter.contains(x));
                            let q = choose|q: int| 0 <= q < shorter.len() && shorter[q] == x;
                            assert(longer[q] == x);
                        } else {
                            assert(longer[i as int] == x);
                        }
                    }
                    if longer.contains(x) {
                        let q = choose|q: int| 0 <= q < longer.len() && longer[q] == x;
                        if q < i {
                            assert(shorter[q] == x);
                            assert(shorter.contains(x));
                            assert(before.contains(x));
                            let p = choose|p: int| 0 <= p < before.len() && before[p] == x;
                            let a = if p < at {
                                p
                            } else {
                                p + 1
                            };
                            assert(r@[a] == x);
                        } else {
                            assert(r@[at as int] == x);
                        }
                    }
                }
            }
            i = i + 1;
        }
        assert(keys@.take(i as int) =~= keys@);
        r
    }

    fn created(&self, k: u64) -> (t: u64)
        requires
            self@.sessions.dom().contains(k),
        ensures
            t == self@.sessions[k].created_at_unix,
    {
        match self.sessions.get(k) {
            Some(s) => s.created_at_unix,
            None => 0,
        }
    }

    /// A new session without windows.
    pub fn create_session(&mut self, name: &str) -> (id: SessionId)
        ensures
            exists|t: std::time::SystemTime|
                final(self)@ == #[trigger] old(self)@.create_session(name@, clock::seconds_of(t))
                    && id == old(self)@.fresh_session(name@, clock::seconds_of(t)).id,
    {
        let ghost before = self@;
        let t = std::time::SystemTime::now();
        let id = self.create_session_at(name, clock::seconds_at(t));
        assert(self@ == before.create_session(name@, clock::seconds_of(t)));
        id
    }

    /// A new session without windows, at a time.
    pub fn create_session_at(&mut self, name: &str, now: u64) -> (id: SessionId)
        ensures
            final(self)@ == old(self)@.create_session(name@, now),
            id == old(self)@.fresh_session(name@, now).id,
    {
        let count: u64 = self.next_count();
        let id = mint_session_id(name, now, count);
        let s = TearSession {
            id,
            name: String::from_str(name),
            windows: Table::new(),
            panes: Table::new(),
            active_window: WindowId(0),
            state: SessionState::Active,
            created_at_unix: now,
            description: String::from_str(""),
            source: SessionSource::Human,
            freio: Freio::Released,
        };
        proof {
            reveal_strlit("");
            assert(s@.description =~= Seq::empty());
        }
        self.sessions.insert(id.0, s);
        id
    }

    /// A new window of a session, with one pane that runs a program.
    pub fn add_window(
        &mut self,
        session: SessionId,
        name: &str,
        shell: &str,
        size_cells: (u16, u16),
    ) -> (r: Option<(WindowId, PaneId)>)
        ensures
            exists|t: std::time::SystemTime| #[trigger]
                window_added(
                    old(self)@,
                    final(self)@,
                    session,
                    name@,
                    SpawnView {
                        shell: shell@,
                        args: Seq::empty(),
                        cwd: None,
                        env: Seq::empty(),
                        yurai: YuraiView::Unknown,
                        size: size_cells,
                    },
                    clock::seconds_of(t),
                    r,
                ),
    {
        let ghost before = self@;
        let t = std::time::SystemTime::now();
        let spawn = Spawn::plain(shell, size_cells);
        let r = self.add_window_at(session, name, &spawn, clock::seconds_at(t));
        assert(window_added(
            before,
            self@,
            session,
            name@,
            spawn@,
            clock::seconds_of(t),
            r,
        ));
        r
    }

    /// A new window of a session, with one pane, at a time.
    pub fn add_window_at(
        &mut self,
        session: SessionId,
        name: &str,
        spawn: &Spawn,
        now: u64,
    ) -> (r: Option<(WindowId, PaneId)>)
        ensures
            window_added(old(self)@, final(self)@, session, name@, spawn@, now, r),
    {
        let mut s = match self.sessions.remove(session.0) {
            Some(s) => s,
            None => {
                return None;
            },
        };
        let ghost before = s@;
        let count: u64 = self.next_count();
        let window = mint_window_id(session, name, now, count);
        let count: u64 = self.next_count();
        let pane = mint_pane_id(window, spawn.shell.as_str(), now, count);
        s.windows.insert(
            window.0,
            TearWindow {
                id: window,
                name: String::from_str(name),
                layout: LayoutNode::leaf(pane),
                active_pane: pane,
                size_cells: spawn.size,
                state: WindowState::Active,
            },
        );
        s.panes.insert(pane.0, spawn.record(pane));
        if s.active_window.0 == 0 {
            s.active_window = window;
        }
        assert(s@ == RegistryView::with_window(before, window, pane, name@, spawn@));
        self.sessions.insert(session.0, s);
        assert(self@.sessions =~= old(self)@.sessions.insert(session.0, s@));
        Some((window, pane))
    }

    /// Where a pane is shown.
    pub fn locate_pane(&self, pane: PaneId) -> (r: Option<(SessionId, WindowId)>)
        ensures
            r == self@.locate(pane),
    {
        let keys = self.sessions.keys();
        let mut i: usize = 0;
        let ghost m = self@.sessions;
        assert(keys@.skip(0) =~= keys@);
        while i < keys.len()
            invariant
                i <= keys@.len(),
                m == self@.sessions,
                keys@ == table::ordered(m.dom()),
                table::lists(keys@, m.dom()),
                self@.locate(pane) == locate_among(m, keys@.skip(i as int), pane),
            decreases keys@.len() - i,
        {
            assert(keys@.contains(keys@[i as int]));
            assert(keys@.skip(i as int)[0] == keys@[i as int]);
            assert(keys@.skip(i as int).drop_first() =~= keys@.skip(i as int + 1));
            match self.sessions.get(keys[i]) {
                Some(s) => {
                    if s.panes.contains_key(pane.0) {
                        match window_showing(s, pane) {
                            Some(w) => {
                                return Some((s.id, w));
                            },
                            None => {},
                        }
                    }
                },
                None => {},
            }
            i = i + 1;
        }
        None
    }
}

/// What adding a window comes to.
pub open spec fn window_added(
    old_view: RegistryView,
    new_view: RegistryView,
    session: SessionId,
    name: Seq<char>,
    spawn: SpawnView,
    now: u64,
    r: Option<(WindowId, PaneId)>,
) -> bool {
    &&& new_view == old_view.add_window(session, name, spawn, now)
    &&& r == if old_view.sessions.dom().contains(session.0) {
        Some(
            (
                old_view.next_window(session, name, now),
                old_view.first_pane(session, name, spawn.shell, now),
            ),
        )
    } else {
        None
    }
}

fn window_showing(s: &TearSession, pane: PaneId) -> (r: Option<WindowId>)
    ensures
        match r {
            Some(w) => window_with(s@.windows, table::ordered(s@.windows.dom()), pane) == Some(w.0),
            None => window_with(s@.windows, table::ordered(s@.windows.dom()), pane) is None,
        },
{
    let keys = s.windows.keys();
    let mut i: usize = 0;
    let ghost m = s@.windows;
    assert(keys@.skip(0) =~= keys@);
    while i < keys.len()
        invariant
            i <= keys@.len(),
            m == s@.windows,
            table::lists(keys@, m.dom()),
            window_with(m, table::ordered(m.dom()), pane) == window_with(
                m,
                keys@.skip(i as int),
                pane,
            ),
        decreases keys@.len() - i,
    {
        assert(keys@.contains(keys@[i as int]));
        assert(keys@.skip(i as int)[0] == keys@[i as int]);
        assert(keys@.skip(i as int).drop_first() =~= keys@.skip(i as int + 1));
        match s.windows.get(keys[i]) {
            Some(w) => {
                if w.layout.contains(pane) {
                    return Some(WindowId(keys[i]));
                }
            },
            None => {},
        }
        i = i + 1;
    }
    None
}

impl Default for Registry {
    fn default() -> (r: Registry)
        ensures
            r@ == RegistryView::start(),
    {
        Registry::new()
    }
}

/// A session that was just created is found, empty and under its own number.
pub proof fn lemma_created_session_is_found(r: RegistryView, name: Seq<char>, now: u64)
    ensures
        ({
            let id = r.fresh_session(name, now).id;
            let after = r.create_session(name, now);
            &&& after.sessions.dom().contains(id.0)
            &&& after.sessions[id.0].name == name
            &&& after.sessions[id.0].id == id
            &&& after.sessions[id.0].windows.dom() == Set::<u64>::empty()
            &&& after.sessions[id.0].panes.dom() == Set::<u64>::empty()
        }),
{
}

proof fn lemma_window_with_found(
    windows: Map<u64, TearWindowView>,
    keys: Seq<u64>,
    pane: PaneId,
)
    ensures
        match window_with(windows, keys, pane) {
            Some(w) => keys.contains(w) && windows[w].layout.leaves().contains(pane.0),
            None => forall|i: int|
                0 <= i < keys.len() ==> !windows[#[trigger] keys[i]].layout.leaves().contains(
                    pane.0,
                ),
        },
    decreases keys.len(),
{
    if keys.len() > 0 {
        if windows[keys[0]].layout.leaves().contains(pane.0) {
            assert(keys.contains(keys[0]));
        } else {
            let rest = keys.drop_first();
            lemma_window_with_found(windows, rest, pane);
            match window_with(windows, rest, pane) {
                Some(w) => {
                    let i = choose|i: int| 0 <= i < rest.len() && rest[i] == w;
                    assert(keys[i + 1] == w);
                },
                None => {
                    assert forall|i: int| 0 <= i < keys.len() implies !windows[
                        #[trigger] keys[i]
                    ].layout.leaves().contains(pane.0) by {
                        if i > 0 {
                            assert(rest[i - 1] == keys[i]);
                        }
                    }
                },
            }
        }
    }
}

/// A pane that is located belongs to the session it is located in, and the
/// window shows it.
pub proof fn lemma_located_pane_is_shown(
    sessions: Map<u64, TearSessionView>,
    keys: Seq<u64>,
    pane: PaneId,
)
    ensures
        match locate_among(sessions, keys, pane) {
            Some((s, w)) => exists|k: u64| #[trigger]
                keys.contains(k) && sessions[k].id == s && sessions[k].panes.dom().contains(pane.0)
                    && table::ordered(sessions[k].windows.dom()).contains(w.0)
                    && sessions[k].windows[w.0].layout.leaves().contains(pane.0),
            None => true,
        },
    decreases keys.len(),
{
    if keys.len() > 0 {
        let s = sessions[keys[0]];
        let ws = table::ordered(s.windows.dom());
        lemma_window_with_found(s.windows, ws, pane);
        assert(keys.contains(keys[0]));
        if !(s.panes.dom().contains(pane.0) && window_with(s.windows, ws, pane) is Some) {
            let rest = keys.drop_first();
            lemma_located_pane_is_shown(sessions, rest, pane);
            if locate_among(sessions, rest, pane) is Some {
                let (sid, w) = locate_among(sessions, rest, pane)->0;
                let k = choose|k: u64| #[trigger]
                    rest.contains(k) && sessions[k].id == sid
                        && sessions[k].panes.dom().contains(pane.0) && table::ordered(
                        sessions[k].windows.dom(),
                    ).contains(w.0) && sessions[k].windows[w.0].layout.leaves().contains(pane.0);
                let i = choose|i: int| 0 <= i < rest.len() && rest[i] == k;
                assert(keys[i + 1] == k);
                assert(keys.contains(k));
            }
        }
    }
}

} // verus!
