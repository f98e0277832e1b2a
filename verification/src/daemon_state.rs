//! What the daemon tells of itself to those who look into it.
use crate::digest;
use crate::id::PaneId;
use crate::inproc::InProcess;
use crate::inproc_model::MuxView;
use crate::layout;
use crate::session::{TearSession, TearSessionView, TearWindowView};
use crate::table;
use crate::text::str_eq;
use crate::yurai;
use vstd::prelude::*;
use vstd::string::StringExecFns;

verus! {

/// One session in brief.
#[derive(Debug, PartialEq, Eq)]
pub struct SessionSummary {
    pub id: String,
    pub name: String,
    pub window_count: usize,
    pub pane_count: usize,
}

/// The contents of a [`SessionSummary`].
#[verifier::ext_equal]
pub struct SummaryView {
    pub id: Seq<char>,
    pub name: Seq<char>,
    pub window_count: nat,
    pub pane_count: nat,
}

impl View for SessionSummary {
    type V = SummaryView;

    open spec fn view(&self) -> SummaryView {
        SummaryView {
            id: self.id@,
            name: self.name@,
            window_count: self.window_count as nat,
            pane_count: self.pane_count as nat,
        }
    }
}

/// The answer to a question about the daemon.
#[derive(Debug, PartialEq, Eq)]
pub enum Answer {
    Sessions { count: usize, sessions: Vec<SessionSummary> },
    Panes { total: usize },
    Socket { path: Option<String> },
    Process { started_at_unix_ms: u64, uptime_ms: u64 },
}

/// The panes that the windows of a session show, window by window.
pub open spec fn window_panes(windows: Map<u64, TearWindowView>, keys: Seq<u64>) -> Seq<u64>
    decreases keys.len(),
{
    if keys.len() == 0 {
        Seq::empty()
    } else {
        window_panes(windows, keys.drop_last()) + windows[keys.last()].layout.leaves()
    }
}

/// The panes that a session shows.
pub open spec fn session_panes(s: TearSessionView) -> Seq<u64> {
    window_panes(s.windows, table::ordered(s.windows.dom()))
}

/// The panes that sessions show, session by session.
pub open spec fn all_panes(sessions: Map<u64, TearSessionView>, keys: Seq<u64>) -> Seq<u64>
    decreases keys.len(),
{
    if keys.len() == 0 {
        Seq::empty()
    } else {
        all_panes(sessions, keys.drop_last()) + session_panes(sessions[keys.last()])
    }
}

/// One session in brief; `k` is its number.
pub open spec fn summary(k: u64, s: TearSessionView) -> SummaryView {
    SummaryView {
        id: digest::hex(k as nat, 16),
        name: s.name,
        window_count: table::ordered(s.windows.dom()).len(),
        pane_count: session_panes(s).len(),
    }
}

/// The sessions in brief, by number.
pub open spec fn summaries(sessions: Map<u64, TearSessionView>, keys: Seq<u64>) -> Seq<
    SummaryView,
> {
    Seq::new(keys.len(), |i: int| summary(keys[i], sessions[keys[i]]))
}

/// The contents of a list of summaries.
pub open spec fn summaries_view(s: Seq<SessionSummary>) -> Seq<SummaryView> {
    Seq::new(s.len(), |i: int| s[i]@)
}

/// What a question about the daemon is answered.
pub open spec fn answered(
    m: MuxView,
    started: u64,
    now: u64,
    path: Seq<Seq<char>>,
    r: Result<Answer, Seq<char>>,
) -> bool {
    let keys = table::ordered(m.sessions().dom());
    if path.len() == 0 {
        r == Err::<Answer, Seq<char>>(Seq::empty())
    } else if path[0] == "sessions"@ {
        &&& r matches Ok(Answer::Sessions { count, sessions })
        &&& count == keys.len()
        &&& summaries_view(sessions@) == summaries(m.sessions(), keys)
    } else if path[0] == "panes"@ {
        r matches Ok(Answer::Panes { total }) && total == all_panes(m.sessions(), keys).len()
    } else if path[0] == "socket"@ {
        r matches Ok(Answer::Socket { path }) && yurai::opt_text(path) == m.socket
    } else if path[0] == "process"@ {
        r matches Ok(Answer::Process { started_at_unix_ms, uptime_ms }) && started_at_unix_ms
            == started && uptime_ms == if now >= started {
            now - started
        } else {
            0
        }
    } else {
        r == Err::<Answer, Seq<char>>(path[0])
    }
}

/// The contents of what [`TearDaemonState::query`] returns.
pub open spec fn answer_view(r: Result<Answer, String>) -> Result<Answer, Seq<char>> {
    match r {
        Ok(a) => Ok(a),
        Err(e) => Err(e@),
    }
}

fn panes_of(s: &TearSession) -> (r: Vec<PaneId>)
    ensures
        layout::pane_numbers(r@) == session_panes(s@),
{
    let keys = s.windows.keys();
    let mut out: Vec<PaneId> = Vec::new();
    let mut i: usize = 0;
    proof {
        table::lemma_ordered(keys@, s.windows@.dom());
        assert(keys@.take(0) =~= Seq::<u64>::empty());
        assert(layout::pane_numbers(out@) =~= window_panes(s.windows@, keys@.take(0)));
    }
    while i < keys.len()
        invariant
            i <= keys@.len(),
            table::lists(keys@, s.windows@.dom()),
            layout::pane_numbers(out@) == window_panes(s.windows@, keys@.take(i as int)),
        decreases keys@.len() - i,
    {
        let ghost before = out@;
        proof {
            assert(keys@.contains(keys@[i as int]));
            let longer = keys@.take(i as int + 1);
            assert(longer.drop_last() =~= keys@.take(i as int));
            assert(longer.last() == keys@[i as int]);
        }
        match s.windows.get(keys[i]) {
            Some(w) => {
                let mut more = w.layout.panes();
                let ghost added = more@;
                out.append(&mut more);
                assert(layout::pane_numbers(out@) =~= layout::pane_numbers(before)
                    + layout::pane_numbers(added));
            },
            None => {},
        }
        i = i + 1;
    }
    assert(keys@.take(i as int) =~= keys@);
    out
}

/// What does not change while the daemon runs.
#[derive(Debug, Clone, Copy, PartialEq, Eq, Structural)]
pub struct TearDaemonState {
    pub started_at_unix_ms: u64,
}

impl TearDaemonState {
    pub fn new(started_at_unix_ms: u64) -> (r: TearDaemonState)
        ensures
            r.started_at_unix_ms == started_at_unix_ms,
    {
        TearDaemonState { started_at_unix_ms }
    }

    /// The fields that can be asked for.
    pub fn schema(&self) -> (r: Vec<&'static str>)
        ensures
            r@.len() == 4,
            r@[0]@ == "sessions"@,
            r@[1]@ == "panes"@,
            r@[2]@ == "socket"@,
            r@[3]@ == "process"@,
    {
        vec!["sessions", "panes", "socket", "process"]
    }

    /// The sessions in brief, by number.
    pub fn sessions(&self, inproc: &InProcess) -> (r: Vec<SessionSummary>)
        ensures
            summaries_view(r@) == summaries(
                inproc@.sessions(),
                table::ordered(inproc@.sessions().dom()),
            ),
    {
        let keys = inproc.registry.sessions.keys();
        let ghost m = inproc.registry.sessions@;
        let mut out: Vec<SessionSummary> = Vec::new();
        let mut i: usize = 0;
        proof {
            table::lemma_ordered(keys@, m.dom());
        }
        while i < keys.len()
            invariant
                i <= keys@.len(),
                m == inproc.registry.sessions@,
                table::lists(keys@, m.dom()),
                out@.len() == i,
                forall|j: int|
                    0 <= j < i ==> (#[trigger] out@[j])@ == summary(keys@[j], m[keys@[j]]),
            decreases keys@.len() - i,
        {
            let k: u64 = keys[i];
            assert(keys@.contains(keys@[i as int]));
            match inproc.registry.sessions.get(k) {
                Some(s) => {
                    let wkeys = s.windows.keys();
                    proof {
                        table::lemma_ordered(wkeys@, s.windows@.dom());
                    }
                    let panes = panes_of(s);
                    assert(layout::pane_numbers(panes@).len() == panes@.len());
                    out.push(
                        SessionSummary {
                            id: crate::id::SessionId(k).to_string(),
                            name: s.name.clone(),
                            window_count: wkeys.len(),
                            pane_count: panes.len(),
                        },
                    );
                },
                None => {},
            }
            i = i + 1;
        }
        assert(summaries_view(out@) =~= summaries(m, keys@));
        out
    }

    /// How many panes are shown.
    pub fn pane_total(&self, inproc: &InProcess) -> (n: usize)
        ensures
            n == all_panes(
                inproc@.sessions(),
                table::ordered(inproc@.sessions().dom()),
            ).len(),
    {
        let keys = inproc.registry.sessions.keys();
        let ghost m = inproc.registry.sessions@;
        let mut out: Vec<PaneId> = Vec::new();
        let mut i: usize = 0;
        proof {
            table::lemma_ordered(keys@, m.dom());
            assert(keys@.take(0) =~= Seq::<u64>::empty());
            assert(layout::pane_numbers(out@) =~= all_panes(m, keys@.take(0)));
        }
        while i < keys.len()
            invariant
                i <= keys@.len(),
                m == inproc.registry.sessions@,
                table::lists(keys@, m.dom()),
                layout::pane_numbers(out@) == all_panes(m, keys@.take(i as int)),
            decreases keys@.len() - i,
        {
            let ghost before = out@;
            proof {
                assert(keys@.contains(keys@[i as int]));
                let longer = keys@.take(i as int + 1);
                assert(longer.drop_last() =~= keys@.take(i as int));
                assert(longer.last() == keys@[i as int]);
            }
            match inproc.registry.sessions.get(keys[i]) {
                Some(s) => {
                    let mut more = panes_of(s);
                    let ghost added = more@;
                    out.append(&mut more);
                    assert(layout::pane_numbers(out@) =~= layout::pane_numbers(before)
                        + layout::pane_numbers(added));
                },
                None => {},
            }
            i = i + 1;
        }
        assert(keys@.take(i as int) =~= keys@);
        assert(layout::pane_numbers(out@).len() == out@.len());
        out.len()
    }

    /// The answer to a question, or the name of the field that there is not.
    /// Only the first step of the path counts.
    pub fn query(&self, inproc: &InProcess, path: &Vec<String>, now_ms: u64) -> (r: Result<
        Answer,
        String,
    >)
        ensures
            answered(
                inproc@,
                self.started_at_unix_ms,
                now_ms,
                crate::genesis::texts(path@),
                answer_view(r),
            ),
    {
        assert(crate::genesis::texts(path@).len() == path@.len());
        if path.len() == 0 {
            let e = String::new();
            assert(e@ =~= Seq::<char>::empty());
            return Err(e);
        }
        let first = path[0].as_str();
        if str_eq(first, "sessions") {
            let sessions = self.sessions(inproc);
            assert(summaries_view(sessions@).len() == sessions@.len());
            return Ok(Answer::Sessions { count: sessions.len(), sessions });
        }
        if str_eq(first, "panes") {
            return Ok(Answer::Panes { total: self.pane_total(inproc) });
        }
        if str_eq(first, "socket") {
            return Ok(Answer::Socket { path: inproc.socket_path() });
        }
        if str_eq(first, "process") {
            let uptime_ms: u64 = if now_ms >= self.started_at_unix_ms {
                now_ms - self.started_at_unix_ms
            } else {
                0
            };
            return Ok(
                Answer::Process { started_at_unix_ms: self.started_at_unix_ms, uptime_ms },
            );
        }
        Err(String::from_str(first))
    }
}

/// The panes in all are those of the sessions together.
pub proof fn lemma_panes_add_up(sessions: Map<u64, TearSessionView>, keys: Seq<u64>)
    ensures
        all_panes(sessions, keys).len() == sum(summaries(sessions, keys)),
    decreases keys.len(),
{
    if keys.len() > 0 {
        lemma_panes_add_up(sessions, keys.drop_last());
        assert(summaries(sessions, keys).drop_last() =~= summaries(sessions, keys.drop_last()));
    }
}

/// The panes that summaries count.
pub open spec fn sum(s: Seq<SummaryView>) -> nat
    decreases s.len(),
{
    if s.len() == 0 {
        0
    } else {
        sum(s.drop_last()) + s.last().pane_count
    }
}

} // verus!
