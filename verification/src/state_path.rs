//! Where the daemon keeps what outlives it.
use crate::digest;
use crate::id::{PaneId, SessionId};
use crate::inproc::InProcess;
use crate::inproc_model::MuxView;
use crate::table;
use crate::text;
use crate::yurai;
use vstd::prelude::*;
use vstd::string::StringExecFns;

verus! {

/// A path and a relative path under it.
pub open spec fn under(base: Seq<char>, part: Seq<char>) -> Seq<char> {
    if base.len() == 0 || base.last() == '/' {
        base + part
    } else {
        base + "/"@ + part
    }
}

/// A path and a relative path under it.
pub fn join(base: &str, part: &str) -> (r: String)
    ensures
        r@ == under(base@, part@),
{
    let chars = text::chars_of(base);
    let mut s = String::from_str(base);
    if chars.len() > 0 && chars[chars.len() - 1] != '/' {
        s.append("/");
    }
    s.append(part);
    s
}

/// The base of what is kept: an explicit one, even an empty one; else the
/// user's state directory, if it names one; else its place under the home; else
/// the current directory.
pub open spec fn state_base(
    explicit: Option<Seq<char>>,
    xdg: Option<Seq<char>>,
    home: Option<Seq<char>>,
) -> Seq<char> {
    if explicit is Some {
        explicit->0
    } else if xdg is Some && xdg->0.len() > 0 {
        xdg->0
    } else if home is Some {
        under(under(home->0, ".local"@), "state"@)
    } else {
        "."@
    }
}

/// The base of what is kept, from the values of `TEAR_STATE_DIR`,
/// `XDG_STATE_HOME` and `HOME`.
pub fn state_dir(explicit: &Option<String>, xdg: &Option<String>, home: &Option<String>) -> (r:
    String)
    ensures
        r@ == state_base(
            yurai::opt_text(*explicit),
            yurai::opt_text(*xdg),
            yurai::opt_text(*home),
        ),
{
    match explicit {
        Some(e) => {
            return e.clone();
        },
        None => {},
    }
    match xdg {
        Some(x) => {
            if text::chars_of(x.as_str()).len() > 0 {
                return x.clone();
            }
        },
        None => {},
    }
    match home {
        Some(h) => {
            let local = join(h.as_str(), ".local");
            join(local.as_str(), "state")
        },
        None => String::from_str("."),
    }
}

/// The file that keeps which project belongs to which session.
pub fn default_praca_path(explicit: &Option<String>, xdg: &Option<String>, home: &Option<String>)
    -> (r: String)
    ensures
        r@ == under(
            under(
                state_base(
                    yurai::opt_text(*explicit),
                    yurai::opt_text(*xdg),
                    yurai::opt_text(*home),
                ),
                "tear"@,
            ),
            "praca.json"@,
        ),
{
    let base = state_dir(explicit, xdg, home);
    let dir = join(base.as_str(), "tear");
    join(dir.as_str(), "praca.json")
}

/// An explicit base always decides.
pub proof fn lemma_explicit_base_wins(
    base: Seq<char>,
    xdg: Option<Seq<char>>,
    home: Option<Seq<char>>,
)
    ensures
        state_base(Some(base), xdg, home) == base,
{
}

// ── recordings ──

/// The file of a recording.
pub open spec fn cast_name(session: SessionId, now: u64, pane: u64) -> Seq<char> {
    digest::hex(session.0 as nat, 16) + "-"@ + text::decimal(now as nat) + "-"@ + digest::hex(
        pane as nat,
        16,
    ) + ".cast"@
}

/// Whether a pane has anything recorded.
pub open spec fn has_events(m: MuxView, pane: u64) -> bool {
    m.recordings.dom().contains(pane) && m.recordings[pane].events.len() > 0
}

/// The files that keep the recordings of some panes.
pub open spec fn cast_files(
    m: MuxView,
    session: SessionId,
    keys: Seq<u64>,
    dir: Seq<char>,
    shell: Seq<char>,
    now: u64,
) -> Seq<(Seq<char>, Seq<char>)>
    decreases keys.len(),
{
    if keys.len() == 0 {
        Seq::empty()
    } else {
        let rest = cast_files(m, session, keys.drop_last(), dir, shell, now);
        let k = keys.last();
        if has_events(m, k) {
            rest.push(
                (under(dir, cast_name(session, now, k)), m.recordings[k].cast(shell, now)),
            )
        } else {
            rest
        }
    }
}

fn cast_file_name(session: SessionId, now: u64, pane: PaneId) -> (r: String)
    ensures
        r@ == cast_name(session, now, pane.0),
{
    let mut s = session.to_string();
    s.append("-");
    text::push_decimal(&mut s, now as u128);
    s.append("-");
    s.append(pane.to_string().as_str());
    s.append(".cast");
    assert(s@ =~= cast_name(session, now, pane.0));
    s
}

/// The files that keep what was recorded of the panes of a session: their paths
/// under a directory, and what they hold. A pane of which nothing was recorded
/// has none, and neither has a session that is not there.
pub fn flush_session_recordings(
    inproc: &InProcess,
    session: SessionId,
    dir: &str,
    shell: &str,
    now: u64,
) -> (r: Vec<(String, String)>)
    ensures
        crate::pane::pairs(r@) == if inproc@.sessions().dom().contains(session.0) {
            cast_files(
                inproc@,
                session,
                table::ordered(inproc@.sessions()[session.0].panes.dom()),
                dir@,
                shell@,
                now,
            )
        } else {
            Seq::empty()
        },
{
    let mut out: Vec<(String, String)> = Vec::new();
    assert(crate::pane::pairs(out@) =~= Seq::<(Seq<char>, Seq<char>)>::empty());
    let s = match inproc.registry.sessions.get(session.0) {
        Some(s) => s,
        None => {
            return out;
        },
    };
    let keys = s.panes.keys();
    let ghost m = inproc@;
    proof {
        table::lemma_ordered(keys@, s.panes@.dom());
        assert(keys@.take(0) =~= Seq::<u64>::empty());
    }
    let mut i: usize = 0;
    while i < keys.len()
        invariant
            i <= keys@.len(),
            m == inproc@,
            crate::pane::pairs(out@) == cast_files(
                m,
                session,
                keys@.take(i as int),
                dir@,
                shell@,
                now,
            ),
        decreases keys@.len() - i,
    {
        let ghost before = out@;
        proof {
            let longer = keys@.take(i as int + 1);
            assert(longer.drop_last() =~= keys@.take(i as int));
            assert(longer.last() == keys@[i as int]);
        }
        let pane = PaneId(keys[i]);
        let some = match inproc.recordings.get(pane.0) {
            Some(rec) => rec.event_count() > 0,
            None => false,
        };
        if some {
            match inproc.export_pane_recording(pane, shell, now) {
                Ok(cast) => {
                    let name = cast_file_name(session, now, pane);
                    let path = join(dir, name.as_str());
                    let ghost entry = (path@, cast@);
                    out.push((path, cast));
                    assert(crate::pane::pairs(out@) =~= crate::pane::pairs(before).push(entry));
                },
                Err(_) => {},
            }
        }
        i = i + 1;
    }
    assert(keys@.take(i as int) =~= keys@);
    out
}

} // verus!
