//! Which project belongs to which session: what is remembered when sessions are
//! created, named and killed.
use crate::id::SessionId;
use crate::table::{Duplicate, Table};
use crate::text::str_eq;
use crate::yurai;
use crate::yurai::clone_opt;
use vstd::prelude::*;
use vstd::string::StringExecFns;

verus! {

/// The family of names for sessions outside any project.
#[derive(Debug, Clone, Copy, PartialEq, Eq, Structural)]
pub enum SessionTheme {
    Frost,
    Brazil,
}

impl SessionTheme {
    /// The theme of a session, by its number.
    #[verifier::allow_in_spec]
    pub fn of(id: SessionId) -> SessionTheme
        returns
            (if id.0 % 2 == 0 {
                SessionTheme::Frost
            } else {
                SessionTheme::Brazil
            }),
    {
        if id.0 % 2 == 0 {
            SessionTheme::Frost
        } else {
            SessionTheme::Brazil
        }
    }
}

/// What a session is for.
#[derive(Debug, PartialEq, Eq)]
pub enum Place {
    /// The project with this root.
    Project { root: String },
    /// No project; named after a theme.
    Adhoc { theme: SessionTheme },
}

/// The contents of a [`Place`].
#[verifier::ext_equal]
pub enum PlaceView {
    Project { root: Seq<char> },
    Adhoc { theme: SessionTheme },
}

impl View for Place {
    type V = PlaceView;

    open spec fn view(&self) -> PlaceView {
        match self {
            Place::Project { root } => PlaceView::Project { root: root@ },
            Place::Adhoc { theme } => PlaceView::Adhoc { theme: *theme },
        }
    }
}

/// What is remembered of a session.
#[derive(Debug, PartialEq, Eq)]
pub struct SessionRecord {
    pub place: Place,
    pub cwd: String,
    /// How often it was opened.
    pub visits: u32,
    pub last_seen: u64,
    /// The name that the operator gave it.
    pub custom_name: Option<String>,
}

/// The contents of a [`SessionRecord`].
#[verifier::ext_equal]
pub struct RecordView {
    pub place: PlaceView,
    pub cwd: Seq<char>,
    pub visits: u32,
    pub last_seen: u64,
    pub custom_name: Option<Seq<char>>,
}

impl View for SessionRecord {
    type V = RecordView;

    open spec fn view(&self) -> RecordView {
        RecordView {
            place: self.place@,
            cwd: self.cwd@,
            visits: self.visits,
            last_seen: self.last_seen,
            custom_name: yurai::opt_text(self.custom_name),
        }
    }
}

impl Duplicate for SessionRecord {
    fn duplicate(&self) -> (r: SessionRecord) {
        SessionRecord {
            place: match &self.place {
                Place::Project { root } => Place::Project { root: root.clone() },
                Place::Adhoc { theme } => Place::Adhoc { theme: *theme },
            },
            cwd: self.cwd.clone(),
            visits: self.visits,
            last_seen: self.last_seen,
            custom_name: clone_opt(&self.custom_name),
        }
    }
}

/// Sessions by number, and the directories that lead to them.
#[derive(Debug)]
pub struct Praca {
    index: Table<SessionRecord>,
    binding: Vec<(String, SessionId)>,
}

/// The contents of a [`Praca`].
#[verifier::ext_equal]
pub struct PracaView {
    pub index: Map<u64, RecordView>,
    pub binding: Seq<(Seq<char>, SessionId)>,
}

/// The contents of a list of bindings.
pub open spec fn bindings(s: Seq<(String, SessionId)>) -> Seq<(Seq<char>, SessionId)> {
    Seq::new(s.len(), |i: int| (s[i].0@, s[i].1))
}

impl View for Praca {
    type V = PracaView;

    closed spec fn view(&self) -> PracaView {
        PracaView { index: self.index@, binding: bindings(self.binding@) }
    }
}

/// What is remembered, as two lists that can be written down.
#[derive(Debug, PartialEq, Eq)]
pub struct Kept {
    pub records: Vec<(u64, SessionRecord)>,
    pub bindings: Vec<(String, SessionId)>,
}

/// The contents of a list of records.
pub open spec fn records(s: Seq<(u64, SessionRecord)>) -> Seq<(u64, RecordView)> {
    Seq::new(s.len(), |i: int| (s[i].0, s[i].1@))
}

/// The records of a map under these numbers, in this order.
pub open spec fn records_under(m: Map<u64, RecordView>, keys: Seq<u64>) -> Seq<(u64, RecordView)> {
    Seq::new(keys.len(), |i: int| (keys[i], m[keys[i]]))
}

/// The map that a list of records makes; the last record of a number counts.
pub open spec fn filed(s: Seq<(u64, RecordView)>) -> Map<u64, RecordView>
    decreases s.len(),
{
    if s.len() == 0 {
        Map::empty()
    } else {
        filed(s.drop_last()).insert(s.last().0, s.last().1)
    }
}

/// The bindings of other directories.
pub open spec fn without_path(b: Seq<(Seq<char>, SessionId)>, path: Seq<char>) -> Seq<
    (Seq<char>, SessionId),
>
    decreases b.len(),
{
    if b.len() == 0 {
        b
    } else if b.last().0 == path {
        without_path(b.drop_last(), path)
    } else {
        without_path(b.drop_last(), path).push(b.last())
    }
}

/// The bindings that lead to other sessions.
pub open spec fn without_session(b: Seq<(Seq<char>, SessionId)>, id: SessionId) -> Seq<
    (Seq<char>, SessionId),
>
    decreases b.len(),
{
    if b.len() == 0 {
        b
    } else if b.last().1 == id {
        without_session(b.drop_last(), id)
    } else {
        without_session(b.drop_last(), id).push(b.last())
    }
}

impl PracaView {
    /// The session that a directory leads to.
    pub open spec fn lookup(self, path: Seq<char>) -> Option<SessionId> {
        bound_to(self.binding, path)
    }

    /// What is remembered once a session was created. Without a directory
    /// nothing is. A session that was there before keeps its count of visits.
    pub open spec fn created(
        self,
        id: SessionId,
        cwd: Option<Seq<char>>,
        project: Option<Seq<char>>,
        now: u64,
    ) -> PracaView {
        match cwd {
            None => self,
            Some(dir) => {
                let prior: u32 = if self.index.dom().contains(id.0) {
                    self.index[id.0].visits
                } else {
                    0
                };
                let anchor = match project {
                    Some(root) => root,
                    None => dir,
                };
                PracaView {
                    index: self.index.insert(
                        id.0,
                        RecordView {
                            place: match project {
                                Some(root) => PlaceView::Project { root },
                                None => PlaceView::Adhoc { theme: SessionTheme::of(id) },
                            },
                            cwd: dir,
                            visits: if prior < u32::MAX {
                                (prior + 1) as u32
                            } else {
                                u32::MAX
                            },
                            last_seen: now,
                            custom_name: None,
                        },
                    ),
                    binding: without_path(self.binding, anchor).push((anchor, id)),
                }
            },
        }
    }

    /// What is remembered once a session was killed.
    pub open spec fn killed(self, id: SessionId) -> PracaView {
        PracaView {
            index: self.index.remove(id.0),
            binding: without_session(self.binding, id),
        }
    }

    /// What is remembered once a session was named.
    pub open spec fn renamed(self, id: SessionId, name: Seq<char>) -> PracaView {
        if self.index.dom().contains(id.0) {
            PracaView {
                index: self.index.insert(
                    id.0,
                    RecordView { custom_name: Some(name), ..self.index[id.0] },
                ),
                ..self
            }
        } else {
            self
        }
    }
}

/// The session that a directory leads to.
pub open spec fn bound_to(b: Seq<(Seq<char>, SessionId)>, path: Seq<char>) -> Option<SessionId>
    decreases b.len(),
{
    if b.len() == 0 {
        None
    } else if b.last().0 == path {
        Some(b.last().1)
    } else {
        bound_to(b.drop_last(), path)
    }
}

impl Praca {
    pub fn new() -> (p: Praca)
        ensures
            p@ == (PracaView { index: Map::empty(), binding: Seq::empty() }),
    {
        let p = Praca { index: Table::new(), binding: Vec::new() };
        assert(p@.binding =~= Seq::<(Seq<char>, SessionId)>::empty());
        p
    }

    /// What is remembered, to be written down: the records in the order of their
    /// numbers, and the bindings in their own.
    pub fn keep(&self) -> (k: Kept)
        ensures
            records(k.records@) == records_under(
                self@.index,
                crate::table::ordered(self@.index.dom()),
            ),
            bindings(k.bindings@) == self@.binding,
            self@.index.dom().finite(),
    {
        let keys = self.index.keys();
        let ghost m = self@.index;
        proof {
            crate::table::lemma_lists_len(keys@, m.dom());
        }
        let mut list: Vec<(u64, SessionRecord)> = Vec::new();
        let mut i: usize = 0;
        assert(records(list@) =~= records_under(m, keys@.take(0)));
        while i < keys.len()
            invariant
                i <= keys@.len(),
                m == self.index@,
                crate::table::lists(keys@, m.dom()),
                records(list@) == records_under(m, keys@.take(i as int)),
            decreases keys@.len() - i,
        {
            let k: u64 = keys[i];
            let ghost before = records(list@);
            assert(keys@.contains(keys@[i as int]));
            match self.index.get(k) {
                Some(rec) => {
                    list.push((k, rec.duplicate()));
                    assert(records(list@) =~= before.push((k, m[k])));
                },
                None => {},
            }
            proof {
                let longer = keys@.take(i as int + 1);
                assert(longer.drop_last() =~= keys@.take(i as int));
                assert(records_under(m, longer) =~= before.push((k, m[k])));
            }
            i = i + 1;
        }
        assert(keys@.take(keys@.len() as int) =~= keys@);
        let mut paths: Vec<(String, SessionId)> = Vec::new();
        let mut j: usize = 0;
        assert(bindings(paths@) =~= self@.binding.take(0));
        while j < self.binding.len()
            invariant
                j <= self.binding@.len(),
                bindings(paths@) == self@.binding.take(j as int),
            decreases self.binding@.len() - j,
        {
            let ghost before = bindings(paths@);
            let path = self.binding[j].0.clone();
            let id = self.binding[j].1;
            paths.push((path, id));
            assert(bindings(paths@) =~= before.push((path@, id)));
            assert(self@.binding.take(j as int + 1) =~= before.push(self@.binding[j as int]));
            j = j + 1;
        }
        assert(self@.binding.take(self@.binding.len() as int) =~= self@.binding);
        Kept { records: list, bindings: paths }
    }

    /// What was written down is remembered again.
    pub fn restore(k: Kept) -> (p: Praca)
        ensures
            p@ == (PracaView { index: filed(records(k.records@)), binding: bindings(k.bindings@) }),
    {
        let ghost all = records(k.records@);
        let n: usize = k.records.len();
        let mut index: Table<SessionRecord> = Table::new();
        let mut i: usize = 0;
        assert(all.take(0) =~= Seq::<(u64, RecordView)>::empty());
        while i < n
            invariant
                i <= n == k.records@.len(),
                all == records(k.records@),
                index@ == filed(all.take(i as int)),
            decreases n - i,
        {
            index.insert(k.records[i].0, k.records[i].1.duplicate());
            proof {
                let longer = all.take(i as int + 1);
                assert(longer.drop_last() =~= all.take(i as int));
                assert(longer.last() == all[i as int]);
            }
            i = i + 1;
        }
        assert(all.take(n as int) =~= all);
        Praca { index, binding: k.bindings }
    }

    /// What is remembered of a session.
    pub fn record(&self, id: SessionId) -> (r: Option<&SessionRecord>)
        ensures
            match r {
                Some(rec) => self@.index.dom().contains(id.0) && rec@ == self@.index[id.0],
                None => !self@.index.dom().contains(id.0),
            },
    {
        self.index.get(id.0)
    }

    /// The session that a directory leads to.
    pub fn lookup(&self, path: &str) -> (r: Option<SessionId>)
        ensures
            r == self@.lookup(path@),
    {
        let ghost all = self@.binding;
        let mut i: usize = self.binding.len();
        assert(all.take(i as int) =~= all);
        while i > 0
            invariant
                i <= self.binding@.len(),
                all == bindings(self.binding@),
                bound_to(all, path@) == bound_to(all.take(i as int), path@),
            decreases i,
        {
            let ghost part = all.take(i as int);
            i = i - 1;
            assert(part.drop_last() =~= all.take(i as int));
            assert(part.last() == all[i as int]);
            if str_eq(self.binding[i].0.as_str(), path) {
                return Some(self.binding[i].1);
            }
        }
        None
    }

    /// Remembers that a session was created in a directory, perhaps of a project.
    pub fn on_session_create(
        &mut self,
        id: SessionId,
        cwd: Option<String>,
        project: Option<String>,
        now: u64,
    )
        ensures
            final(self)@ == old(self)@.created(
                id,
                yurai::opt_text(cwd),
                yurai::opt_text(project),
                now,
            ),
    {
        let dir = match cwd {
            Some(d) => d,
            None => {
                return;
            },
        };
        let prior: u32 = match self.index.get(id.0) {
            Some(r) => r.visits,
            None => 0,
        };
        let visits: u32 = if prior < u32::MAX {
            prior + 1
        } else {
            u32::MAX
        };
        let (place, anchor) = match project {
            Some(root) => (Place::Project { root: root.clone() }, root),
            None => (Place::Adhoc { theme: SessionTheme::of(id) }, dir.clone()),
        };
        self.index.insert(
            id.0,
            SessionRecord { place, cwd: dir, visits, last_seen: now, custom_name: None },
        );
        self.bind(anchor, id);
    }

    /// A directory leads to a session from now on.
    pub fn bind(&mut self, path: String, id: SessionId)
        ensures
            final(self)@ == (PracaView {
                binding: without_path(old(self)@.binding, path@).push((path@, id)),
                ..old(self)@
            }),
    {
        let ghost all = self@.binding;
        let mut kept: Vec<(String, SessionId)> = Vec::new();
        let mut i: usize = 0;
        assert(all.take(0) =~= Seq::<(Seq<char>, SessionId)>::empty());
        assert(bindings(kept@) =~= without_path(all.take(0), path@));
        while i < self.binding.len()
            invariant
                i <= self.binding@.len(),
                all == bindings(self.binding@),
                bindings(kept@) == without_path(all.take(i as int), path@),
            decreases self.binding@.len() - i,
        {
            let ghost before = kept@;
            proof {
                let longer = all.take(i as int + 1);
                assert(longer.drop_last() =~= all.take(i as int));
                assert(longer.last() == all[i as int]);
            }
            if !str_eq(self.binding[i].0.as_str(), path.as_str()) {
                kept.push((self.binding[i].0.clone(), self.binding[i].1));
                assert(bindings(kept@) =~= bindings(before).push(all[i as int]));
            }
            i = i + 1;
        }
        assert(all.take(i as int) =~= all);
        let ghost before = kept@;
        let ghost entry = (path@, id);
        kept.push((path, id));
        assert(bindings(kept@) =~= bindings(before).push(entry));
        self.binding = kept;
    }

    /// Forgets a session that was killed, and every directory that led to it.
    pub fn on_session_kill(&mut self, id: SessionId)
        ensures
            final(self)@ == old(self)@.killed(id),
    {
        let _ = self.index.remove(id.0);
        let ghost all = self@.binding;
        let mut kept: Vec<(String, SessionId)> = Vec::new();
        let mut i: usize = 0;
        assert(all.take(0) =~= Seq::<(Seq<char>, SessionId)>::empty());
        assert(bindings(kept@) =~= without_session(all.take(0), id));
        while i < self.binding.len()
            invariant
                i <= self.binding@.len(),
                all == bindings(self.binding@),
                bindings(kept@) == without_session(all.take(i as int), id),
            decreases self.binding@.len() - i,
        {
            let ghost before = kept@;
            proof {
                let longer = all.take(i as int + 1);
                assert(longer.drop_last() =~= all.take(i as int));
                assert(longer.last() == all[i as int]);
            }
            if self.binding[i].1 != id {
                kept.push((self.binding[i].0.clone(), self.binding[i].1));
                assert(bindings(kept@) =~= bindings(before).push(all[i as int]));
            }
            i = i + 1;
        }
        assert(all.take(i as int) =~= all);
        self.binding = kept;
    }

    /// Remembers the name that the operator gave a session, if it is known.
    pub fn on_session_rename(&mut self, id: SessionId, new_name: &str)
        ensures
            final(self)@ == old(self)@.renamed(id, new_name@),
    {
        let ghost before = self.index@;
        match self.index.remove(id.0) {
            Some(mut rec) => {
                rec.custom_name = Some(String::from_str(new_name));
                self.index.insert(id.0, rec);
                proof {
                    crate::lookup::lemma_put_back(before, id.0, rec@);
                }
            },
            None => {},
        }
    }
}

// ── what is remembered ──

proof fn lemma_without_path(b: Seq<(Seq<char>, SessionId)>, path: Seq<char>, other: Seq<char>)
    ensures
        bound_to(without_path(b, path), path) is None,
        other != path ==> bound_to(without_path(b, path), other) == bound_to(b, other),
    decreases b.len(),
{
    if b.len() > 0 {
        lemma_without_path(b.drop_last(), path, other);
        let rest = without_path(b.drop_last(), path);
        if b.last().0 != path {
            assert(rest.push(b.last()).drop_last() =~= rest);
        }
    }
}

/// After a session was created in a directory, the directory, or its project,
/// leads to it; every other directory leads where it led before.
pub proof fn lemma_created_session_is_bound(
    p: PracaView,
    id: SessionId,
    cwd: Seq<char>,
    project: Option<Seq<char>>,
    now: u64,
    other: Seq<char>,
)
    ensures
        ({
            let anchor = match project {
                Some(root) => root,
                None => cwd,
            };
            let after = p.created(id, Some(cwd), project, now);
            &&& after.lookup(anchor) == Some(id)
            &&& other != anchor ==> after.lookup(other) == p.lookup(other)
            &&& after.index.dom().contains(id.0)
        }),
{
    let anchor = match project {
        Some(root) => root,
        None => cwd,
    };
    lemma_without_path(p.binding, anchor, other);
    let rest = without_path(p.binding, anchor);
    assert(rest.push((anchor, id)).drop_last() =~= rest);
}

proof fn lemma_without_session(
    b: Seq<(Seq<char>, SessionId)>,
    id: SessionId,
    path: Seq<char>,
)
    requires
        paths_once(b),
    ensures
        bound_to(without_session(b, id), path) == if bound_to(b, path) == Some(id) {
            None
        } else {
            bound_to(b, path)
        },
    decreases b.len(),
{
    if b.len() > 0 {
        let front = b.drop_last();
        assert(paths_once(front));
        lemma_without_session(front, id, path);
        let rest = without_session(front, id);
        if b.last().0 == path {
            lemma_unbound(front, path);
        }
        if b.last().1 != id {
            assert(rest.push(b.last()).drop_last() =~= rest);
        }
    }
}

proof fn lemma_unbound(b: Seq<(Seq<char>, SessionId)>, path: Seq<char>)
    requires
        forall|i: int| 0 <= i < b.len() ==> (#[trigger] b[i]).0 != path,
    ensures
        bound_to(b, path) is None,
    decreases b.len(),
{
    if b.len() > 0 {
        assert(b.last().0 != path);
        let front = b.drop_last();
        assert forall|i: int| 0 <= i < front.len() implies (#[trigger] front[i]).0 != path by {
            assert(front[i] == b[i]);
        }
        lemma_unbound(front, path);
    }
}

/// No directory is bound twice.
pub open spec fn paths_once(b: Seq<(Seq<char>, SessionId)>) -> bool {
    forall|i: int, j: int|
        0 <= i < j < b.len() ==> (#[trigger] b[i]).0 != (#[trigger] b[j]).0
}

/// After a session was killed no directory leads to it, and every directory that
/// led elsewhere still does.
pub proof fn lemma_killed_session_is_unbound(p: PracaView, id: SessionId, path: Seq<char>)
    requires
        paths_once(p.binding),
    ensures
        p.killed(id).lookup(path) != Some(id),
        p.lookup(path) != Some(id) ==> p.killed(id).lookup(path) == p.lookup(path),
        !p.killed(id).index.dom().contains(id.0),
{
    lemma_without_session(p.binding, id, path);
}

/// No directory ever comes to be bound twice.
pub proof fn lemma_paths_stay_once(
    p: PracaView,
    id: SessionId,
    cwd: Option<Seq<char>>,
    project: Option<Seq<char>>,
    now: u64,
    name: Seq<char>,
)
    requires
        paths_once(p.binding),
    ensures
        paths_once(p.created(id, cwd, project, now).binding),
        paths_once(p.killed(id).binding),
        paths_once(p.renamed(id, name).binding),
{
    lemma_without_session_once(p.binding, id);
    match cwd {
        Some(dir) => {
            let anchor = match project {
                Some(root) => root,
                None => dir,
            };
            lemma_without_path_once(p.binding, anchor);
        },
        None => {},
    }
}

proof fn lemma_without_path_once(b: Seq<(Seq<char>, SessionId)>, path: Seq<char>)
    requires
        paths_once(b),
    ensures
        paths_once(without_path(b, path)),
        forall|i: int|
            0 <= i < without_path(b, path).len() ==> (#[trigger] without_path(b, path)[i]).0 != path
                && b.contains(without_path(b, path)[i]),
    decreases b.len(),
{
    if b.len() > 0 {
        let front = b.drop_last();
        assert(paths_once(front));
        lemma_without_path_once(front, path);
        let rest = without_path(front, path);
        assert forall|i: int| 0 <= i < rest.len() implies b.contains(#[trigger] rest[i])
            && rest[i].0 != b.last().0 by {
            let j = choose|j: int| 0 <= j < front.len() && front[j] == rest[i];
            assert(b[j] == rest[i]);
            assert(b[b.len() - 1] == b.last());
        }
        assert(b.contains(b.last())) by {
            assert(b[b.len() - 1] == b.last());
        }
    }
}

proof fn lemma_without_session_once(b: Seq<(Seq<char>, SessionId)>, id: SessionId)
    requires
        paths_once(b),
    ensures
        paths_once(without_session(b, id)),
        forall|i: int|
            0 <= i < without_session(b, id).len() ==> b.contains(
                #[trigger] without_session(b, id)[i],
            ),
    decreases b.len(),
{
    if b.len() > 0 {
        let front = b.drop_last();
        assert(paths_once(front));
        lemma_without_session_once(front, id);
        let rest = without_session(front, id);
        assert forall|i: int| 0 <= i < rest.len() implies b.contains(#[trigger] rest[i])
            && rest[i].0 != b.last().0 by {
            let j = choose|j: int| 0 <= j < front.len() && front[j] == rest[i];
            assert(b[j] == rest[i]);
            assert(b[b.len() - 1] == b.last());
        }
        assert(b.contains(b.last())) by {
            assert(b[b.len() - 1] == b.last());
        }
    }
}

/// Opening a session again counts one more visit, up to the greatest count.
pub proof fn lemma_visits_add_up(
    p: PracaView,
    id: SessionId,
    cwd: Seq<char>,
    project: Option<Seq<char>>,
    t1: u64,
    t2: u64,
)
    ensures
        ({
            let once = p.created(id, Some(cwd), project, t1);
            let twice = once.created(id, Some(cwd), project, t2);
            let n = once.index[id.0].visits;
            &&& n >= 1
            &&& twice.index[id.0].visits == if n < u32::MAX {
                n + 1
            } else {
                n as int
            }
        }),
{
}

proof fn lemma_filed_under(m: Map<u64, RecordView>, keys: Seq<u64>)
    ensures
        forall|k: u64| #[trigger]
            filed(records_under(m, keys)).dom().contains(k) <==> keys.contains(k),
        forall|k: u64| #[trigger]
            keys.contains(k) ==> filed(records_under(m, keys))[k] == m[k],
    decreases keys.len(),
{
    let all = records_under(m, keys);
    if keys.len() > 0 {
        let rest = keys.drop_last();
        lemma_filed_under(m, rest);
        assert(all.drop_last() =~= records_under(m, rest));
        assert(all.last() == (keys.last(), m[keys.last()]));
        assert forall|k: u64| #[trigger] keys.contains(k) <==> (rest.contains(k) || k
            == keys.last()) by {
            if keys.contains(k) {
                let i = choose|i: int| 0 <= i < keys.len() && keys[i] == k;
                if i < rest.len() {
                    assert(rest[i] == k);
                }
            }
            if rest.contains(k) {
                let i = choose|i: int| 0 <= i < rest.len() && rest[i] == k;
                assert(keys[i] == k);
            }
            assert(keys[keys.len() - 1] == keys.last());
        }
        assert forall|k: u64| #[trigger] filed(all).dom().contains(k) <==> keys.contains(k) by {
            assert(filed(all).dom().contains(k) <==> (filed(all.drop_last()).dom().contains(k) || k
                == keys.last()));
        }
    }
}

/// What was kept is remembered again, whole.
pub proof fn lemma_kept_memory_comes_back(p: PracaView, k: Kept)
    requires
        p.index.dom().finite(),
        records(k.records@) == records_under(p.index, crate::table::ordered(p.index.dom())),
        bindings(k.bindings@) == p.binding,
    ensures
        (PracaView { index: filed(records(k.records@)), binding: bindings(k.bindings@) }) == p,
{
    let keys = crate::table::ordered(p.index.dom());
    crate::inproc_laws::lemma_ordered_lists(p.index.dom());
    lemma_filed_under(p.index, keys);
    assert(filed(records_under(p.index, keys)) =~= p.index);
}

} // verus!
