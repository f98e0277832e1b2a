//! What the daemon at the other end can do, as it says itself.
use crate::control::{joined, ControlError, ControlErrorView};
use crate::genesis;
use crate::pane::clone_texts;
use crate::text;
use crate::text::{chars_of, str_eq};
use crate::yurai;
use vstd::prelude::*;
use vstd::string::StringExecFns;

verus! {

/// One thing a daemon can do.
#[derive(Debug, Clone, Copy, PartialEq, Eq, PartialOrd, Ord, Hash, Structural)]
pub enum Capability {
    /// The daemon hands the arguments of a spawn request to the program.
    SpawnArgs,
}

impl Capability {
    pub open spec fn name(self) -> Seq<char> {
        match self {
            Capability::SpawnArgs => "spawn-args"@,
        }
    }

    pub open spec fn spec_all() -> Seq<Capability> {
        seq![Capability::SpawnArgs]
    }

    /// Every capability there is a name for.
    pub fn all() -> (r: Vec<Capability>)
        ensures
            r@ == Capability::spec_all(),
            forall|c: Capability| #[trigger] r@.contains(c),
    {
        let r = vec![Capability::SpawnArgs];
        proof {
            assert(r@ =~= Capability::spec_all());
            assert forall|c: Capability| #[trigger] r@.contains(c) by {
                assert(r@[0] == Capability::SpawnArgs);
            }
        }
        r
    }

    /// The name on the wire.
    pub fn wire_name(self) -> (r: &'static str)
        ensures
            r@ == self.name(),
    {
        match self {
            Capability::SpawnArgs => "spawn-args",
        }
    }

    /// The capability of a name; none for a name from another vocabulary.
    pub fn from_wire(s: &str) -> (r: Option<Capability>)
        ensures
            match r {
                Some(c) => c.name() == s@,
                None => forall|c: Capability| #[trigger] c.name() != s@,
            },
    {
        if str_eq(s, Capability::SpawnArgs.wire_name()) {
            Some(Capability::SpawnArgs)
        } else {
            None
        }
    }

    /// Whether this build has the capability.
    #[verifier::allow_in_spec]
    pub fn advertised(self) -> bool
        returns
            (match self {
                Capability::SpawnArgs => true,
            }),
    {
        match self {
            Capability::SpawnArgs => true,
        }
    }
}

/// Two capabilities have two names.
pub proof fn lemma_capability_names_are_unique(a: Capability, b: Capability)
    ensures
        a.name() == b.name() ==> a == b,
{
}

/// What a daemon answers to a greeting.
#[derive(Debug, PartialEq, Eq)]
pub struct DaemonHello {
    pub daemon_version: String,
    pub capabilities: Vec<String>,
}

/// The contents of a [`DaemonHello`].
#[verifier::ext_equal]
pub struct HelloView {
    pub version: Seq<char>,
    pub capabilities: Seq<Seq<char>>,
}

/// The names that this build advertises.
pub open spec fn advertised_names(all: Seq<Capability>) -> Seq<Seq<char>>
    decreases all.len(),
{
    if all.len() == 0 {
        Seq::empty()
    } else if all.last().advertised() {
        advertised_names(all.drop_last()).push(all.last().name())
    } else {
        advertised_names(all.drop_last())
    }
}

impl View for DaemonHello {
    type V = HelloView;

    open spec fn view(&self) -> HelloView {
        HelloView {
            version: self.daemon_version@,
            capabilities: genesis::texts(self.capabilities@),
        }
    }
}

impl HelloView {
    pub open spec fn of_this_build(version: Seq<char>) -> HelloView {
        HelloView { version, capabilities: advertised_names(Capability::spec_all()) }
    }
}

impl Clone for DaemonHello {
    fn clone(&self) -> (r: DaemonHello)
        ensures
            r@ == self@,
    {
        DaemonHello {
            daemon_version: self.daemon_version.clone(),
            capabilities: crate::pane::clone_texts(&self.capabilities),
        }
    }
}

impl DaemonHello {
    /// The greeting of this build.
    pub fn for_this_build(daemon_version: &str) -> (r: DaemonHello)
        ensures
            r@ == HelloView::of_this_build(daemon_version@),
    {
        let all = Capability::all();
        let mut names: Vec<String> = Vec::new();
        let mut i: usize = 0;
        proof {
            assert(all@.take(0) =~= Seq::<Capability>::empty());
            assert(genesis::texts(names@) =~= advertised_names(all@.take(0)));
        }
        while i < all.len()
            invariant
                i <= all@.len(),
                genesis::texts(names@) == advertised_names(all@.take(i as int)),
            decreases all@.len() - i,
        {
            let c = all[i];
            proof {
                assert(all@.take(i as int + 1).drop_last() =~= all@.take(i as int));
            }
            if c.advertised() {
                let ghost before = names@;
                let name = String::from_str(c.wire_name());
                names.push(name);
                assert(genesis::texts(names@) =~= genesis::texts(before).push(name@));
            }
            i = i + 1;
        }
        assert(all@.take(i as int) =~= all@);
        DaemonHello { daemon_version: String::from_str(daemon_version), capabilities: names }
    }
}

/// Whether one text comes before another, by its characters.
pub open spec fn before(a: Seq<char>, b: Seq<char>) -> bool
    decreases a.len(),
{
    if b.len() == 0 {
        false
    } else if a.len() == 0 {
        true
    } else if a[0] != b[0] {
        a[0] < b[0]
    } else {
        before(a.drop_first(), b.drop_first())
    }
}

proof fn lemma_before_trichotomy(a: Seq<char>, b: Seq<char>)
    ensures
        before(a, b) || before(b, a) || a == b,
        !(before(a, b) && before(b, a)),
        !before(a, a),
    decreases a.len(),
{
    if a.len() == 0 && b.len() == 0 {
        assert(a =~= b);
    } else if a.len() > 0 && b.len() > 0 {
        lemma_before_trichotomy(a.drop_first(), b.drop_first());
        if a.drop_first() == b.drop_first() && a[0] == b[0] {
            assert(a =~= seq![a[0]] + a.drop_first());
            assert(b =~= seq![b[0]] + b.drop_first());
        }
    } else if a.len() > 0 {
        lemma_before_trichotomy(a.drop_first(), a.drop_first());
    }
}

proof fn lemma_before_transitive(a: Seq<char>, b: Seq<char>, c: Seq<char>)
    requires
        before(a, b),
        before(b, c),
    ensures
        before(a, c),
    decreases a.len(),
{
    if a.len() > 0 && a[0] == b[0] && b[0] == c[0] {
        lemma_before_transitive(a.drop_first(), b.drop_first(), c.drop_first());
    }
}

fn comes_before(a: &str, b: &str) -> (r: bool)
    ensures
        r == before(a@, b@),
{
    let x = chars_of(a);
    let y = chars_of(b);
    let mut i: usize = 0;
    assert(x@.skip(0) =~= x@);
    assert(y@.skip(0) =~= y@);
    while i < x.len() && i < y.len() && x[i] == y[i]
        invariant
            i <= x@.len(),
            i <= y@.len(),
            before(x@, y@) == before(x@.skip(i as int), y@.skip(i as int)),
        decreases x@.len() - i,
    {
        assert(x@.skip(i as int).drop_first() =~= x@.skip(i as int + 1));
        assert(y@.skip(i as int).drop_first() =~= y@.skip(i as int + 1));
        i = i + 1;
    }
    if i >= y.len() {
        false
    } else if i >= x.len() {
        true
    } else {
        x[i] < y[i]
    }
}

/// Names in order, none twice.
pub open spec fn sorted_names(s: Seq<Seq<char>>) -> bool {
    forall|i: int, j: int| 0 <= i < j < s.len() ==> before(#[trigger] s[i], #[trigger] s[j])
}

/// `s` holds exactly the names of `t`, in order and each once.
pub open spec fn name_set(s: Seq<Seq<char>>, t: Seq<Seq<char>>) -> bool {
    &&& sorted_names(s)
    &&& forall|x: Seq<char>| #[trigger] s.contains(x) <==> t.contains(x)
}

/// A client's view of the daemon it is connected to.
#[derive(Debug, PartialEq, Eq)]
pub struct DaemonIdentity {
    version: Option<String>,
    names: Vec<String>,
}

/// The contents of a [`DaemonIdentity`].
#[verifier::ext_equal]
pub struct IdentityView {
    pub version: Option<Seq<char>>,
    /// The capabilities by name, in order and each once.
    pub names: Seq<Seq<char>>,
}

impl View for DaemonIdentity {
    type V = IdentityView;

    closed spec fn view(&self) -> IdentityView {
        IdentityView {
            version: yurai::opt_text(self.version),
            names: genesis::texts(self.names@),
        }
    }
}

impl Clone for DaemonIdentity {
    fn clone(&self) -> (r: DaemonIdentity)
        ensures
            r@ == self@,
    {
        proof {
            use_type_invariant(self);
        }
        DaemonIdentity { version: yurai::clone_opt(&self.version), names: clone_texts(&self.names) }
    }
}

impl Default for DaemonIdentity {
    /// A daemon that could not answer the greeting.
    fn default() -> (r: DaemonIdentity)
        ensures
            r@.version is None,
            r@.names.len() == 0,
    {
        DaemonIdentity::pre_capability()
    }
}

fn put_name(names: &mut Vec<String>, name: &String)
    requires
        sorted_names(genesis::texts(old(names)@)),
    ensures
        sorted_names(genesis::texts(final(names)@)),
        forall|x: Seq<char>| #[trigger]
            genesis::texts(final(names)@).contains(x) <==> (genesis::texts(old(names)@).contains(x)
                || x == name@),
{
    let ghost start = genesis::texts(names@);
    let mut i: usize = 0;
    while i < names.len() && comes_before(names[i].as_str(), name.as_str())
        invariant
            i <= names@.len(),
            start == genesis::texts(names@),
            forall|j: int| 0 <= j < i ==> before(#[trigger] start[j], name@),
        decreases names@.len() - i,
    {
        assert(start[i as int] == names@[i as int]@);
        i = i + 1;
    }
    if i < names.len() && str_eq(names[i].as_str(), name.as_str()) {
        assert(start[i as int] == name@);
        assert(start.contains(name@));
        return;
    }
    names.insert(i, name.clone());
    proof {
        let after = genesis::texts(names@);
        assert(after =~= start.insert(i as int, name@));
        assert forall|j: int| i <= j < start.len() implies before(name@, #[trigger] start[j]) by {
            lemma_before_trichotomy(start[i as int], name@);
            if j > i {
                lemma_before_transitive(name@, start[i as int], start[j]);
            }
        }
        assert forall|a: int, b: int| 0 <= a < b < after.len() implies before(
            #[trigger] after[a],
            #[trigger] after[b],
        ) by {
            let pa = if a < i {
                a
            } else {
                a - 1
            };
            let pb = if b < i {
                b
            } else {
                b - 1
            };
            if a == i {
                assert(after[b] == start[pb]);
            } else if b == i {
                assert(after[a] == start[pa]);
            } else {
                assert(after[a] == start[pa]);
                assert(after[b] == start[pb]);
            }
        }
        assert forall|x: Seq<char>| #[trigger] after.contains(x) <==> (start.contains(x) || x
            == name@) by {
            if after.contains(x) {
                let a = choose|a: int| 0 <= a < after.len() && after[a] == x;
                if a != i {
                    let p = if a < i {
                        a
                    } else {
                        a - 1
                    };
                    assert(start[p] == x);
                }
            }
            if start.contains(x) {
                let p = choose|p: int| 0 <= p < start.len() && start[p] == x;
                let a = if p < i {
                    p
                } else {
                    p + 1
                };
                assert(after[a] == x);
            }
            assert(after[i as int] == name@);
        }
    }
}

impl IdentityView {
    pub open spec fn has(self, cap: Capability) -> bool {
        self.names.contains(cap.name())
    }

    /// What a call that needs a capability is told by a daemon without it.
    pub open spec fn refusal(self, cap: Capability, detail: Seq<char>) -> ControlErrorView {
        let who = match self.version {
            Some(v) => "daemon "@ + v + " does not advertise it"@,
            None => "the daemon predates capability negotiation and advertises nothing"@,
        };
        ControlErrorView::Unsupported {
            capability: cap.name(),
            detail: detail + " ("@ + who
                + "); restart the tear daemon on a build that has it"@,
        }
    }
}

impl DaemonIdentity {
    #[verifier::type_invariant]
    spec fn in_order(self) -> bool {
        sorted_names(genesis::texts(self.names@))
    }

    /// A daemon that could not answer the greeting.
    pub fn pre_capability() -> (r: DaemonIdentity)
        ensures
            r@.version is None,
            r@.names.len() == 0,
    {
        let names: Vec<String> = Vec::new();
        assert(genesis::texts(names@) =~= Seq::empty());
        DaemonIdentity { version: None, names }
    }

    /// A daemon by its greeting.
    pub fn from_hello(hello: DaemonHello) -> (r: DaemonIdentity)
        ensures
            r@.version == Some(hello@.version),
            name_set(r@.names, hello@.capabilities),
    {
        let ghost all = hello@.capabilities;
        let mut names: Vec<String> = Vec::new();
        let mut i: usize = 0;
        assert(genesis::texts(names@) =~= Seq::<Seq<char>>::empty());
        assert(all.take(0) =~= Seq::<Seq<char>>::empty());
        while i < hello.capabilities.len()
            invariant
                i <= hello.capabilities@.len(),
                all == genesis::texts(hello.capabilities@),
                name_set(genesis::texts(names@), all.take(i as int)),
            decreases hello.capabilities@.len() - i,
        {
            let ghost shorter = all.take(i as int);
            let ghost longer = all.take(i as int + 1);
            let ghost held = genesis::texts(names@);
            put_name(&mut names, &hello.capabilities[i]);
            proof {
                let name = all[i as int];
                assert(name == hello.capabilities@[i as int]@);
                let now = genesis::texts(names@);
                assert forall|x: Seq<char>| #[trigger] now.contains(x) <==> longer.contains(x) by {
                    if longer.contains(x) {
                        let a = choose|a: int| 0 <= a < longer.len() && longer[a] == x;
                        if a < i {
                            assert(shorter[a] == x);
                            assert(shorter.contains(x));
                            assert(held.contains(x));
                        }
                    }
                    if now.contains(x) && x != name {
                        assert(held.contains(x));
                        assert(shorter.contains(x));
                        let a = choose|a: int| 0 <= a < shorter.len() && shorter[a] == x;
                        assert(longer[a] == x);
                    }
                    assert(longer[i as int] == name);
                }
            }
            i = i + 1;
        }
        assert(all.take(i as int) =~= all);
        DaemonIdentity { version: Some(hello.daemon_version), names }
    }

    /// The identity of a backend in this process.
    pub fn local(version: &str) -> (r: DaemonIdentity)
        ensures
            r@.version == Some(version@),
            name_set(r@.names, HelloView::of_this_build(version@).capabilities),
    {
        DaemonIdentity::from_hello(DaemonHello::for_this_build(version))
    }

    /// The daemon's own version, if it told.
    pub fn version(&self) -> (r: Option<&str>)
        ensures
            match r {
                Some(s) => self@.version == Some(s@),
                None => self@.version is None,
            },
    {
        match &self.version {
            Some(s) => Some(s.as_str()),
            None => None,
        }
    }

    /// Whether the daemon could not answer at all.
    pub fn is_pre_capability(&self) -> (b: bool)
        ensures
            b == (self@.version is None && self@.names.len() == 0),
    {
        self.version.is_none() && self.names.len() == 0
    }

    /// The capabilities by name, in order.
    pub fn capability_names(&self) -> (r: Vec<&str>)
        ensures
            r@.len() == self@.names.len(),
            forall|i: int| 0 <= i < r@.len() ==> (#[trigger] r@[i])@ == self@.names[i],
            sorted_names(self@.names),
    {
        proof {
            use_type_invariant(self);
        }
        let mut r: Vec<&str> = Vec::new();
        let mut i: usize = 0;
        while i < self.names.len()
            invariant
                i <= self.names@.len(),
                r@.len() == i,
                forall|j: int| 0 <= j < i ==> (#[trigger] r@[j])@ == self.names@[j]@,
            decreases self.names@.len() - i,
        {
            r.push(self.names[i].as_str());
            i = i + 1;
        }
        r
    }

    /// Whether the daemon has a capability.
    pub fn has(&self, cap: Capability) -> (b: bool)
        ensures
            b == self@.has(cap),
    {
        let name = cap.wire_name();
        let mut i: usize = 0;
        while i < self.names.len()
            invariant
                i <= self.names@.len(),
                name@ == cap.name(),
                forall|j: int| 0 <= j < i ==> #[trigger] self@.names[j] != name@,
            decreases self.names@.len() - i,
        {
            if str_eq(self.names[i].as_str(), name) {
                assert(self@.names[i as int] == name@);
                return true;
            }
            i = i + 1;
        }
        false
    }

    /// Refuses a call that needs a capability the daemon does not have.
    pub fn require(&self, cap: Capability, detail: &str) -> (r: Result<(), ControlError>)
        ensures
            match r {
                Ok(()) => self@.has(cap),
                Err(e) => !self@.has(cap) && e@ == self@.refusal(cap, detail@),
            },
    {
        if self.has(cap) {
            return Ok(());
        }
        let who = match &self.version {
            Some(v) => {
                let mut s = joined("daemon ", v.as_str());
                s.append(" does not advertise it");
                s
            },
            None => String::from_str(
                "the daemon predates capability negotiation and advertises nothing",
            ),
        };
        let mut text = joined(detail, " (");
        text.append(who.as_str());
        text.append("); restart the tear daemon on a build that has it");
        Err(
            ControlError::Unsupported {
                capability: String::from_str(cap.wire_name()),
                detail: text,
            },
        )
    }
}

/// The names of a set are listed in one way.
pub proof fn lemma_name_set_is_unique(a: Seq<Seq<char>>, b: Seq<Seq<char>>, t: Seq<Seq<char>>)
    requires
        name_set(a, t),
        name_set(b, t),
    ensures
        a == b,
{
    lemma_same_names(a, b);
}

proof fn lemma_same_names(a: Seq<Seq<char>>, b: Seq<Seq<char>>)
    requires
        sorted_names(a),
        sorted_names(b),
        forall|x: Seq<char>| #[trigger] a.contains(x) <==> b.contains(x),
    ensures
        a == b,
    decreases a.len(),
{
    if a.len() == 0 {
        if b.len() > 0 {
            assert(b.contains(b[0]));
            assert(a.contains(b[0]));
        }
        assert(a =~= b);
    } else {
        let x = a.last();
        assert(a.contains(x));
        assert(b.contains(x));
        let y = b.last();
        assert(b.contains(y));
        assert(a.contains(y));
        let i = choose|i: int| 0 <= i < a.len() && a[i] == y;
        let j = choose|j: int| 0 <= j < b.len() && b[j] == x;
        lemma_before_trichotomy(x, y);
        assert(x == y) by {
            if i < a.len() - 1 {
                assert(before(a[i], a[a.len() - 1]));
            }
            if j < b.len() - 1 {
                assert(before(b[j], b[b.len() - 1]));
            }
        }
        lemma_before_trichotomy(x, x);
        let ra = a.drop_last();
        let rb = b.drop_last();
        assert forall|z: Seq<char>| #[trigger] ra.contains(z) <==> rb.contains(z) by {
            if ra.contains(z) {
                let p = choose|p: int| 0 <= p < ra.len() && ra[p] == z;
                assert(a[p] == z);
                assert(a.contains(z));
                assert(b.contains(z));
                let q = choose|q: int| 0 <= q < b.len() && b[q] == z;
                assert(before(a[p], a[a.len() - 1]));
                assert(q < b.len() - 1);
                assert(rb[q] == z);
            }
            if rb.contains(z) {
                let p = choose|p: int| 0 <= p < rb.len() && rb[p] == z;
                assert(b[p] == z);
                assert(b.contains(z));
                assert(a.contains(z));
                let q = choose|q: int| 0 <= q < a.len() && a[q] == z;
                assert(before(b[p], b[b.len() - 1]));
                assert(q < a.len() - 1);
                assert(ra[q] == z);
            }
        }
        lemma_same_names(ra, rb);
        assert(a =~= ra.push(x));
        assert(b =~= rb.push(y));
    }
}

} // verus!
