//! The environment of the programs that panes run.
use crate::digest;
use crate::id::PaneId;
use crate::pane;
use crate::pane::clone_pairs;
use crate::seqops;
use crate::text;
use crate::text::{chars_of, join_chars, split_chars, str_eq, string_of};
use crate::yurai;
use crate::yurai::clone_opt;
use vstd::prelude::*;
use vstd::string::StringExecFns;

verus! {

/// What an embedder puts on top of every program's environment.
#[derive(Debug, PartialEq, Eq)]
pub struct SpawnEnv {
    pub overrides: Vec<(String, String)>,
    /// Where programs are started.
    pub cwd: Option<String>,
}

/// The contents of a [`SpawnEnv`].
#[verifier::ext_equal]
pub struct SpawnEnvView {
    pub overrides: Seq<(Seq<char>, Seq<char>)>,
    pub cwd: Option<Seq<char>>,
}

impl View for SpawnEnv {
    type V = SpawnEnvView;

    open spec fn view(&self) -> SpawnEnvView {
        SpawnEnvView { overrides: pane::pairs(self.overrides@), cwd: yurai::opt_text(self.cwd) }
    }
}

impl Clone for SpawnEnv {
    fn clone(&self) -> (r: SpawnEnv)
        ensures
            r@ == self@,
    {
        SpawnEnv { overrides: clone_pairs(&self.overrides), cwd: clone_opt(&self.cwd) }
    }
}

impl SpawnEnvView {
    pub open spec fn none() -> SpawnEnvView {
        SpawnEnvView { overrides: Seq::empty(), cwd: None }
    }

    /// What is added behind an environment: the overrides, and the directory
    /// under its usual name. What is named again later counts.
    pub open spec fn added(self) -> Seq<(Seq<char>, Seq<char>)> {
        match self.cwd {
            Some(d) => self.overrides.push(("PWD"@, d)),
            None => self.overrides,
        }
    }
}

impl SpawnEnv {
    /// Nothing on top.
    pub fn none() -> (r: SpawnEnv)
        ensures
            r@ == SpawnEnvView::none(),
    {
        let r = SpawnEnv { overrides: Vec::new(), cwd: None };
        assert(r@.overrides =~= Seq::empty());
        r
    }

    pub fn from_overrides(overrides: Vec<(String, String)>) -> (r: SpawnEnv)
        ensures
            r@ == (SpawnEnvView { overrides: pane::pairs(overrides@), cwd: None }),
    {
        SpawnEnv { overrides, cwd: None }
    }

    pub fn with_cwd(self, cwd: Option<String>) -> (r: SpawnEnv)
        ensures
            r@ == (SpawnEnvView { cwd: yurai::opt_text(cwd), ..self@ }),
    {
        SpawnEnv { overrides: self.overrides, cwd }
    }

    /// Puts this on top of an environment.
    pub fn apply_to(&self, env: &mut Vec<(String, String)>)
        ensures
            pane::pairs(final(env)@) == pane::pairs(old(env)@) + self@.added(),
    {
        let ghost before = pane::pairs(env@);
        let mut more = clone_pairs(&self.overrides);
        let ghost added = pane::pairs(more@);
        env.append(&mut more);
        assert(pane::pairs(env@) =~= before + added);
        match &self.cwd {
            Some(d) => {
                push_var(env, "PWD", d.as_str());
                assert(pane::pairs(env@) =~= before + self@.added());
            },
            None => {},
        }
    }
}

fn push_var(env: &mut Vec<(String, String)>, name: &str, value: &str)
    ensures
        pane::pairs(final(env)@) == pane::pairs(old(env)@).push((name@, value@)),
{
    let ghost before = env@;
    env.push((String::from_str(name), String::from_str(value)));
    assert(pane::pairs(env@) =~= pane::pairs(before).push((name@, value@)));
}

/// The variables of a pane that other tools of the fleet read.
#[derive(Debug, Clone, Copy, PartialEq, Eq, Structural)]
pub enum FleetVar {
    SessionId,
    SessionName,
    PaneId,
    Socket,
}

impl FleetVar {
    pub open spec fn spec_name(self) -> Seq<char> {
        match self {
            FleetVar::SessionId => "TEAR_SESSION_ID"@,
            FleetVar::SessionName => "TEAR_SESSION_NAME"@,
            FleetVar::PaneId => "TEAR_PANE_ID"@,
            FleetVar::Socket => "TEAR_SOCKET"@,
        }
    }

    /// `ishou_tokens::FleetStateVar::name`: the name of each of the four
    /// variables.
    #[verifier::external_body]
    pub(crate) fn name(self) -> (r: &'static str)
        ensures
            r@ == self.spec_name(),
    {
        match self {
            FleetVar::SessionId => ishou_tokens::FleetStateVar::TearSessionId.name(),
            FleetVar::SessionName => ishou_tokens::FleetStateVar::TearSessionName.name(),
            FleetVar::PaneId => ishou_tokens::FleetStateVar::TearPaneId.name(),
            FleetVar::Socket => ishou_tokens::FleetStateVar::TearSocket.name(),
        }
    }
}

/// The first value of a name.
pub open spec fn first_value(env: Seq<(Seq<char>, Seq<char>)>, name: Seq<char>) -> Option<Seq<char>>
    decreases env.len(),
{
    if env.len() == 0 {
        None
    } else if env[0].0 == name {
        Some(env[0].1)
    } else {
        first_value(env.drop_first(), name)
    }
}

/// The value of a name that counts: the last.
pub open spec fn value_of(env: Seq<(Seq<char>, Seq<char>)>, name: Seq<char>) -> Option<Seq<char>>
    decreases env.len(),
{
    if env.len() == 0 {
        None
    } else if env.last().0 == name {
        Some(env.last().1)
    } else {
        value_of(env.drop_last(), name)
    }
}

/// The environment with the first value of a name replaced, or with the name
/// added.
pub open spec fn replace_first(
    env: Seq<(Seq<char>, Seq<char>)>,
    name: Seq<char>,
    value: Seq<char>,
) -> Seq<(Seq<char>, Seq<char>)>
    decreases env.len(),
{
    if env.len() == 0 {
        seq![(name, value)]
    } else if env[0].0 == name {
        seq![(name, value)] + env.drop_first()
    } else {
        seq![env[0]] + replace_first(env.drop_first(), name, value)
    }
}

/// The directories that programs are also looked for in.
pub open spec fn extra_dirs(home: Seq<char>, user: Seq<char>) -> Seq<Seq<char>> {
    seq![
        "/etc/profiles/per-user/"@ + user + "/bin"@,
        home + "/.nix-profile/bin"@,
        "/run/current-system/sw/bin"@,
        "/nix/var/nix/profiles/default/bin"@,
        "/usr/local/bin"@,
    ]
}

/// Those of `dirs` that are not among `have`.
pub open spec fn missing(dirs: Seq<Seq<char>>, have: Seq<Seq<char>>) -> Seq<Seq<char>>
    decreases dirs.len(),
{
    if dirs.len() == 0 {
        Seq::empty()
    } else if have.contains(dirs.last()) {
        missing(dirs.drop_last(), have)
    } else {
        missing(dirs.drop_last(), have).push(dirs.last())
    }
}

/// A search path with the extra directories that it lacks before it.
pub open spec fn widened(path: Seq<char>, dirs: Seq<Seq<char>>) -> Seq<char> {
    text::join(missing(dirs, text::split(path, ':')).push(path), ':')
}

/// The environment with its search path widened, where it has a home.
pub open spec fn with_path(env: Seq<(Seq<char>, Seq<char>)>) -> Seq<(Seq<char>, Seq<char>)> {
    match first_value(env, "HOME"@) {
        None => env,
        Some(home) => {
            let user = match first_value(env, "USER"@) {
                Some(u) => u,
                None => Seq::empty(),
            };
            let path = match first_value(env, "PATH"@) {
                Some(p) => p,
                None => "/usr/bin:/bin:/usr/sbin:/sbin"@,
            };
            replace_first(env, "PATH"@, widened(path, extra_dirs(home, user)))
        },
    }
}

/// The environment with a name that it lacks.
pub open spec fn with_default(
    env: Seq<(Seq<char>, Seq<char>)>,
    name: Seq<char>,
    value: Seq<char>,
) -> Seq<(Seq<char>, Seq<char>)> {
    if first_value(env, name) is Some {
        env
    } else {
        env.push((name, value))
    }
}

/// The variables that tell a program which pane it runs in.
pub open spec fn pane_vars(
    session_id: Seq<char>,
    session_name: Seq<char>,
    pane: PaneId,
    socket: Option<Seq<char>>,
) -> Seq<(Seq<char>, Seq<char>)> {
    let vars = seq![
        ("TEAR"@, "1"@),
        ("TEAR_SESSION_ID"@, session_id),
        ("TEAR_SESSION_NAME"@, session_name),
        ("TEAR_PANE_ID"@, digest::hex(pane.0 as nat, 16)),
    ];
    match socket {
        Some(p) => vars.push(("TEAR_SOCKET"@, p)),
        None => vars,
    }
}

/// The whole environment of a pane's program: what is inherited, the variables
/// of the pane, a terminal and colours where none are named, the widened search
/// path, and the embedder's overrides.
pub open spec fn child_env(
    inherited: Seq<(Seq<char>, Seq<char>)>,
    vars: Seq<(Seq<char>, Seq<char>)>,
    over: SpawnEnvView,
) -> Seq<(Seq<char>, Seq<char>)> {
    let named = with_default(
        with_default(inherited + vars, "TERM"@, "xterm-256color"@),
        "COLORTERM"@,
        "truecolor"@,
    );
    with_path(named) + over.added()
}

fn find_var(env: &Vec<(String, String)>, name: &str) -> (r: Option<usize>)
    ensures
        match r {
            Some(i) => i < env@.len() && env@[i as int].0@ == name@ && first_value(
                pane::pairs(env@),
                name@,
            ) == Some(env@[i as int].1@) && forall|j: int|
                0 <= j < i ==> (#[trigger] env@[j]).0@ != name@,
            None => first_value(pane::pairs(env@), name@) is None && forall|j: int|
                0 <= j < env@.len() ==> (#[trigger] env@[j]).0@ != name@,
        },
{
    let ghost all = pane::pairs(env@);
    let mut i: usize = 0;
    assert(all.skip(0) =~= all);
    while i < env.len()
        invariant
            i <= env@.len(),
            all == pane::pairs(env@),
            first_value(all, name@) == first_value(all.skip(i as int), name@),
            forall|j: int| 0 <= j < i ==> (#[trigger] env@[j]).0@ != name@,
        decreases env@.len() - i,
    {
        assert(all.skip(i as int)[0] == all[i as int]);
        assert(all.skip(i as int).drop_first() =~= all.skip(i as int + 1));
        if str_eq(env[i].0.as_str(), name) {
            return Some(i);
        }
        i = i + 1;
    }
    None
}

proof fn lemma_replace_at(
    env: Seq<(Seq<char>, Seq<char>)>,
    name: Seq<char>,
    value: Seq<char>,
    i: int,
)
    requires
        0 <= i <= env.len(),
        forall|j: int| 0 <= j < i ==> (#[trigger] env[j]).0 != name,
        i < env.len() ==> env[i].0 == name,
    ensures
        replace_first(env, name, value) == if i < env.len() {
            env.update(i, (name, value))
        } else {
            env.push((name, value))
        },
    decreases i,
{
    if i == 0 {
        if env.len() > 0 {
            assert(replace_first(env, name, value) =~= env.update(0, (name, value)));
        } else {
            assert(replace_first(env, name, value) =~= env.push((name, value)));
        }
    } else {
        let rest = env.drop_first();
        assert forall|j: int| 0 <= j < i - 1 implies (#[trigger] rest[j]).0 != name by {
            assert(rest[j] == env[j + 1]);
        }
        lemma_replace_at(rest, name, value, i - 1);
        if i < env.len() {
            assert(replace_first(env, name, value) =~= env.update(i, (name, value)));
        } else {
            assert(replace_first(env, name, value) =~= env.push((name, value)));
        }
    }
}

fn set_first(env: &mut Vec<(String, String)>, name: &str, value: String)
    ensures
        pane::pairs(final(env)@) == replace_first(pane::pairs(old(env)@), name@, value@),
{
    let ghost before = pane::pairs(env@);
    let ghost given = value@;
    match find_var(env, name) {
        Some(i) => {
            proof {
                assert forall|j: int| 0 <= j < i implies (#[trigger] before[j]).0 != name@ by {
                    assert(before[j].0 == env@[j].0@);
                }
                lemma_replace_at(before, name@, given, i as int);
            }
            env.set(i, (String::from_str(name), value));
            assert(pane::pairs(env@) =~= before.update(i as int, (name@, given)));
        },
        None => {
            proof {
                assert forall|j: int| 0 <= j < before.len() implies (#[trigger] before[j]).0
                    != name@ by {
                    assert(before[j].0 == env@[j].0@);
                }
                lemma_replace_at(before, name@, given, before.len() as int);
            }
            env.push((String::from_str(name), value));
            assert(pane::pairs(env@) =~= before.push((name@, given)));
        },
    }
}

fn add_default(env: &mut Vec<(String, String)>, name: &str, value: &str)
    ensures
        pane::pairs(final(env)@) == with_default(pane::pairs(old(env)@), name@, value@),
{
    match find_var(env, name) {
        Some(_) => {},
        None => {
            push_var(env, name, value);
        },
    }
}

fn three(a: &str, b: &str, c: &str) -> (r: Vec<char>)
    ensures
        r@ == a@ + b@ + c@,
{
    let mut r = chars_of(a);
    let mut x = chars_of(b);
    let mut y = chars_of(c);
    r.append(&mut x);
    r.append(&mut y);
    r
}

fn extra(home: &str, user: &str) -> (r: Vec<Vec<char>>)
    ensures
        seqops::views(r@) == extra_dirs(home@, user@),
{
    let a = three("/etc/profiles/per-user/", user, "/bin");
    let mut b = chars_of(home);
    let mut tail = chars_of("/.nix-profile/bin");
    b.append(&mut tail);
    let r = vec![
        a,
        b,
        chars_of("/run/current-system/sw/bin"),
        chars_of("/nix/var/nix/profiles/default/bin"),
        chars_of("/usr/local/bin"),
    ];
    assert(seqops::views(r@) =~= extra_dirs(home@, user@));
    r
}

fn same_chars(a: &Vec<char>, b: &Vec<char>) -> (r: bool)
    ensures
        r == (a@ == b@),
{
    if a.len() != b.len() {
        return false;
    }
    let mut i: usize = 0;
    while i < a.len()
        invariant
            i <= a@.len() == b@.len(),
            forall|j: int| 0 <= j < i ==> a@[j] == b@[j],
        decreases a@.len() - i,
    {
        if a[i] != b[i] {
            return false;
        }
        i = i + 1;
    }
    assert(a@ =~= b@);
    true
}

fn is_among(parts: &Vec<Vec<char>>, x: &Vec<char>) -> (r: bool)
    ensures
        r == seqops::views(parts@).contains(x@),
{
    let mut i: usize = 0;
    let ghost all = seqops::views(parts@);
    while i < parts.len()
        invariant
            i <= parts@.len(),
            all == seqops::views(parts@),
            forall|j: int| 0 <= j < i ==> #[trigger] all[j] != x@,
        decreases parts@.len() - i,
    {
        if same_chars(&parts[i], x) {
            assert(all[i as int] == x@);
            return true;
        }
        i = i + 1;
    }
    false
}

fn widen(path: &str, dirs: &Vec<Vec<char>>) -> (r: String)
    ensures
        r@ == widened(path@, seqops::views(dirs@)),
{
    let chars = chars_of(path);
    let have = split_chars(&chars, ':');
    let ghost all = seqops::views(dirs@);
    let mut parts: Vec<Vec<char>> = Vec::new();
    let mut i: usize = 0;
    assert(all.take(0) =~= Seq::<Seq<char>>::empty());
    assert(seqops::views(parts@) =~= missing(all.take(0), seqops::views(have@)));
    while i < dirs.len()
        invariant
            i <= dirs@.len(),
            all == seqops::views(dirs@),
            seqops::views(parts@) == missing(all.take(i as int), seqops::views(have@)),
        decreases dirs@.len() - i,
    {
        proof {
            let longer = all.take(i as int + 1);
            assert(longer.drop_last() =~= all.take(i as int));
            assert(longer.last() == dirs@[i as int]@);
        }
        if !is_among(&have, &dirs[i]) {
            let ghost before = parts@;
            let copy = seqops::copied(&dirs[i]);
            parts.push(copy);
            assert(seqops::views(parts@) =~= seqops::views(before).push(copy@));
        }
        i = i + 1;
    }
    assert(all.take(i as int) =~= all);
    let ghost before = parts@;
    let ghost last = chars@;
    parts.push(chars);
    assert(seqops::views(parts@) =~= seqops::views(before).push(last));
    string_of(&join_chars(&parts, ':'))
}

fn widen_path(env: &mut Vec<(String, String)>)
    ensures
        pane::pairs(final(env)@) == with_path(pane::pairs(old(env)@)),
{
    let home = match find_var(env, "HOME") {
        Some(i) => env[i].1.clone(),
        None => {
            return;
        },
    };
    let user = match find_var(env, "USER") {
        Some(i) => env[i].1.clone(),
        None => String::new(),
    };
    let path = match find_var(env, "PATH") {
        Some(i) => env[i].1.clone(),
        None => String::from_str("/usr/bin:/bin:/usr/sbin:/sbin"),
    };
    assert(user@ =~= match first_value(pane::pairs(old(env)@), "USER"@) {
        Some(u) => u,
        None => Seq::empty(),
    });
    let dirs = extra(home.as_str(), user.as_str());
    let wide = widen(path.as_str(), &dirs);
    set_first(env, "PATH", wide);
}

/// The whole environment of a pane's program.
pub fn build_env(
    inherited: Vec<(String, String)>,
    session_id: &str,
    session_name: &str,
    pane: PaneId,
    socket: &Option<String>,
    over: &SpawnEnv,
) -> (r: Vec<(String, String)>)
    ensures
        pane::pairs(r@) == child_env(
            pane::pairs(inherited@),
            pane_vars(session_id@, session_name@, pane, yurai::opt_text(*socket)),
            over@,
        ),
{
    let ghost base = pane::pairs(inherited@);
    let mut env = inherited;
    push_var(&mut env, "TEAR", "1");
    push_var(&mut env, FleetVar::SessionId.name(), session_id);
    push_var(&mut env, FleetVar::SessionName.name(), session_name);
    push_var(&mut env, FleetVar::PaneId.name(), pane.to_string().as_str());
    match socket {
        Some(p) => {
            push_var(&mut env, FleetVar::Socket.name(), p.as_str());
        },
        None => {},
    }
    assert(pane::pairs(env@) =~= base + pane_vars(
        session_id@,
        session_name@,
        pane,
        yurai::opt_text(*socket),
    ));
    add_default(&mut env, "TERM", "xterm-256color");
    add_default(&mut env, "COLORTERM", "truecolor");
    widen_path(&mut env);
    over.apply_to(&mut env);
    env
}

pub(crate) proof fn lemma_value_of_concat(
    a: Seq<(Seq<char>, Seq<char>)>,
    b: Seq<(Seq<char>, Seq<char>)>,
    name: Seq<char>,
)
    ensures
        value_of(a + b, name) == if value_of(b, name) is Some {
            value_of(b, name)
        } else {
            value_of(a, name)
        },
    decreases b.len(),
{
    if b.len() == 0 {
        assert(a + b =~= a);
    } else {
        assert((a + b).last() == b.last());
        assert((a + b).drop_last() =~= a + b.drop_last());
        lemma_value_of_concat(a, b.drop_last(), name);
    }
}

/// What the embedder names counts, whatever is inherited or filled in.
pub proof fn lemma_overrides_win(
    inherited: Seq<(Seq<char>, Seq<char>)>,
    vars: Seq<(Seq<char>, Seq<char>)>,
    over: SpawnEnvView,
    name: Seq<char>,
)
    requires
        value_of(over.added(), name) is Some,
    ensures
        value_of(child_env(inherited, vars, over), name) == value_of(over.added(), name),
{
    let named = with_default(
        with_default(inherited + vars, "TERM"@, "xterm-256color"@),
        "COLORTERM"@,
        "truecolor"@,
    );
    lemma_value_of_concat(with_path(named), over.added(), name);
}

pub(crate) proof fn lemma_replace_keeps_others(
    env: Seq<(Seq<char>, Seq<char>)>,
    name: Seq<char>,
    value: Seq<char>,
    other: Seq<char>,
)
    requires
        other != name,
    ensures
        value_of(replace_first(env, name, value), other) == value_of(env, other),
    decreases env.len(),
{
    let one = seq![(name, value)];
    reveal_with_fuel(value_of, 2);
    if env.len() == 0 {
        assert(one.drop_last() =~= Seq::empty());
        assert(value_of(one, other) is None);
    } else {
        let rest = env.drop_first();
        assert(env =~= seq![env[0]] + rest);
        lemma_value_of_concat(seq![env[0]], rest, other);
        if env[0].0 == name {
            lemma_value_of_concat(one, rest, other);
            assert(one.drop_last() =~= Seq::empty());
            assert(seq![env[0]].drop_last() =~= Seq::empty());
        } else {
            lemma_replace_keeps_others(rest, name, value, other);
            lemma_value_of_concat(seq![env[0]], replace_first(rest, name, value), other);
        }
    }
}

pub(crate) proof fn lemma_default_keeps_others(
    env: Seq<(Seq<char>, Seq<char>)>,
    name: Seq<char>,
    value: Seq<char>,
    other: Seq<char>,
)
    requires
        other != name,
    ensures
        value_of(with_default(env, name, value), other) == value_of(env, other),
{
    if first_value(env, name) is None {
        assert(env.push((name, value)).drop_last() =~= env);
    }
}

/// The variables of the pane count over what is inherited, where the embedder
/// does not name them.
pub proof fn lemma_pane_vars_reach_the_child(
    inherited: Seq<(Seq<char>, Seq<char>)>,
    vars: Seq<(Seq<char>, Seq<char>)>,
    over: SpawnEnvView,
    name: Seq<char>,
)
    requires
        value_of(over.added(), name) is None,
        name != "TERM"@,
        name != "COLORTERM"@,
        name != "PATH"@,
        value_of(vars, name) is Some,
    ensures
        value_of(child_env(inherited, vars, over), name) == value_of(vars, name),
{
    let base = inherited + vars;
    let a = with_default(base, "TERM"@, "xterm-256color"@);
    let b = with_default(a, "COLORTERM"@, "truecolor"@);
    lemma_value_of_concat(inherited, vars, name);
    lemma_default_keeps_others(base, "TERM"@, "xterm-256color"@, name);
    lemma_default_keeps_others(a, "COLORTERM"@, "truecolor"@, name);
    lemma_value_of_concat(with_path(b), over.added(), name);
    match first_value(b, "HOME"@) {
        None => {},
        Some(home) => {
            let user = match first_value(b, "USER"@) {
                Some(u) => u,
                None => Seq::empty(),
            };
            let path = match first_value(b, "PATH"@) {
                Some(p) => p,
                None => "/usr/bin:/bin:/usr/sbin:/sbin"@,
            };
            lemma_replace_keeps_others(
                b,
                "PATH"@,
                widened(path, extra_dirs(home, user)),
                name,
            );
        },
    }
}

/// A search path that has every extra directory stays as it is.
pub proof fn lemma_widening_adds_nothing_twice(path: Seq<char>, dirs: Seq<Seq<char>>)
    requires
        forall|i: int|
            0 <= i < dirs.len() ==> text::split(path, ':').contains(#[trigger] dirs[i]),
    ensures
        widened(path, dirs) == path,
    decreases dirs.len(),
{
    lemma_nothing_missing(dirs, text::split(path, ':'));
    let one = Seq::<Seq<char>>::empty().push(path);
    assert(one.len() == 1 && one[0] == path);
    assert(text::join(one, ':') =~= path);
}

proof fn lemma_nothing_missing(dirs: Seq<Seq<char>>, have: Seq<Seq<char>>)
    requires
        forall|i: int| 0 <= i < dirs.len() ==> have.contains(#[trigger] dirs[i]),
    ensures
        missing(dirs, have) == Seq::<Seq<char>>::empty(),
    decreases dirs.len(),
{
    if dirs.len() > 0 {
        let rest = dirs.drop_last();
        assert(have.contains(dirs[dirs.len() - 1]));
        assert forall|i: int| 0 <= i < rest.len() implies have.contains(#[trigger] rest[i]) by {
            assert(rest[i] == dirs[i]);
        }
        lemma_nothing_missing(rest, have);
    }
}

} // verus!
