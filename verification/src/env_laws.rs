//! What the program of a pane finds in its environment.
use crate::digest;
use crate::id::PaneId;
use crate::spawn_env;
use crate::spawn_env::{child_env, first_value, value_of, SpawnEnvView};
use crate::text;
use vstd::prelude::*;

verus! {

proof fn lemma_first_and_last_agree_on_presence(
    env: Seq<(Seq<char>, Seq<char>)>,
    name: Seq<char>,
)
    ensures
        first_value(env, name) is Some <==> exists|i: int|
            0 <= i < env.len() && (#[trigger] env[i]).0 == name,
        value_of(env, name) is Some <==> exists|i: int|
            0 <= i < env.len() && (#[trigger] env[i]).0 == name,
    decreases env.len(),
{
    if env.len() > 0 {
        let a = env.drop_first();
        let b = env.drop_last();
        lemma_first_and_last_agree_on_presence(a, name);
        lemma_first_and_last_agree_on_presence(b, name);
        if exists|i: int| 0 <= i < env.len() && (#[trigger] env[i]).0 == name {
            let i = choose|i: int| 0 <= i < env.len() && (#[trigger] env[i]).0 == name;
            if i > 0 {
                assert(a[i - 1] == env[i]);
            }
            if i < env.len() - 1 {
                assert(b[i] == env[i]);
            }
        }
        if first_value(a, name) is Some {
            let i = choose|i: int| 0 <= i < a.len() && (#[trigger] a[i]).0 == name;
            assert(env[i + 1] == a[i]);
        }
        if value_of(b, name) is Some {
            let i = choose|i: int| 0 <= i < b.len() && (#[trigger] b[i]).0 == name;
            assert(env[i] == b[i]);
        }
        assert(env[0] == env[0]);
        assert(env.last() == env[env.len() - 1]);
    }
}

/// The value of a name that counts is the last that is given for it.
pub proof fn lemma_the_last_value_counts(
    env: Seq<(Seq<char>, Seq<char>)>,
    name: Seq<char>,
    value: Seq<char>,
    other: Seq<char>,
)
    ensures
        value_of(env.push((name, value)), name) == Some(value),
        other != name ==> value_of(env.push((name, value)), other) == value_of(env, other),
        value_of(Seq::empty(), name) is None,
{
    assert(env.push((name, value)).drop_last() =~= env);
}

/// The names that are filled in or widened.
pub open spec fn made_up(name: Seq<char>) -> bool {
    name == "TERM"@ || name == "COLORTERM"@ || name == "PATH"@
}

proof fn lemma_path_keeps_others(env: Seq<(Seq<char>, Seq<char>)>, name: Seq<char>)
    requires
        name != "PATH"@,
    ensures
        value_of(spawn_env::with_path(env), name) == value_of(env, name),
{
    match first_value(env, "HOME"@) {
        None => {},
        Some(home) => {
            let user = match first_value(env, "USER"@) {
                Some(u) => u,
                None => Seq::empty(),
            };
            let path = match first_value(env, "PATH"@) {
                Some(p) => p,
                None => "/usr/bin:/bin:/usr/sbin:/sbin"@,
            };
            spawn_env::lemma_replace_keeps_others(
                env,
                "PATH"@,
                spawn_env::widened(path, spawn_env::extra_dirs(home, user)),
                name,
            );
        },
    }
}

proof fn lemma_default(
    env: Seq<(Seq<char>, Seq<char>)>,
    name: Seq<char>,
    value: Seq<char>,
)
    ensures
        value_of(spawn_env::with_default(env, name, value), name) == match value_of(env, name) {
            Some(v) => Some(v),
            None => Some(value),
        },
{
    lemma_first_and_last_agree_on_presence(env, name);
}

/// What is inherited reaches the program where nothing else names it.
pub proof fn lemma_what_is_inherited_reaches_the_child(
    inherited: Seq<(Seq<char>, Seq<char>)>,
    vars: Seq<(Seq<char>, Seq<char>)>,
    over: SpawnEnvView,
    name: Seq<char>,
)
    requires
        value_of(over.added(), name) is None,
        value_of(vars, name) is None,
        !made_up(name),
    ensures
        value_of(child_env(inherited, vars, over), name) == value_of(inherited, name),
{
    let base = inherited + vars;
    let a = spawn_env::with_default(base, "TERM"@, "xterm-256color"@);
    let b = spawn_env::with_default(a, "COLORTERM"@, "truecolor"@);
    spawn_env::lemma_value_of_concat(inherited, vars, name);
    spawn_env::lemma_default_keeps_others(base, "TERM"@, "xterm-256color"@, name);
    spawn_env::lemma_default_keeps_others(a, "COLORTERM"@, "truecolor"@, name);
    lemma_path_keeps_others(b, name);
    spawn_env::lemma_value_of_concat(spawn_env::with_path(b), over.added(), name);
}

/// The program is told of a terminal and of its colours: of those that are
/// inherited or named, and else of one with 256 colours and true colour.
pub proof fn lemma_the_child_has_a_terminal(
    inherited: Seq<(Seq<char>, Seq<char>)>,
    vars: Seq<(Seq<char>, Seq<char>)>,
    over: SpawnEnvView,
)
    requires
        value_of(over.added(), "TERM"@) is None,
        value_of(over.added(), "COLORTERM"@) is None,
        value_of(vars, "TERM"@) is None,
        value_of(vars, "COLORTERM"@) is None,
    ensures
        ({
            let env = child_env(inherited, vars, over);
            &&& value_of(inherited, "TERM"@) is Some ==> value_of(env, "TERM"@) == value_of(
                inherited,
                "TERM"@,
            )
            &&& value_of(inherited, "TERM"@) is None ==> value_of(env, "TERM"@) == Some(
                "xterm-256color"@,
            )
            &&& value_of(inherited, "COLORTERM"@) is Some ==> value_of(env, "COLORTERM"@)
                == value_of(inherited, "COLORTERM"@)
            &&& value_of(inherited, "COLORTERM"@) is None ==> value_of(env, "COLORTERM"@) == Some(
                "truecolor"@,
            )
        }),
{
    reveal_strlit("TERM");
    reveal_strlit("COLORTERM");
    reveal_strlit("PATH");
    assert("TERM"@.len() == 4 && "COLORTERM"@.len() == 9 && "PATH"@.len() == 4);
    assert("TERM"@[0] == 'T' && "PATH"@[0] == 'P');
    let t = "TERM"@;
    let c = "COLORTERM"@;
    let base = inherited + vars;
    let a = spawn_env::with_default(base, t, "xterm-256color"@);
    let b = spawn_env::with_default(a, c, "truecolor"@);
    spawn_env::lemma_value_of_concat(inherited, vars, t);
    spawn_env::lemma_value_of_concat(inherited, vars, c);
    lemma_default(base, t, "xterm-256color"@);
    lemma_default(a, c, "truecolor"@);
    spawn_env::lemma_default_keeps_others(base, t, "xterm-256color"@, c);
    spawn_env::lemma_default_keeps_others(a, c, "truecolor"@, t);
    lemma_path_keeps_others(b, t);
    lemma_path_keeps_others(b, c);
    spawn_env::lemma_value_of_concat(spawn_env::with_path(b), over.added(), t);
    spawn_env::lemma_value_of_concat(spawn_env::with_path(b), over.added(), c);
}

/// A program that is started in a directory finds it under its usual name.
pub proof fn lemma_the_child_knows_its_directory(
    inherited: Seq<(Seq<char>, Seq<char>)>,
    vars: Seq<(Seq<char>, Seq<char>)>,
    over: SpawnEnvView,
)
    requires
        over.cwd is Some,
    ensures
        value_of(child_env(inherited, vars, over), "PWD"@) == over.cwd,
{
    lemma_the_last_value_counts(over.overrides, "PWD"@, over.cwd->0, "PWD"@);
    spawn_env::lemma_overrides_win(inherited, vars, over, "PWD"@);
}

/// The variables of a pane say its session's number and name, the pane's number,
/// which can be read back, and the socket where there is one.
pub proof fn lemma_the_variables_of_a_pane(
    session_id: Seq<char>,
    session_name: Seq<char>,
    pane: PaneId,
    socket: Option<Seq<char>>,
)
    ensures
        ({
            let vars = spawn_env::pane_vars(session_id, session_name, pane, socket);
            &&& value_of(vars, "TEAR"@) == Some("1"@)
            &&& value_of(vars, "TEAR_SESSION_ID"@) == Some(session_id)
            &&& value_of(vars, "TEAR_SESSION_NAME"@) == Some(session_name)
            &&& value_of(vars, "TEAR_PANE_ID"@) matches Some(t) && digest::hex_number(t) == Ok::<
                int,
                digest::HexError,
            >(pane.0 as int)
            &&& value_of(vars, "TEAR_SOCKET"@) == socket
        }),
{
    let a = "TEAR"@;
    let b = "TEAR_SESSION_ID"@;
    let c = "TEAR_SESSION_NAME"@;
    let d = "TEAR_PANE_ID"@;
    let e = "TEAR_SOCKET"@;
    let hex = digest::hex(pane.0 as nat, 16);
    reveal_strlit("TEAR");
    reveal_strlit("TEAR_SESSION_ID");
    reveal_strlit("TEAR_SESSION_NAME");
    reveal_strlit("TEAR_PANE_ID");
    reveal_strlit("TEAR_SOCKET");
    assert(a.len() == 4 && b.len() == 15 && c.len() == 17 && d.len() == 12 && e.len() == 11);
    digest::lemma_hex_reads_back(pane.0 as nat);
    let s0 = Seq::<(Seq<char>, Seq<char>)>::empty();
    let s1 = s0.push((a, "1"@));
    let s2 = s1.push((b, session_id));
    let s3 = s2.push((c, session_name));
    let s4 = s3.push((d, hex));
    assert(s4 =~= seq![(a, "1"@), (b, session_id), (c, session_name), (d, hex)]);
    assert forall|n: Seq<char>| #![trigger value_of(s4, n)]
        value_of(s4, n) == (if n == d {
            Some(hex)
        } else if n == c {
            Some(session_name)
        } else if n == b {
            Some(session_id)
        } else if n == a {
            Some("1"@)
        } else {
            None
        }) by {
        lemma_the_last_value_counts(s0, a, "1"@, n);
        lemma_the_last_value_counts(s1, b, session_id, n);
        lemma_the_last_value_counts(s2, c, session_name, n);
        lemma_the_last_value_counts(s3, d, hex, n);
    }
    if let Some(p) = socket {
        lemma_the_last_value_counts(s4, e, p, a);
        lemma_the_last_value_counts(s4, e, p, b);
        lemma_the_last_value_counts(s4, e, p, c);
        lemma_the_last_value_counts(s4, e, p, d);
    }
}

/// A search path is widened by what it lacks and by nothing else: it stands
/// unchanged at the end, and before it the directories that are not among its own,
/// in their order.
pub proof fn lemma_what_a_search_path_is_widened_by(path: Seq<char>, dirs: Seq<Seq<char>>)
    ensures
        exists|front: Seq<Seq<char>>| #[trigger]
            text::join(front.push(path), ':') == spawn_env::widened(path, dirs) && (forall|
                d: Seq<char>,
            | #[trigger]
                front.contains(d) <==> dirs.contains(d) && !text::split(path, ':').contains(d)),
        spawn_env::widened(path, dirs).len() >= path.len(),
        spawn_env::widened(path, dirs).skip(
            spawn_env::widened(path, dirs).len() - path.len(),
        ) == path,
{
    let have = text::split(path, ':');
    let front = spawn_env::missing(dirs, have);
    assert forall|d: Seq<char>| #[trigger] front.contains(d) <==> dirs.contains(d)
        && !have.contains(d) by {
        lemma_missing(dirs, have, d);
    }
    assert(text::join(front.push(path), ':') == spawn_env::widened(path, dirs));
    let all = front.push(path);
    assert(all.last() == path);
    assert(all.drop_last() =~= front);
    let w = spawn_env::widened(path, dirs);
    if front.len() == 0 {
        assert(all[0] == path);
        assert(w.skip(0) =~= path);
    } else {
        let head = text::join(front, ':').push(':');
        assert(w == head + path);
        assert(w.skip(w.len() - path.len()) =~= path);
    }
}

/// A search path that has none of the extra directories gets all of them before it,
/// in their order.
pub proof fn lemma_a_search_path_gets_all_it_lacks(path: Seq<char>, dirs: Seq<Seq<char>>)
    requires
        forall|i: int|
            0 <= i < dirs.len() ==> !text::split(path, ':').contains(#[trigger] dirs[i]),
    ensures
        spawn_env::widened(path, dirs) == text::join(dirs.push(path), ':'),
{
    lemma_all_missing(dirs, text::split(path, ':'));
}

proof fn lemma_all_missing(dirs: Seq<Seq<char>>, have: Seq<Seq<char>>)
    requires
        forall|i: int| 0 <= i < dirs.len() ==> !have.contains(#[trigger] dirs[i]),
    ensures
        spawn_env::missing(dirs, have) == dirs,
    decreases dirs.len(),
{
    if dirs.len() > 0 {
        let front = dirs.drop_last();
        assert forall|i: int| 0 <= i < front.len() implies !have.contains(#[trigger] front[i]) by {
            assert(front[i] == dirs[i]);
        }
        lemma_all_missing(front, have);
        assert(dirs[dirs.len() - 1] == dirs.last());
        assert(front.push(dirs.last()) =~= dirs);
    } else {
        assert(dirs =~= Seq::empty());
    }
}

proof fn lemma_missing(dirs: Seq<Seq<char>>, have: Seq<Seq<char>>, d: Seq<char>)
    ensures
        spawn_env::missing(dirs, have).contains(d) <==> dirs.contains(d) && !have.contains(d),
    decreases dirs.len(),
{
    if dirs.len() > 0 {
        let front = dirs.drop_last();
        lemma_missing(front, have, d);
        let m = spawn_env::missing(front, have);
        assert(dirs.last() == dirs[dirs.len() - 1]);
        if dirs.contains(d) {
            let i = choose|i: int| 0 <= i < dirs.len() && dirs[i] == d;
            if i < front.len() {
                assert(front[i] == d);
            }
        }
        if front.contains(d) {
            let i = choose|i: int| 0 <= i < front.len() && front[i] == d;
            assert(dirs[i] == d);
        }
        if !have.contains(dirs.last()) {
            let all = m.push(dirs.last());
            if m.contains(d) {
                let i = choose|i: int| 0 <= i < m.len() && m[i] == d;
                assert(all[i] == d);
            }
            if all.contains(d) {
                let i = choose|i: int| 0 <= i < all.len() && all[i] == d;
                if i < m.len() {
                    assert(m[i] == d);
                }
            }
            assert(all[m.len() as int] == dirs.last());
        }
    }
}

/// Where there is a home, the search path of the program is its own, or the usual
/// one, widened by the directories of the user and the system; without a home it
/// stays as it is.
pub proof fn lemma_the_search_path_of_the_child(env: Seq<(Seq<char>, Seq<char>)>)
    ensures
        first_value(env, "HOME"@) is None ==> spawn_env::with_path(env) == env,
        first_value(env, "HOME"@) matches Some(home) ==> {
            let user = first_value(env, "USER"@).unwrap_or(Seq::empty());
            let path = first_value(env, "PATH"@).unwrap_or("/usr/bin:/bin:/usr/sbin:/sbin"@);
            first_value(spawn_env::with_path(env), "PATH"@) == Some(
                spawn_env::widened(
                    path,
                    seq![
                        "/etc/profiles/per-user/"@ + user + "/bin"@,
                        home + "/.nix-profile/bin"@,
                        "/run/current-system/sw/bin"@,
                        "/nix/var/nix/profiles/default/bin"@,
                        "/usr/local/bin"@,
                    ],
                ),
            )
        },
{
    if let Some(home) = first_value(env, "HOME"@) {
        let user = match first_value(env, "USER"@) {
            Some(u) => u,
            None => Seq::empty(),
        };
        let path = match first_value(env, "PATH"@) {
            Some(p) => p,
            None => "/usr/bin:/bin:/usr/sbin:/sbin"@,
        };
        lemma_replaced_first(
            env,
            "PATH"@,
            spawn_env::widened(path, spawn_env::extra_dirs(home, user)),
        );
    }
}

proof fn lemma_replaced_first(
    env: Seq<(Seq<char>, Seq<char>)>,
    name: Seq<char>,
    value: Seq<char>,
)
    ensures
        first_value(spawn_env::replace_first(env, name, value), name) == Some(value),
    decreases env.len(),
{
    let r = spawn_env::replace_first(env, name, value);
    if env.len() > 0 && env[0].0 != name {
        lemma_replaced_first(env.drop_first(), name, value);
        assert(r[0] == env[0]);
        assert(r.drop_first() =~= spawn_env::replace_first(env.drop_first(), name, value));
    } else {
        assert(r[0] == (name, value));
    }
}

} // verus!
