//! Key chords, what they do, and the tables that hold them.
use crate::layout::Direction;
use crate::seqops;
use crate::text;
use crate::text::{chars_of, join_chars, split_chars, string_of};
use std::collections::BTreeMap;
use vstd::prelude::*;
use vstd::string::StringExecFns;

verus! {

/// The name of a table of bindings.
#[derive(Debug, Clone, PartialEq, Eq, Hash, PartialOrd, Ord)]
pub struct KeyTableName(pub String);

impl KeyTableName {
    pub fn root() -> (r: KeyTableName)
        ensures
            r.0@ == "root"@,
    {
        KeyTableName(String::from_str("root"))
    }

    pub fn prefix() -> (r: KeyTableName)
        ensures
            r.0@ == "prefix"@,
    {
        KeyTableName(String::from_str("prefix"))
    }

    pub fn copy() -> (r: KeyTableName)
        ensures
            r.0@ == "copy"@,
    {
        KeyTableName(String::from_str("copy"))
    }
}

impl Default for KeyTableName {
    fn default() -> (r: KeyTableName)
        ensures
            r.0@ == "root"@,
    {
        KeyTableName::root()
    }
}

/// A key with its modifiers, such as `ctrl+a`.
#[derive(Debug, Clone, PartialEq, Eq, Hash, PartialOrd, Ord)]
pub struct KeyChord(pub String);

/// The modifier that a part of a shorthand stands for.
pub open spec fn modifier(part: Seq<char>) -> Option<Seq<char>> {
    if part == seq!['C'] || part == seq!['c'] {
        Some("ctrl"@)
    } else if part == seq!['M'] || part == seq!['m'] {
        Some("alt"@)
    } else if part == seq!['S'] || part == seq!['s'] {
        Some("shift"@)
    } else if part == seq!['D'] || part == seq!['d'] {
        Some("super"@)
    } else {
        None
    }
}

/// An ASCII capital in lower case; any other character as it is.
pub open spec fn lower(c: char) -> char {
    if 'A' <= c && c <= 'Z' {
        (c as u32 + 32) as char
    } else {
        c
    }
}

pub open spec fn lowered(s: Seq<char>) -> Seq<char> {
    Seq::new(s.len(), |i: int| lower(s[i]))
}

/// The modifiers among the parts, in order.
pub open spec fn modifiers(parts: Seq<Seq<char>>) -> Seq<Seq<char>>
    decreases parts.len(),
{
    if parts.len() == 0 {
        Seq::empty()
    } else {
        match modifier(parts.last()) {
            Some(m) => modifiers(parts.drop_last()).push(m),
            None => modifiers(parts.drop_last()),
        }
    }
}

/// The place of the last part that is no modifier; -1 where there is none.
pub open spec fn key_place(parts: Seq<Seq<char>>) -> int
    decreases parts.len(),
{
    if parts.len() == 0 {
        -1
    } else if modifier(parts.last()) is None {
        parts.len() - 1
    } else {
        key_place(parts.drop_last())
    }
}

/// What a shorthand with `-` between its parts stands for: its modifiers, then
/// the key in lower case. The key is the last part that is no modifier. In a
/// shorthand of modifiers alone it is the last part.
pub open spec fn chord(s: Seq<char>) -> Seq<char> {
    let parts = text::split(s, '-');
    let place = key_place(parts);
    if place >= 0 {
        text::join(modifiers(parts).push(lowered(parts[place])), '+')
    } else {
        text::join(modifiers(parts.drop_last()).push(lowered(parts.last())), '+')
    }
}

fn lower_char(c: char) -> (r: char)
    ensures
        r == lower(c),
{
    if 'A' <= c && c <= 'Z' {
        ((c as u8) + 32) as char
    } else {
        c
    }
}

fn lower_chars(v: &Vec<char>) -> (r: Vec<char>)
    ensures
        r@ == lowered(v@),
{
    let mut r: Vec<char> = Vec::new();
    let mut i: usize = 0;
    while i < v.len()
        invariant
            i <= v@.len(),
            r@.len() == i,
            forall|j: int| 0 <= j < i ==> #[trigger] r@[j] == lower(v@[j]),
        decreases v@.len() - i,
    {
        r.push(lower_char(v[i]));
        i = i + 1;
    }
    assert(r@ =~= lowered(v@));
    r
}

fn modifier_of(part: &Vec<char>) -> (r: Option<Vec<char>>)
    ensures
        match r {
            Some(m) => modifier(part@) == Some(m@),
            None => modifier(part@) is None,
        },
{
    if part.len() != 1 {
        proof {
            assert(forall|c: char| #[trigger] seq![c].len() == 1);
        }
        return None;
    }
    let c = part[0];
    proof {
        assert(part@ =~= seq![c]);
        assert forall|d: char| #[trigger] seq![d] == part@ implies d == c by {
            assert(seq![d][0] == d);
            assert(part@[0] == c);
        }
    }
    if c == 'C' || c == 'c' {
        Some(chars_of("ctrl"))
    } else if c == 'M' || c == 'm' {
        Some(chars_of("alt"))
    } else if c == 'S' || c == 's' {
        Some(chars_of("shift"))
    } else if c == 'D' || c == 'd' {
        Some(chars_of("super"))
    } else {
        None
    }
}

impl KeyChord {
    /// The chord of a shorthand such as `C-a`.
    pub fn from_tmux(s: &str) -> (r: KeyChord)
        ensures
            r.0@ == chord(s@),
    {
        let v = chars_of(s);
        let parts = split_chars(&v, '-');
        let ghost all = text::split(s@, '-');
        assert(all.len() >= 1);
        let last: usize = parts.len() - 1;
        let mut mods: Vec<Vec<char>> = Vec::new();
        let mut place: usize = last;
        let mut found: bool = false;
        let mut i: usize = 0;
        proof {
            assert(all.take(0) =~= Seq::<Seq<char>>::empty());
            assert(seqops::views(mods@) =~= modifiers(all.take(0)));
        }
        while i < parts.len()
            invariant
                i <= parts@.len(),
                last == parts@.len() - 1,
                place < parts@.len(),
                seqops::views(parts@) == all,
                seqops::views(mods@) == modifiers(all.take(i as int)),
                key_place(all.take(i as int)) == (if found {
                    place as int
                } else {
                    -1
                }),
                !found ==> place == last,
            decreases parts@.len() - i,
        {
            proof {
                let longer = all.take(i as int + 1);
                assert(longer.drop_last() =~= all.take(i as int));
                assert(longer.last() == parts@[i as int]@);
            }
            match modifier_of(&parts[i]) {
                Some(m) => {
                    let ghost before = mods@;
                    mods.push(m);
                    assert(seqops::views(mods@) =~= seqops::views(before).push(m@));
                },
                None => {
                    place = i;
                    found = true;
                },
            }
            i = i + 1;
        }
        assert(all.take(i as int) =~= all);
        if !found {
            proof {
                assert(modifier(all.last()) is Some);
                assert(seqops::views(mods@) == modifiers(all.drop_last()).push(
                    modifier(all.last())->0,
                ));
                assert(seqops::views(mods@).drop_last() =~= modifiers(all.drop_last()));
            }
            let ghost before = mods@;
            mods.pop();
            assert(seqops::views(mods@) =~= seqops::views(before).drop_last());
        }
        let ghost before = mods@;
        assert(all[place as int] == parts@[place as int]@);
        let key = lower_chars(&parts[place]);
        mods.push(key);
        assert(seqops::views(mods@) =~= seqops::views(before).push(key@));
        KeyChord(string_of(&join_chars(&mods, '+')))
    }
}

/// What a chord does.
#[derive(Debug, Clone, PartialEq, Eq)]
pub enum Action {
    SplitPane { direction: Direction },
    SendKeys { keys: String },
    Command { cmd: String },
    SelectPane { direction: Direction },
    NextWindow,
    PreviousWindow,
    NewWindow,
    KillPane,
    KillWindow,
    KillSession,
    Detach,
    ReloadConfig,
    EnterTable { table: KeyTableName },
}

/// One binding.
#[derive(Debug, Clone, PartialEq, Eq)]
pub struct KeyBind {
    pub chord: KeyChord,
    pub action: Action,
    pub note: String,
}

/// A named set of bindings.
#[derive(Debug, Clone, PartialEq, Eq)]
pub struct KeyTable {
    pub name: KeyTableName,
    pub bindings: Vec<KeyBind>,
}

/// The tables of a configuration, by name.
pub type KeyTableMap = BTreeMap<KeyTableName, KeyTable>;

impl Default for KeyTable {
    fn default() -> (r: KeyTable)
        ensures
            r.name.0@ == "root"@,
            r.bindings@.len() == 0,
    {
        KeyTable { name: KeyTableName::root(), bindings: Vec::new() }
    }
}

} // verus!
