//! Cuts a shell's output into blocks at its prompt marks (OSC 133).
//!
//! `A` starts a prompt, `B` the command line, `C` the output, and `D` ends the
//! block, with an exit code where one is given. Completed blocks are kept
//! oldest first, up to a cap.
use crate::block;
use crate::block::{Block, BlockView};
use crate::clock;
use crate::text;
use crate::text::{chars_of, parse_i32, split_chars, string_of, trim_chars};
use crate::yurai;
use crate::yurai::{clone_opt, Yurai, YuraiView};
use std::collections::VecDeque;
use vstd::prelude::*;

verus! {

#[derive(Copy, Clone, Debug, PartialEq, Eq, Structural)]
pub enum Phase {
    /// Between blocks.
    Idle,
    /// Characters belong to the prompt.
    Prompt,
    /// Characters belong to the command.
    Command,
    /// Characters belong to the output.
    Output,
}

/// The place of the first `c` in `s`, or the length of `s`.
pub open spec fn first_index(s: Seq<char>, c: char) -> int
    decreases s.len(),
{
    if s.len() == 0 || s[0] == c {
        0
    } else {
        1 + first_index(s.drop_first(), c)
    }
}

/// `file://`.
pub open spec fn file_scheme() -> Seq<char> {
    seq!['f', 'i', 'l', 'e', ':', '/', '/']
}

/// The directory that an OSC 7 payload names: the path of a `file://` address
/// without its host, and any other payload as it stands.
pub open spec fn osc7_directory(raw: Seq<char>) -> Seq<char> {
    let rest = raw.skip(7);
    if raw.len() >= 7 && raw.take(7) == file_scheme() && rest.contains('/') {
        rest.skip(first_index(rest, '/'))
    } else {
        raw
    }
}

/// The exit code of a `D` marker: the number after the first semicolon.
pub open spec fn spec_exit_code(marker: Seq<char>) -> Option<i32> {
    let parts = text::split(marker, ';');
    if parts.len() >= 2 {
        text::spec_parse_i32(text::trim(parts[1]))
    } else {
        None
    }
}

/// The contents of a [`BlockExtractor`].
#[verifier::ext_equal]
pub struct BlocksView {
    pub blocks: Seq<BlockView>,
    pub cap: usize,
    pub current: Option<BlockView>,
    pub phase: Phase,
    pub next_index: u64,
    pub cwd: Option<Seq<char>>,
    pub yurai: YuraiView,
}

impl BlocksView {
    pub open spec fn start(cap: usize) -> BlocksView {
        BlocksView {
            blocks: Seq::empty(),
            cap,
            current: None,
            phase: Phase::Idle,
            next_index: 0,
            cwd: None,
            yurai: YuraiView::Unknown,
        }
    }

    /// A printed character goes to the part of the open block that the phase
    /// names.
    pub open spec fn print(self, c: char) -> BlocksView {
        match self.current {
            None => self,
            Some(b) => match self.phase {
                Phase::Idle => self,
                Phase::Prompt => BlocksView {
                    current: Some(BlockView { prompt: b.prompt.push(c), ..b }),
                    ..self
                },
                Phase::Command => BlocksView {
                    current: Some(BlockView { command: b.command.push(c), ..b }),
                    ..self
                },
                Phase::Output => BlocksView {
                    current: Some(BlockView { output: b.output.push(c), ..b }),
                    ..self
                },
            },
        }
    }

    /// A raw byte goes to the output of the open block, as the character of
    /// its value.
    pub open spec fn raw_byte(self, byte: u8) -> BlocksView {
        match self.current {
            Some(b) if self.phase == Phase::Output => BlocksView {
                current: Some(BlockView { output: b.output.push(byte as char), ..b }),
                ..self
            },
            _ => self,
        }
    }

    /// The open block is completed at `now` and kept; a full ring drops its
    /// oldest block first, and one made for no blocks keeps none.
    pub open spec fn finalize(self, exit_code: Option<i32>, now: u64) -> BlocksView {
        match self.current {
            None => self,
            Some(b) => {
                let done = BlockView { exit_code, ended_at_unix_ms: Some(now), ..b };
                let kept = if self.cap == 0 {
                    self.blocks
                } else if self.blocks.len() == self.cap {
                    self.blocks.drop_first().push(done)
                } else {
                    self.blocks.push(done)
                };
                BlocksView {
                    blocks: kept,
                    current: None,
                    phase: Phase::Idle,
                    ..self
                }
            },
        }
    }

    /// A fresh block opens; one that was still open is completed without an
    /// exit code.
    pub open spec fn prompt_start(self, now: u64) -> BlocksView {
        let closed = self.finalize(None, now);
        BlocksView {
            current: Some(
                BlockView {
                    index: closed.next_index,
                    prompt: Seq::empty(),
                    command: Seq::empty(),
                    output: Seq::empty(),
                    output_dropped_bytes: 0,
                    exit_code: None,
                    started_at_unix_ms: now,
                    ended_at_unix_ms: None,
                    cwd: closed.cwd,
                    yurai: closed.yurai,
                },
            ),
            next_index: if closed.next_index == u64::MAX {
                0
            } else {
                (closed.next_index + 1) as u64
            },
            phase: Phase::Prompt,
            ..closed
        }
    }

    pub open spec fn enter(self, phase: Phase) -> BlocksView {
        if self.current is Some {
            BlocksView { phase, ..self }
        } else {
            self
        }
    }

    /// What a prompt mark read at `now` does.
    pub open spec fn marker(self, marker: Seq<char>, now: u64) -> BlocksView {
        if marker.len() == 0 {
            self
        } else if marker[0] == 'A' {
            self.prompt_start(now)
        } else if marker[0] == 'B' {
            self.enter(Phase::Command)
        } else if marker[0] == 'C' {
            self.enter(Phase::Output)
        } else if marker[0] == 'D' {
            self.finalize(spec_exit_code(marker), now)
        } else {
            self
        }
    }

    /// The provenance is set once, and never changed after.
    pub open spec fn stamp(self, y: YuraiView) -> BlocksView {
        if self.yurai == YuraiView::Unknown {
            BlocksView { yurai: y, ..self }
        } else {
            self
        }
    }

    pub open spec fn set_cwd(self, raw: Seq<char>) -> BlocksView {
        BlocksView { cwd: Some(osc7_directory(raw)), ..self }
    }

    /// The indexes of the kept blocks follow each other up to the last one
    /// that was completed.
    pub open spec fn consecutive(self) -> bool {
        let minted = self.next_index - if self.current is Some {
            1int
        } else {
            0
        };
        &&& self.blocks.len() <= minted
        &&& self.current is Some ==> self.current->0.index == minted
        &&& forall|i: int|
            0 <= i < self.blocks.len() ==> (#[trigger] self.blocks[i]).index == minted
                - self.blocks.len() + i
    }

    /// The ring holds at most its cap.
    pub open spec fn within_cap(self) -> bool {
        self.blocks.len() <= self.cap
    }
}

/// Extracts blocks from the characters and prompt marks of one pane.
pub struct BlockExtractor {
    pub blocks: VecDeque<Block>,
    pub cap: usize,
    pub current: Option<Block>,
    pub phase: Phase,
    pub next_index: u64,
    pub current_cwd: Option<String>,
    pub yurai: Yurai,
}

impl View for BlockExtractor {
    type V = BlocksView;

    open spec fn view(&self) -> BlocksView {
        BlocksView {
            blocks: block::blocks_view(self.blocks@),
            cap: self.cap,
            current: match self.current {
                Some(b) => Some(b@),
                None => None,
            },
            phase: self.phase,
            next_index: self.next_index,
            cwd: yurai::opt_text(self.current_cwd),
            yurai: self.yurai@,
        }
    }
}

impl Default for BlockExtractor {
    fn default() -> (r: BlockExtractor)
        ensures
            r@ == BlocksView::start(10000),
    {
        BlockExtractor::new(10000)
    }
}

/// `b` is the oldest of the blocks that have the given index.
pub open spec fn is_oldest(blocks: Seq<BlockView>, index: u64, b: BlockView) -> bool {
    exists|i: int|
        0 <= i < blocks.len() && #[trigger] blocks[i] == b && b.index == index && forall|j: int|
            0 <= j < i ==> (#[trigger] blocks[j]).index != index
}

impl BlockExtractor {
    pub fn new(cap: usize) -> (r: BlockExtractor)
        ensures
            r@ == BlocksView::start(cap),
    {
        let r = BlockExtractor {
            blocks: VecDeque::new(),
            cap,
            current: None,
            phase: Phase::Idle,
            next_index: 0,
            current_cwd: None,
            yurai: Yurai::Unknown,
        };
        assert(block::blocks_view(r.blocks@) =~= Seq::<BlockView>::empty());
        r
    }

    /// Stamps the owning pane's provenance, once. Returns whether this call
    /// took effect; a later stamp is refused.
    pub fn stamp_yurai(&mut self, y: Yurai) -> (took: bool)
        ensures
            final(self)@ == old(self)@.stamp(y@),
            took == (old(self)@.yurai == YuraiView::Unknown),
    {
        if self.yurai.is_unknown() {
            self.yurai = y;
            true
        } else {
            false
        }
    }

    /// The provenance every block carries.
    pub fn yurai(&self) -> (r: &Yurai)
        ensures
            r@ == self@.yurai,
    {
        &self.yurai
    }

    /// Records the shell's working directory from an OSC 7 payload.
    pub fn set_cwd_from_osc7(&mut self, raw: &str)
        ensures
            final(self)@ == old(self)@.set_cwd(raw@),
    {
        let dir = osc7_path(raw);
        self.current_cwd = Some(dir);
    }

    /// The working directory last recorded.
    pub fn current_cwd(&self) -> (r: Option<&str>)
        ensures
            match r {
                Some(s) => self@.cwd == Some(s@),
                None => self@.cwd is None,
            },
    {
        match &self.current_cwd {
            Some(s) => Some(s.as_str()),
            None => None,
        }
    }

    /// Number of completed blocks kept.
    pub fn len(&self) -> (n: usize)
        ensures
            n == self@.blocks.len(),
    {
        self.blocks.len()
    }

    pub fn is_empty(&self) -> (b: bool)
        ensures
            b <==> self@.blocks.len() == 0,
    {
        self.blocks.len() == 0
    }

    /// The completed blocks, oldest first.
    pub fn iter(&self) -> (r: Vec<&Block>)
        ensures
            r@.len() == self@.blocks.len(),
            forall|i: int| 0 <= i < r@.len() ==> (#[trigger] r@[i])@ == self@.blocks[i],
    {
        let mut r: Vec<&Block> = Vec::new();
        let mut i: usize = 0;
        while i < self.blocks.len()
            invariant
                i <= self.blocks@.len(),
                r@.len() == i,
                forall|j: int| 0 <= j < i ==> *(#[trigger] r@[j]) == self.blocks@[j],
            decreases self.blocks@.len() - i,
        {
            r.push(&self.blocks[i]);
            i = i + 1;
        }
        r
    }

    /// The oldest kept block with the given index, where one is kept.
    pub fn get(&self, index: u64) -> (r: Option<&Block>)
        ensures
            match r {
                Some(b) => is_oldest(self@.blocks, index, b@),
                None => forall|i: int|
                    0 <= i < self@.blocks.len() ==> (#[trigger] self@.blocks[i]).index != index,
            },
    {
        let mut i: usize = 0;
        while i < self.blocks.len()
            invariant
                i <= self.blocks@.len(),
                forall|j: int| 0 <= j < i ==> (#[trigger] self@.blocks[j]).index != index,
            decreases self.blocks@.len() - i,
        {
            if self.blocks[i].index == index {
                assert(self@.blocks[i as int] == self.blocks@[i as int]@);
                return Some(&self.blocks[i]);
            }
            assert(self@.blocks[i as int].index != index);
            i = i + 1;
        }
        None
    }

    /// The block that is open, if any.
    pub fn current(&self) -> (r: Option<&Block>)
        ensures
            match r {
                Some(b) => self@.current == Some(b@),
                None => self@.current is None,
            },
    {
        match &self.current {
            Some(b) => Some(b),
            None => None,
        }
    }

    /// Adds a printed character to the open block.
    pub fn on_print(&mut self, c: char)
        ensures
            final(self)@ == old(self)@.print(c),
    {
        let phase = self.phase;
        match &mut self.current {
            Some(block) => {
                match phase {
                    Phase::Prompt => block.prompt.push(c),
                    Phase::Command => block.command.push(c),
                    Phase::Output => block.output.push(c),
                    Phase::Idle => {},
                }
            },
            None => {},
        }
    }

    /// Adds a raw byte to the open block's output.
    pub fn on_raw_byte(&mut self, b: u8)
        ensures
            final(self)@ == old(self)@.raw_byte(b),
    {
        let phase = self.phase;
        match &mut self.current {
            Some(block) => {
                match phase {
                    Phase::Output => block.output.push(b as char),
                    _ => {},
                }
            },
            None => {},
        }
    }

    /// Handles a prompt mark, reading the clock for its time stamp.
    pub fn on_osc_133(&mut self, marker: &str)
        ensures
            exists|t: std::time::SystemTime| #[trigger]
                old(self)@.marker(marker@, clock::millis_of(t)) == final(self)@,
    {
        let ghost before = self@;
        let t = std::time::SystemTime::now();
        self.on_osc_133_at(marker, clock::millis_at(t));
        assert(self@ == before.marker(marker@, clock::millis_of(t)));
    }

    /// Handles a prompt mark that was read at `now`.
    pub fn on_osc_133_at(&mut self, marker: &str, now: u64)
        ensures
            final(self)@ == old(self)@.marker(marker@, now),
    {
        let chars = chars_of(marker);
        if chars.len() == 0 {
            return;
        }
        match chars[0] {
            'A' => self.start_prompt(now),
            'B' => self.start_command(),
            'C' => self.start_output(),
            'D' => {
                let code = exit_code_of(&chars);
                self.end_output(code, now);
            },
            _ => {},
        }
    }

    fn start_prompt(&mut self, now: u64)
        ensures
            final(self)@ == old(self)@.prompt_start(now),
    {
        self.finalize_current(None, now);
        let block = Block {
            index: self.next_index,
            prompt: String::new(),
            command: String::new(),
            output: String::new(),
            output_dropped_bytes: 0,
            exit_code: None,
            started_at_unix_ms: now,
            ended_at_unix_ms: None,
            cwd: clone_opt(&self.current_cwd),
            yurai: self.yurai.clone(),
        };
        self.current = Some(block);
        self.next_index = if self.next_index == u64::MAX {
            0
        } else {
            self.next_index + 1
        };
        self.phase = Phase::Prompt;
    }

    fn start_command(&mut self)
        ensures
            final(self)@ == old(self)@.enter(Phase::Command),
    {
        if self.current.is_some() {
            self.phase = Phase::Command;
        }
    }

    fn start_output(&mut self)
        ensures
            final(self)@ == old(self)@.enter(Phase::Output),
    {
        if self.current.is_some() {
            self.phase = Phase::Output;
        }
    }

    fn end_output(&mut self, exit_code: Option<i32>, now: u64)
        ensures
            final(self)@ == old(self)@.finalize(exit_code, now),
    {
        self.finalize_current(exit_code, now);
    }

    fn finalize_current(&mut self, exit_code: Option<i32>, now: u64)
        ensures
            final(self)@ == old(self)@.finalize(exit_code, now),
    {
        let mut taken: Option<Block> = None;
        std::mem::swap(&mut taken, &mut self.current);
        match taken {
            None => {},
            Some(open) => {
                let mut block = open;
                block.exit_code = exit_code;
                block.ended_at_unix_ms = Some(now);
                let ghost before = self.blocks@;
                let ghost done = block@;
                self.phase = Phase::Idle;
                if self.cap == 0 {
                    return;
                }
                if self.blocks.len() == self.cap {
                    self.blocks.pop_front();
                }
                let ghost kept = self.blocks@;
                self.blocks.push_back(block);
                proof {
                    assert(block::blocks_view(self.blocks@) =~= block::blocks_view(kept).push(done));
                    if before.len() == self.cap {
                        assert(block::blocks_view(kept) =~= block::blocks_view(before).drop_first());
                    } else {
                        assert(block::blocks_view(kept) =~= block::blocks_view(before));
                    }
                }
            },
        }
    }
}

/// The exit code in the characters of a `D` marker.
fn exit_code_of(marker: &Vec<char>) -> (r: Option<i32>)
    ensures
        r == spec_exit_code(marker@),
{
    let parts = split_chars(marker, ';');
    if parts.len() >= 2 {
        let trimmed = trim_chars(&parts[1]);
        parse_i32(&trimmed)
    } else {
        None
    }
}

/// The exit code of a `D` marker, where it carries one.
pub fn parse_exit_code(marker: &str) -> (r: Option<i32>)
    ensures
        r == spec_exit_code(marker@),
{
    let chars = chars_of(marker);
    exit_code_of(&chars)
}

proof fn lemma_first_index(s: Seq<char>, c: char, i: int)
    requires
        0 <= i < s.len(),
        s[i] == c,
        forall|j: int| 0 <= j < i ==> s[j] != c,
    ensures
        first_index(s, c) == i,
    decreases i,
{
    if i > 0 {
        lemma_first_index(s.drop_first(), c, i - 1);
    }
}

fn osc7_path(raw: &str) -> (r: String)
    ensures
        r@ == osc7_directory(raw@),
{
    let v = chars_of(raw);
    if v.len() >= 7 && v[0] == 'f' && v[1] == 'i' && v[2] == 'l' && v[3] == 'e' && v[4] == ':'
        && v[5] == '/' && v[6] == '/' {
        assert(v@.take(7) =~= file_scheme());
        let ghost rest = v@.skip(7);
        let mut i: usize = 7;
        while i < v.len()
            invariant
                7 <= i <= v@.len(),
                v@ == raw@,
                v@.take(7) == file_scheme(),
                rest == v@.skip(7),
                forall|j: int| 0 <= j < i - 7 ==> rest[j] != '/',
            decreases v@.len() - i,
        {
            if v[i] == '/' {
                proof {
                    assert(rest[i - 7] == '/');
                    lemma_first_index(rest, '/', i - 7);
                    assert(rest.contains('/'));
                    assert(v@.skip(i as int) =~= rest.skip(i - 7));
                }
                let tail = vstd::slice::slice_to_vec(
                    vstd::slice::slice_subrange(v.as_slice(), i, v.len()),
                );
                assert(tail@ =~= v@.skip(i as int));
                return string_of(&tail);
            }
            assert(rest[i - 7] != '/');
            i = i + 1;
        }
        assert(!rest.contains('/'));
    } else {
        assert(v@.len() >= 7 ==> v@.take(7) != file_scheme()) by {
            if v@.len() >= 7 && v@.take(7) == file_scheme() {
                let t = v@.take(7);
                assert(t[0] == 'f' && t[1] == 'i' && t[2] == 'l' && t[3] == 'e' && t[4] == ':'
                    && t[5] == '/' && t[6] == '/');
            }
        }
    }
    raw.to_owned()
}

/// The ring never holds more than its cap, whatever a mark does.
pub proof fn lemma_ring_stays_within_cap(v: BlocksView, marker: Seq<char>, now: u64)
    requires
        v.within_cap(),
    ensures
        v.marker(marker, now).within_cap(),
        v.marker(marker, now).cap == v.cap,
{
}

/// Whatever a mark does, the kept indexes follow each other, so that a block
/// is found by its index until it is evicted, and never after.
pub proof fn lemma_indexes_stay_consecutive(v: BlocksView, marker: Seq<char>, now: u64)
    requires
        v.consecutive(),
        v.within_cap(),
        v.next_index < u64::MAX,
    ensures
        v.marker(marker, now).consecutive(),
{
    let closed = v.finalize(None, now);
    assert(closed.consecutive());
}

/// A provenance that was stamped stays: no later stamp, mark, character or
/// directory changes it.
pub proof fn lemma_provenance_never_drifts(
    v: BlocksView,
    y: YuraiView,
    marker: Seq<char>,
    c: char,
    raw: Seq<char>,
    now: u64,
)
    requires
        v.yurai != YuraiView::Unknown,
    ensures
        v.stamp(y).yurai == v.yurai,
        v.marker(marker, now).yurai == v.yurai,
        v.print(c).yurai == v.yurai,
        v.set_cwd(raw).yurai == v.yurai,
{
}

/// Every block is minted with the provenance of its extractor.
pub proof fn lemma_minted_block_carries_provenance(v: BlocksView, now: u64)
    ensures
        v.prompt_start(now).current is Some,
        v.prompt_start(now).current->0.yurai == v.yurai,
        v.prompt_start(now).current->0.index == v.next_index,
        v.prompt_start(now).current->0.cwd == v.cwd,
{
}

/// What happens to an extractor.
pub enum BlockStep {
    Print(char),
    Raw(u8),
    Mark { marker: Seq<char>, now: u64 },
    Stamp(YuraiView),
    Directory(Seq<char>),
}

/// Whether a step is a mark that starts with a letter.
pub open spec fn marks(s: BlockStep, letter: char) -> bool {
    s matches BlockStep::Mark { marker, now } && marker.len() > 0 && marker[0] == letter
}

/// How many blocks the steps open.
pub open spec fn opened(s: Seq<BlockStep>) -> int
    decreases s.len(),
{
    if s.len() == 0 {
        0
    } else {
        opened(s.drop_last()) + if marks(s.last(), 'A') {
            1int
        } else {
            0
        }
    }
}

/// Whether the step at `i` opens a block and no later one opens another or
/// closes it.
pub open spec fn open_since(s: Seq<BlockStep>, i: int) -> bool {
    &&& 0 <= i < s.len()
    &&& marks(s[i], 'A')
    &&& forall|j: int| i < j < s.len() ==> !marks(#[trigger] s[j], 'A') && !marks(s[j], 'D')
}

impl BlocksView {
    pub open spec fn step(self, s: BlockStep) -> BlocksView {
        match s {
            BlockStep::Print(c) => self.print(c),
            BlockStep::Raw(b) => self.raw_byte(b),
            BlockStep::Mark { marker, now } => self.marker(marker, now),
            BlockStep::Stamp(y) => self.stamp(y),
            BlockStep::Directory(raw) => self.set_cwd(raw),
        }
    }

    pub open spec fn steps(self, s: Seq<BlockStep>) -> BlocksView
        decreases s.len(),
    {
        if s.len() == 0 {
            self
        } else {
            self.steps(s.drop_last()).step(s.last())
        }
    }

    /// The state after `n` blocks were opened: those that were completed are
    /// kept from the newest back, as many as fit.
    spec fn after_opening(self, n: int) -> bool {
        let minted = n - if self.current is Some {
            1int
        } else {
            0
        };
        &&& 0 <= minted
        &&& n <= u64::MAX ==> self.next_index == n
        &&& self.blocks.len() == if minted <= self.cap {
            minted
        } else {
            self.cap as int
        }
        &&& self.current is Some ==> self.current->0.index == minted
        &&& forall|i: int|
            0 <= i < self.blocks.len() ==> (#[trigger] self.blocks[i]).index == minted
                - self.blocks.len() + i && self.blocks[i].ended_at_unix_ms is Some
    }
}

proof fn lemma_after_opening(cap: usize, s: Seq<BlockStep>)
    requires
        opened(s) <= u64::MAX + 1,
    ensures
        BlocksView::start(cap).steps(s).after_opening(opened(s)),
        BlocksView::start(cap).steps(s).cap == cap,
    decreases s.len(),
{
    if s.len() > 0 {
        let v = BlocksView::start(cap).steps(s.drop_last());
        let n = opened(s.drop_last());
        lemma_after_opening(cap, s.drop_last());
        match s.last() {
            BlockStep::Mark { marker, now } => {
                let closed = v.finalize(None, now);
                assert(closed.after_opening(n));
                if marks(s.last(), 'D') {
                    assert(v.finalize(spec_exit_code(marker), now).after_opening(n));
                }
            },
            _ => {},
        }
    }
}

/// Whatever happens to an extractor that keeps blocks, the kept blocks stand
/// oldest first with indexes that follow each other, each of them is completed,
/// there are no more than the cap, and the open block has the index after the
/// last of them, or none before it. (The index has 64 bits, and starts again
/// after its greatest value.)
pub proof fn lemma_blocks_of_a_history(cap: usize, s: Seq<BlockStep>)
    requires
        cap >= 1,
        opened(s) <= u64::MAX + 1,
    ensures
        ({
            let v = BlocksView::start(cap).steps(s);
            &&& v.blocks.len() <= cap
            &&& forall|i: int|
                0 <= i < v.blocks.len() ==> (#[trigger] v.blocks[i]).ended_at_unix_ms is Some
                    && v.blocks[i].index == v.blocks[0].index + i
            &&& v.current is Some ==> v.current->0.index == if v.blocks.len() == 0 {
                0
            } else {
                v.blocks.last().index + 1
            }
        }),
{
    lemma_after_opening(cap, s);
    let v = BlocksView::start(cap).steps(s);
    if v.blocks.len() > 0 {
        assert(v.blocks[0].index == v.blocks[0].index);
        assert(v.blocks.last() == v.blocks[v.blocks.len() - 1]);
    }
}

/// An extractor made for no blocks keeps none.
pub proof fn lemma_no_room_keeps_nothing(s: Seq<BlockStep>)
    ensures
        BlocksView::start(0).steps(s).blocks.len() == 0,
        BlocksView::start(0).steps(s).cap == 0,
    decreases s.len(),
{
    if s.len() > 0 {
        lemma_no_room_keeps_nothing(s.drop_last());
    }
}

/// A block is open exactly where a mark opened one and neither another opening
/// nor a closing mark came after it.
pub proof fn lemma_a_block_is_open_between_its_marks(cap: usize, s: Seq<BlockStep>)
    ensures
        BlocksView::start(cap).steps(s).current is Some <==> exists|i: int| #[trigger]
            open_since(s, i),
    decreases s.len(),
{
    if s.len() == 0 {
        assert(forall|i: int| !#[trigger] open_since(s, i));
    } else {
        let before = s.drop_last();
        let end = s.len() - 1;
        lemma_a_block_is_open_between_its_marks(cap, before);
        if marks(s.last(), 'A') {
            assert(open_since(s, end));
        } else if marks(s.last(), 'D') {
            assert forall|i: int| !#[trigger] open_since(s, i) by {
                assert(s[end] == s.last());
            }
        } else {
            assert forall|i: int| #[trigger] open_since(s, i) == open_since(before, i) by {
                assert(s[end] == s.last());
                assert(forall|j: int| 0 <= j < end ==> s[j] == before[j]);
            }
            if exists|i: int| #[trigger] open_since(before, i) {
                let i = choose|i: int| #[trigger] open_since(before, i);
                assert(open_since(s, i));
            }
        }
    }
}

/// The open block carries the directory and the provenance that stood when its
/// mark came, and has neither an exit code nor an end.
pub proof fn lemma_the_open_block_keeps_its_start(cap: usize, s: Seq<BlockStep>, i: int)
    requires
        open_since(s, i),
    ensures
        ({
            let then = BlocksView::start(cap).steps(s.take(i));
            let v = BlocksView::start(cap).steps(s);
            &&& v.current is Some
            &&& v.current->0.cwd == then.cwd
            &&& v.current->0.yurai == then.yurai
            &&& v.current->0.index == then.next_index
            &&& v.current->0.exit_code is None
            &&& v.current->0.ended_at_unix_ms is None
        }),
    decreases s.len(),
{
    let before = s.drop_last();
    let end = s.len() - 1;
    if i == end {
        assert(s.take(i) =~= before);
    } else {
        assert(s[end] == s.last());
        assert(before.take(i) =~= s.take(i));
        assert(open_since(before, i)) by {
            assert(forall|j: int| 0 <= j < end ==> s[j] == before[j]);
        }
        lemma_the_open_block_keeps_its_start(cap, before, i);
    }
}

/// Outside a block nothing is captured.
pub proof fn lemma_idle_captures_nothing(v: BlocksView, c: char, b: u8)
    requires
        v.current is None,
    ensures
        v.print(c) == v,
        v.raw_byte(b) == v,
{
}

} // verus!
