//! One command of a shell with what it printed.
use crate::yurai;
use crate::yurai::{clone_opt, Yurai, YuraiView};
use vstd::prelude::*;

verus! {

/// A prompt, the command typed at it, its output, and who ran it.
#[derive(Debug, PartialEq, Eq)]
pub struct Block {
    pub index: u64,
    pub prompt: String,
    pub command: String,
    pub output: String,
    /// Bytes of output that were not kept; zero is the normal case.
    pub output_dropped_bytes: usize,
    pub exit_code: Option<i32>,
    pub started_at_unix_ms: u64,
    pub ended_at_unix_ms: Option<u64>,
    /// Working directory at prompt start, where the shell has told it.
    pub cwd: Option<String>,
    /// Provenance of the pane that produced the block.
    pub yurai: Yurai,
}

/// The contents of a [`Block`].
#[verifier::ext_equal]
pub struct BlockView {
    pub index: u64,
    pub prompt: Seq<char>,
    pub command: Seq<char>,
    pub output: Seq<char>,
    pub output_dropped_bytes: usize,
    pub exit_code: Option<i32>,
    pub started_at_unix_ms: u64,
    pub ended_at_unix_ms: Option<u64>,
    pub cwd: Option<Seq<char>>,
    pub yurai: YuraiView,
}

impl View for Block {
    type V = BlockView;

    open spec fn view(&self) -> BlockView {
        BlockView {
            index: self.index,
            prompt: self.prompt@,
            command: self.command@,
            output: self.output@,
            output_dropped_bytes: self.output_dropped_bytes,
            exit_code: self.exit_code,
            started_at_unix_ms: self.started_at_unix_ms,
            ended_at_unix_ms: self.ended_at_unix_ms,
            cwd: yurai::opt_text(self.cwd),
            yurai: self.yurai@,
        }
    }
}

impl Clone for Block {
    fn clone(&self) -> (r: Block)
        ensures
            r@ == self@,
    {
        Block {
            index: self.index,
            prompt: self.prompt.clone(),
            command: self.command.clone(),
            output: self.output.clone(),
            output_dropped_bytes: self.output_dropped_bytes,
            exit_code: self.exit_code,
            started_at_unix_ms: self.started_at_unix_ms,
            ended_at_unix_ms: self.ended_at_unix_ms,
            cwd: clone_opt(&self.cwd),
            yurai: self.yurai.clone(),
        }
    }
}

impl Block {
    /// Wall-clock duration from start to end; `None` while it runs. A clock
    /// that was set back gives zero.
    pub fn duration_ms(&self) -> (r: Option<u64>)
        ensures
            r == match self.ended_at_unix_ms {
                Some(end) => Some(
                    if end >= self.started_at_unix_ms {
                        (end - self.started_at_unix_ms) as u64
                    } else {
                        0
                    },
                ),
                None => None,
            },
    {
        match self.ended_at_unix_ms {
            Some(end) => if end >= self.started_at_unix_ms {
                Some(end - self.started_at_unix_ms)
            } else {
                Some(0)
            },
            None => None,
        }
    }
}

/// The contents of a sequence of blocks.
pub open spec fn blocks_view(s: Seq<Block>) -> Seq<BlockView> {
    Seq::new(s.len(), |i: int| s[i]@)
}

} // verus!
