//! What the tracer of the virtual machine shows around the instruction
//! pointer.
use vstd::prelude::*;

use crate::vm::opcode::Chunk;

verus! {

/// A tracer that logs the stack and the instructions around the instruction
/// pointer.
#[derive(Debug)]
pub struct LoggingTracer;

/// The smaller of two numbers.
pub open spec fn min_of(a: int, b: int) -> int {
    if a <= b {
        a
    } else {
        b
    }
}

/// Half the width of the window of instructions shown around the
/// instruction pointer: half of `win_size`, and no more than half the length
/// of the program.
pub open spec fn half_window(len: nat, win_size: nat) -> int {
    min_of(len as int, win_size as int) / 2
}

impl LoggingTracer {
    /// The indices of the instructions to show around `ip`: from `start`
    /// (at most half a window before `ip`, and not before the first
    /// instruction) up to `end` (half a window after `ip`, and not past the
    /// last instruction), `end` excluded.
    pub fn instructions_window(&self, ip: usize, chunk: &Chunk, win_size: usize) -> (r: (
        usize,
        usize,
    ))
        requires
            ip + half_window(chunk@.len(), win_size as nat) <= usize::MAX,
        ensures
            r.0 == (if ip > half_window(chunk@.len(), win_size as nat) {
                ip - half_window(chunk@.len(), win_size as nat)
            } else {
                0
            }),
            r.1 == min_of(chunk@.len() as int, ip + half_window(chunk@.len(), win_size as nat)),
    {
        let len = chunk.len();
        let win_size = if len < win_size {
            len
        } else {
            win_size
        };
        let half_win = win_size / 2;
        let mut start_index: usize = 0;
        if ip > half_win {
            start_index = ip - half_win;
        }
        let reach = ip + half_win;
        let end_index = if len < reach {
            len
        } else {
            reach
        };
        (start_index, end_index)
    }
}

impl Default for LoggingTracer {
    fn default() -> (t: LoggingTracer) {
        LoggingTracer
    }
}

/// The window of instructions is half the requested width (or half the
/// program, when it is shorter) on either side of the instruction pointer.
pub proof fn law_half_window(len: nat, win_size: nat)
    ensures
        half_window(len, win_size) == (if len <= win_size {
            len
        } else {
            win_size
        }) / 2,
        half_window(len, win_size) >= 0,
        2 * half_window(len, win_size) <= len,
{
}

} // verus!
