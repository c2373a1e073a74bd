//! Where `break` and `continue` jump: to the innermost enclosing loop.
use vstd::prelude::*;

verus! {

/// The block a `break` (`is_break`) or `continue` jumps to, given the
/// enclosing loops from outermost to innermost as (continue block, break
/// block) pairs: the innermost loop's, or `None` outside any loop.
pub open spec fn jump_target<B>(loops: Seq<(B, B)>, is_break: bool) -> Option<B> {
    if loops.len() == 0 {
        None
    } else if is_break {
        Some(loops.last().1)
    } else {
        Some(loops.last().0)
    }
}

/// The message for a `break` or `continue` outside any loop.
pub open spec fn outside_loop_message(is_break: bool) -> Seq<char> {
    if is_break { "Break statement outside of loop"@ } else { "Continue statement outside of loop"@ }
}

/// Finds the block a `break` or `continue` jumps to (see `jump_target`);
/// outside any loop it is an error.
pub fn loop_jump_target<B: Copy>(loops: &Vec<(B, B)>, is_break: bool) -> (r: Result<B, String>)
    ensures
        match jump_target(loops@, is_break) {
            Some(b) => r == Ok::<B, String>(b),
            None => r matches Err(e) && e@ == outside_loop_message(is_break),
        },
{
    let n = loops.len();
    if n == 0 {
        return Err(if is_break {
            "Break statement outside of loop".to_owned()
        } else {
            "Continue statement outside of loop".to_owned()
        });
    }
    let (continue_block, break_block) = loops[n - 1];
    if is_break {
        Ok(break_block)
    } else {
        Ok(continue_block)
    }
}

} // verus!
