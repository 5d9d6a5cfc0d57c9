use vstd::prelude::*;

use crate::word::Operation;

verus! {

/// Stack primitives on `i32` values.
#[derive(Debug, Clone, Copy, PartialEq, Eq, Structural)]
pub enum Builtin {
    /// Replaces the top two values `a b` by their sum `a + b`, wrapping on
    /// overflow.
    Add,
    /// Pushes a copy of the top value.
    Dup,
}

impl Operation<i32> for Builtin {
    open spec fn effect(&self, stack: Seq<i32>) -> Option<Seq<i32>> {
        match self {
            Builtin::Add => if stack.len() >= 2 {
                let a = stack[stack.len() - 2];
                let b = stack[stack.len() - 1];
                Some(stack.take(stack.len() - 2).push(a.wrapping_add(b)))
            } else {
                None
            },
            Builtin::Dup => if stack.len() >= 1 {
                Some(stack.push(stack.last()))
            } else {
                None
            },
        }
    }

    fn apply(&self, stack: &mut Vec<i32>) -> (ok: bool) {
        match self {
            Builtin::Add => {
                if stack.len() < 2 {
                    return false;
                }
                let ghost s = stack@;
                let b = stack.pop().unwrap();
                let a = stack.pop().unwrap();
                stack.push(a.wrapping_add(b));
                assert(s.drop_last().drop_last() == s.take(s.len() - 2));
                true
            },
            Builtin::Dup => {
                if stack.len() < 1 {
                    return false;
                }
                let x = stack[stack.len() - 1];
                stack.push(x);
                true
            },
        }
    }
}

} // verus!
