use std::rc::Rc;
use vstd::hash_map::StringHashMap;
use vstd::prelude::*;
use vstd::string::StringExecFns;

use crate::literal::Literal;
use crate::text::{tokenize, tokens_of};
use crate::word::{run_word, Operation, Word};

verus! {

/// Why an evaluation stopped.
#[derive(Debug, Clone, Copy, PartialEq, Eq, Structural)]
pub enum EvalError {
    /// A word needed more values than the stack held.
    StackUnderflow,
    /// In strict mode: a token that is neither a literal nor a bound name.
    UnknownToken,
}

/// The stack after taking the top value off `stack`, and that value, or
/// `stack` unchanged and `None` when it is empty.
pub open spec fn popped<T>(stack: Seq<T>) -> (Seq<T>, Option<T>) {
    if stack.len() == 0 {
        (stack, None)
    } else {
        (stack.drop_last(), Some(stack.last()))
    }
}

/// What evaluating the word `w` on `stack` leaves, and how it ends.
pub open spec fn word_result<T, P: Operation<T>>(w: Word<P>, stack: Seq<T>) -> (Seq<T>, Result<(), EvalError>) {
    let (s, ok) = run_word::<T, P>(w, stack);
    (s, if ok { Ok(()) } else { Err(EvalError::StackUnderflow) })
}

/// What evaluating one token leaves: a literal is pushed; a bound name runs
/// its word; any other token is ignored, or refused in strict mode.
pub open spec fn run_token<T: Literal, P: Operation<T>>(
    vocabulary: Map<Seq<char>, Rc<Word<P>>>,
    strict: bool,
    token: Seq<char>,
    stack: Seq<T>,
) -> (Seq<T>, Result<(), EvalError>) {
    match T::literal(token) {
        Some(v) => (stack.push(v), Ok(())),
        None => if vocabulary.contains_key(token) {
            word_result::<T, P>(*vocabulary[token], stack)
        } else if strict {
            (stack, Err(EvalError::UnknownToken))
        } else {
            (stack, Ok(()))
        },
    }
}

/// Evaluating `tokens` left to right, stopping at the first error.
pub open spec fn run_tokens<T: Literal, P: Operation<T>>(
    vocabulary: Map<Seq<char>, Rc<Word<P>>>,
    strict: bool,
    tokens: Seq<Seq<char>>,
    stack: Seq<T>,
) -> (Seq<T>, Result<(), EvalError>)
    decreases tokens.len(),
{
    if tokens.len() == 0 {
        (stack, Ok(()))
    } else {
        let (s, r) = run_token::<T, P>(vocabulary, strict, tokens[0], stack);
        if r is Ok {
            run_tokens::<T, P>(vocabulary, strict, tokens.drop_first(), s)
        } else {
            (s, r)
        }
    }
}

/// A data stack of `T` and a dictionary of words built on primitives `P`.
#[verifier::reject_recursive_types(P)]
pub struct Interpreter<T, P> {
    data_stack: Vec<T>,
    vocabulary: StringHashMap<Rc<Word<P>>>,
    strict: bool,
}

impl<T, P> Interpreter<T, P> {
    /// The data stack, bottom first.
    pub closed spec fn stack(&self) -> Seq<T> {
        self.data_stack@
    }

    /// The bindings from names to shared words.
    pub closed spec fn vocabulary(&self) -> Map<Seq<char>, Rc<Word<P>>> {
        self.vocabulary@
    }

    /// Whether unknown tokens are refused rather than ignored.
    pub closed spec fn strict(&self) -> bool {
        self.strict
    }

    /// An interpreter with an empty stack, an empty dictionary, and unknown
    /// tokens ignored.
    pub fn new() -> (r: Self)
        ensures
            r.stack() == Seq::<T>::empty(),
            r.vocabulary() == Map::<Seq<char>, Rc<Word<P>>>::empty(),
            !r.strict(),
    {
        Interpreter { data_stack: Vec::new(), vocabulary: StringHashMap::new(), strict: false }
    }

    /// Pushes `value` on top of the stack.
    pub fn push(&mut self, value: T)
        ensures
            final(self).stack() == old(self).stack().push(value),
            final(self).vocabulary() == old(self).vocabulary(),
            final(self).strict() == old(self).strict(),
    {
        self.data_stack.push(value);
    }

    /// Takes the top value off the stack; `None` when the stack is empty.
    pub fn pop(&mut self) -> (r: Option<T>)
        ensures
            (final(self).stack(), r) == popped(old(self).stack()),
            final(self).vocabulary() == old(self).vocabulary(),
            final(self).strict() == old(self).strict(),
    {
        self.data_stack.pop()
    }

    /// Binds `name` to `word`, replacing any earlier binding of `name`.
    pub fn define_word(&mut self, name: &str, word: Rc<Word<P>>)
        ensures
            final(self).vocabulary() == old(self).vocabulary().insert(name@, word),
            final(self).stack() == old(self).stack(),
            final(self).strict() == old(self).strict(),
    {
        self.vocabulary.insert(String::from_str(name), word);
    }

    /// The word bound to `name`, shared, or `None` when `name` is unbound.
    pub fn lookup(&self, name: &str) -> (r: Option<Rc<Word<P>>>)
        ensures
            r == (if self.vocabulary().contains_key(name@) {
                Some(self.vocabulary()[name@])
            } else {
                None
            }),
    {
        match self.vocabulary.get(name) {
            Some(word) => Some(word.clone()),
            None => None,
        }
    }

    /// Chooses whether unknown tokens are refused (`true`) or ignored.
    pub fn set_strict(&mut self, strict: bool)
        ensures
            final(self).strict() == strict,
            final(self).stack() == old(self).stack(),
            final(self).vocabulary() == old(self).vocabulary(),
    {
        self.strict = strict;
    }

    /// Whether unknown tokens are refused.
    pub fn is_strict(&self) -> (r: bool)
        ensures
            r == self.strict(),
    {
        self.strict
    }
}

impl<T, P> Default for Interpreter<T, P> {
    /// The same as `new`.
    fn default() -> (r: Self)
        ensures
            r.stack() == Seq::<T>::empty(),
            r.vocabulary() == Map::<Seq<char>, Rc<Word<P>>>::empty(),
            !r.strict(),
    {
        Self::new()
    }
}

impl<T: Literal, P: Operation<T>> Interpreter<T, P> {
    /// Evaluates one token: pushes it when it reads as a literal of `T`,
    /// otherwise runs the word bound to it; an unbound token is ignored, or
    /// refused in strict mode.
    pub fn eval_token(&mut self, token: &str) -> (r: Result<(), EvalError>)
        ensures
            (final(self).stack(), r) == run_token::<T, P>(
                old(self).vocabulary(),
                old(self).strict(),
                token@,
                old(self).stack(),
            ),
            T::literal(token@) matches Some(v) ==> r is Ok && final(self).stack() == old(
                self,
            ).stack().push(v),
            final(self).vocabulary() == old(self).vocabulary(),
            final(self).strict() == old(self).strict(),
    {
        match T::parse_literal(token) {
            Some(v) => {
                self.push(v);
                Ok(())
            },
            None => match self.lookup(token) {
                Some(word) => word.eval_within(self),
                None => if self.strict {
                    Err(EvalError::UnknownToken)
                } else {
                    Ok(())
                },
            },
        }
    }

    /// Evaluates the whitespace-separated tokens of `text` left to right,
    /// stopping at the first error; what earlier tokens did stays in place.
    pub fn parse(&mut self, text: &str) -> (r: Result<(), EvalError>)
        ensures
            (final(self).stack(), r) == run_tokens::<T, P>(
                old(self).vocabulary(),
                old(self).strict(),
                tokens_of(text@),
                old(self).stack(),
            ),
            final(self).vocabulary() == old(self).vocabulary(),
            final(self).strict() == old(self).strict(),
    {
        let tokens = tokenize(text);
        let ghost all = tokens@.map_values(|t: &str| t@);
        let ghost vocabulary = self.vocabulary();
        let ghost strict = self.strict();
        let mut i: usize = 0;
        assert(all.skip(0) == all);
        while i < tokens.len()
            invariant
                i <= tokens@.len(),
                all == tokens@.map_values(|t: &str| t@),
                all == tokens_of(text@),
                self.vocabulary() == vocabulary,
                vocabulary == old(self).vocabulary(),
                self.strict() == strict,
                strict == old(self).strict(),
                run_tokens::<T, P>(vocabulary, strict, all, old(self).stack())
                    == run_tokens::<T, P>(vocabulary, strict, all.skip(i as int), self.stack()),
            decreases tokens@.len() - i,
        {
            let ghost rest = all.skip(i as int);
            assert(rest[0] == tokens@[i as int]@);
            assert(rest.drop_first() == all.skip(i + 1));
            let r = self.eval_token(tokens[i]);
            if r.is_err() {
                return r;
            }
            i = i + 1;
        }
        assert(all.skip(i as int).len() == 0);
        Ok(())
    }
}

impl<P> Word<P> {
    /// Runs this word against `interpreter`'s stack. A compound word runs its
    /// words in order and stops at the first underflow, keeping what the
    /// words before it did.
    pub fn eval_within<T>(&self, interpreter: &mut Interpreter<T, P>) -> (r: Result<(), EvalError>)
        where P: Operation<T>,
        ensures
            (final(interpreter).stack(), r) == word_result::<T, P>(*self, old(interpreter).stack()),
            final(interpreter).vocabulary() == old(interpreter).vocabulary(),
            final(interpreter).strict() == old(interpreter).strict(),
    {
        if self.run_on(&mut interpreter.data_stack) {
            Ok(())
        } else {
            Err(EvalError::StackUnderflow)
        }
    }
}

} // verus!
