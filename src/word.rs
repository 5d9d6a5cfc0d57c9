use std::rc::Rc;
use vstd::prelude::*;

verus! {

broadcast use vstd::std_specs::vec::group_vec_axioms;

/// A native operation on the data stack, supplied by the host.
///
/// `effect` is the operation's meaning: the stack it leaves, or `None` when
/// the stack holds too few values for it.
pub trait Operation<T>: Sized {
    spec fn effect(&self, stack: Seq<T>) -> Option<Seq<T>>;

    /// Applies the operation. On underflow it returns `false` and leaves the
    /// stack as it was.
    fn apply(&self, stack: &mut Vec<T>) -> (ok: bool)
        ensures
            match self.effect(old(stack)@) {
                Some(s) => ok && final(stack)@ == s,
                None => !ok && final(stack)@ == old(stack)@,
            },
    ;
}

/// An executable unit: a native operation, or an ordered list of shared
/// references to other words.
///
/// A word never changes once built, so a compound word holds only words that
/// existed before it: the words form no cycle, and running one always ends.
pub enum Word<P> {
    /// Runs the operation on the stack.
    Primitive(P),
    /// Runs each of these words in order.
    Compound(Vec<Rc<Word<P>>>),
}

/// What running a word on `stack` leaves: the resulting stack, and whether the
/// run completed (`false` on underflow). On underflow, the effects of the
/// sub-words that ran before the failing one stay in place.
pub open spec fn run_word<T, P: Operation<T>>(w: Word<P>, stack: Seq<T>) -> (Seq<T>, bool)
    decreases w, 0nat,
{
    match w {
        Word::Primitive(p) => match p.effect(stack) {
            Some(s) => (s, true),
            None => (stack, false),
        },
        Word::Compound(ws) => run_words::<T, P>(ws@, ws@.len(), stack),
    }
}

/// Running the first `n` words of `ws` in order, stopping at the first failure.
pub open spec fn run_words<T, P: Operation<T>>(ws: Seq<Rc<Word<P>>>, n: nat, stack: Seq<T>) -> (Seq<T>, bool)
    decreases ws, n,
{
    if n == 0 || n > ws.len() {
        (stack, true)
    } else {
        let (s, ok) = run_words::<T, P>(ws, (n - 1) as nat, stack);
        if ok {
            run_word::<T, P>(*ws[n - 1], s)
        } else {
            (s, false)
        }
    }
}

/// Once a run has failed, running further words changes nothing.
pub proof fn lemma_run_words_halts<T, P: Operation<T>>(ws: Seq<Rc<Word<P>>>, i: nat, n: nat, stack: Seq<T>)
    requires
        i <= n <= ws.len(),
        !run_words::<T, P>(ws, i, stack).1,
    ensures
        run_words::<T, P>(ws, n, stack) == run_words::<T, P>(ws, i, stack),
    decreases n - i,
{
    if i < n {
        lemma_run_words_halts::<T, P>(ws, i, (n - 1) as nat, stack);
    }
}

impl<P> Word<P> {
    /// Runs this word on `stack`.
    pub(crate) fn run_on<T>(&self, stack: &mut Vec<T>) -> (ok: bool)
        where P: Operation<T>,
        ensures
            (final(stack)@, ok) == run_word::<T, P>(*self, old(stack)@),
        decreases self,
    {
        match self {
            Word::Primitive(p) => p.apply(stack),
            Word::Compound(ws) => {
                let mut i: usize = 0;
                let mut ok = true;
                while i < ws.len() && ok
                    invariant
                        i <= ws@.len(),
                        *self == Word::<P>::Compound(*ws),
                        (stack@, ok) == run_words::<T, P>(ws@, i as nat, old(stack)@),
                    decreases ws@.len() - i,
                {
                    proof {
                        assert(decreases_to!(*self => self->Compound_0));
                        assert(decreases_to!(self->Compound_0 => ws[i as int]));
                    }
                    ok = ws[i].run_on(stack);
                    i = i + 1;
                }
                if !ok {
                    proof {
                        lemma_run_words_halts::<T, P>(ws@, i as nat, ws@.len(), old(stack)@);
                    }
                }
                ok
            },
        }
    }
}

} // verus!
