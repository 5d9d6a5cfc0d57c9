use std::rc::Rc;
use vstd::prelude::*;

use crate::interpreter::{popped, run_token, word_result};
use crate::literal::Literal;
use crate::word::{Operation, Word};

verus! {

/// The stack after pushing the values of `vs` onto `stack`, first to last.
pub open spec fn pushed_all<T>(stack: Seq<T>, vs: Seq<T>) -> Seq<T>
    decreases vs.len(),
{
    if vs.len() == 0 {
        stack
    } else {
        pushed_all(stack, vs.drop_last()).push(vs.last())
    }
}

/// Popping `n` times: the stack left, and what each pop returned, in order.
pub open spec fn popped_times<T>(stack: Seq<T>, n: nat) -> (Seq<T>, Seq<Option<T>>)
    decreases n,
{
    if n == 0 {
        (stack, Seq::empty())
    } else {
        let (rest, top) = popped(stack);
        let (left, more) = popped_times(rest, (n - 1) as nat);
        (left, seq![top] + more)
    }
}

proof fn lemma_pushed_all_appends<T>(stack: Seq<T>, vs: Seq<T>)
    ensures
        pushed_all(stack, vs) == stack + vs,
    decreases vs.len(),
{
    if vs.len() > 0 {
        lemma_pushed_all_appends(stack, vs.drop_last());
        assert(stack + vs.drop_last() + seq![vs.last()] == stack + vs);
    }
}

proof fn lemma_pops_after_append<T>(stack: Seq<T>, vs: Seq<T>)
    ensures
        popped_times(stack + vs, vs.len()) == (
        stack,
        Seq::new(vs.len(), |i: int| Some(vs[vs.len() - 1 - i])),
        ),
    decreases vs.len(),
{
    let n = vs.len();
    if n == 0 {
        assert(stack + vs == stack);
        assert(Seq::new(0, |i: int| Some(vs[n - 1 - i])) == Seq::<Option<T>>::empty());
    } else {
        let init = vs.drop_last();
        lemma_pops_after_append(stack, init);
        assert((stack + vs).drop_last() == stack + init);
        let tail = Seq::new(init.len(), |i: int| Some(init[init.len() - 1 - i]));
        assert(seq![Some(vs.last())] + tail == Seq::new(n, |i: int| Some(vs[n - 1 - i])));
    }
}

/// Pushing `v1 .. vn` onto any stack and then popping `n` times returns
/// `vn, .., v1` and leaves the stack as it was; on a stack that started empty,
/// one more pop returns `None`.
pub proof fn law_pops_reverse_pushes<T>(stack: Seq<T>, vs: Seq<T>)
    ensures
        popped_times(pushed_all(stack, vs), vs.len()) == (
        stack,
        Seq::new(vs.len(), |i: int| Some(vs[vs.len() - 1 - i])),
        ),
        stack.len() == 0 ==> popped_times(pushed_all(stack, vs), vs.len() + 1).1 == Seq::new(
            vs.len(),
            |i: int| Some(vs[vs.len() - 1 - i]),
        ).push(None),
{
    lemma_pushed_all_appends(stack, vs);
    lemma_pops_after_append(stack, vs);
    if stack.len() == 0 {
        lemma_pops_once_more(pushed_all(stack, vs), vs.len());
        assert(popped_times(stack, 0).1 == Seq::<Option<T>>::empty());
        assert(seq![None::<T>] + Seq::<Option<T>>::empty() == seq![None::<T>]);
        assert(popped_times(stack, 1).1 == seq![None::<T>]);
    }
}

proof fn lemma_pops_once_more<T>(stack: Seq<T>, n: nat)
    ensures
        popped_times(stack, n + 1) == (
        popped_times(popped_times(stack, n).0, 1).0,
        popped_times(stack, n).1 + popped_times(popped_times(stack, n).0, 1).1,
        ),
    decreases n,
{
    if n > 0 {
        lemma_pops_once_more(popped(stack).0, (n - 1) as nat);
        let (rest, top) = popped(stack);
        let a = popped_times(rest, (n - 1) as nat).1;
        let b = popped_times(popped_times(rest, (n - 1) as nat).0, 1).1;
        assert(seq![top] + (a + b) == (seq![top] + a) + b);
    } else {
        assert(Seq::<Option<T>>::empty() + popped_times(stack, 1).1 == popped_times(stack, 1).1);
    }
}

/// Popping an empty stack, such as a new interpreter's, returns `None` and
/// leaves the stack empty.
pub proof fn law_empty_pops_none<T>()
    ensures
        popped(Seq::<T>::empty()) == (Seq::<T>::empty(), None::<T>),
{
}

/// Binding `name` to `word` and then evaluating the token `name` does what
/// evaluating `word` directly does, whenever `name` is no literal.
pub proof fn law_defined_name_runs_word<T: Literal, P: Operation<T>>(
    vocabulary: Map<Seq<char>, Rc<Word<P>>>,
    strict: bool,
    name: Seq<char>,
    word: Rc<Word<P>>,
    stack: Seq<T>,
)
    requires
        T::literal(name) is None,
    ensures
        run_token::<T, P>(vocabulary.insert(name, word), strict, name, stack) == word_result::<
            T,
            P,
        >(*word, stack),
{
}

/// Rebinding `name` leaves alone what any other bound name does, compound
/// words built from the earlier binding of `name` included: they hold that
/// word itself, not its name.
pub proof fn law_rebinding_keeps_other_words<T: Literal, P: Operation<T>>(
    vocabulary: Map<Seq<char>, Rc<Word<P>>>,
    strict: bool,
    name: Seq<char>,
    word: Rc<Word<P>>,
    other: Seq<char>,
    stack: Seq<T>,
)
    requires
        other != name,
    ensures
        run_token::<T, P>(vocabulary.insert(name, word), strict, other, stack) == run_token::<
            T,
            P,
        >(vocabulary, strict, other, stack),
{
    assert(vocabulary.insert(name, word).contains_key(other) == vocabulary.contains_key(other));
}

} // verus!
