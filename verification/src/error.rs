//! Where the errors go that do not stop the work.

use vstd::prelude::*;

verus! {

/// A sink for the errors that come up while debug information is processed.
///
/// Processing does not stop at an error: a file with one bad reference may
/// still hold data that can be used. Each error is handed to the sink, and
/// the sink's owner decides what to do with it.
pub trait ErrorSink<E>: Sized {
    /// Whether the sink may be `after` when it has taken in `error`. Of a
    /// sink that does not say what it does with an error, nothing is known.
    open spec fn took(&self, error: E, after: &Self) -> bool {
        true
    }

    /// Takes in one error.
    fn raise_error(&mut self, error: E)
        ensures
            old(self).took(error, final(self)),
    ;
}

/// A vector keeps the errors that are raised, oldest first.
impl<E> ErrorSink<E> for Vec<E> {
    open spec fn took(&self, error: E, after: &Self) -> bool {
        after@ == self@.push(error)
    }

    fn raise_error(&mut self, error: E) {
        self.push(error);
    }
}

/// Hands each of the errors to the sink, in their order.
pub fn raise_all<E, S: ErrorSink<E>>(errors: Vec<E>, error_sink: &mut S)
    ensures
        took_all(*old(error_sink), errors@, *final(error_sink)),
{
    let ghost all = errors@;
    let ghost mut states: Seq<S> = seq![*error_sink];
    for error in it: errors
        invariant
            it.seq() == all,
            is_course(states, *old(error_sink), all.subrange(0, it.index() as int), *error_sink),
    {
        let ghost done = it.index() as int;
        error_sink.raise_error(error);
        proof {
            let before = states;
            states = states.push(*error_sink);
            assert(all.subrange(0, done + 1) =~= all.subrange(0, done).push(error));
            assert forall|i: int| 0 <= i <= done implies (#[trigger] states[i]).took(
                all.subrange(0, done + 1)[i],
                &states[i + 1],
            ) by {
                if i < done {
                    assert(states[i] == before[i]);
                    assert(states[i + 1] == before[i + 1]);
                    assert(before[i].took(all.subrange(0, done)[i], &before[i + 1]));
                }
            }
        }
    }
    assert(all.subrange(0, all.len() as int) =~= all);
}

/// Whether `states` are the states that a sink went through while it took
/// in the errors one after the other: it was `before`, each error was handed
/// to it as the one before had left it, and in the end it was `after`.
pub open spec fn is_course<E, S: ErrorSink<E>>(states: Seq<S>, before: S, errors: Seq<E>, after: S) -> bool {
    &&& states.len() == errors.len() + 1
    &&& states[0] == before
    &&& states[errors.len() as int] == after
    &&& forall|i: int|
        0 <= i < errors.len() ==> (#[trigger] states[i]).took(errors[i], &states[i + 1])
}

/// Whether the sink may be `after` when it has taken in the errors one
/// after the other, and nothing else.
pub open spec fn took_all<E, S: ErrorSink<E>>(before: S, errors: Seq<E>, after: S) -> bool {
    exists|states: Seq<S>| #[trigger] is_course(states, before, errors, after)
}

/// A vector that has taken in errors holds them behind those it held.
pub proof fn lemma_vec_took_all<E>(before: Vec<E>, errors: Seq<E>, after: Vec<E>)
    requires
        took_all(before, errors, after),
    ensures
        after@ == before@ + errors,
{
    let states = choose|states: Seq<Vec<E>>| #[trigger] is_course(states, before, errors, after);
    lemma_vec_course(states, before, errors, after, errors.len() as int);
    assert(errors.subrange(0, errors.len() as int) =~= errors);
}

/// A vector that takes in errors holds, after each, those that it has taken
/// in behind those it held.
pub proof fn lemma_vec_course<E>(
    states: Seq<Vec<E>>,
    before: Vec<E>,
    errors: Seq<E>,
    after: Vec<E>,
    n: int,
)
    requires
        is_course(states, before, errors, after),
        0 <= n <= errors.len(),
    ensures
        states[n]@ == before@ + errors.subrange(0, n),
    decreases n,
{
    if n == 0 {
        assert(before@ + errors.subrange(0, 0) =~= before@);
    } else {
        lemma_vec_course(states, before, errors, after, n - 1);
        assert(states[n - 1].took(errors[n - 1], &states[n]));
        assert(before@ + errors.subrange(0, n) =~= (before@ + errors.subrange(0, n - 1)).push(
            errors[n - 1],
        ));
    }
}

} // verus!
