//! What holds of the variable store and the executor over whole runs of a story.

use vstd::prelude::*;

use crate::executor::{apply_actions, first_open, is_open, lemma_first_open_valid, ExecutorState};
use crate::model::{Action, Prompt};
use crate::variables::read;

verus! {

broadcast use vstd::seq_lib::group_to_multiset_ensures;

/// A name that a store does not hold reads as 0.
pub proof fn lemma_unwritten_reads_zero(vars: Map<Seq<char>, i64>, name: Seq<char>)
    requires
        !vars.contains_key(name),
    ensures
        read(vars, name) == 0,
{
}

/// The value that action `a` leaves in a variable that held `acc`.
pub open spec fn action_outcome(acc: i64, a: Action) -> i64 {
    a.op.outcome(acc, a.value)
}

/// Running on a fresh store actions that all name one variable leaves that variable at the
/// left fold of their operations, starting from 0.
pub proof fn lemma_actions_fold(actions: Seq<Action>, name: Seq<char>)
    requires
        forall|i: int| 0 <= i < actions.len() ==> (#[trigger] actions[i]).name@ == name,
    ensures
        read(apply_actions(Map::empty(), actions), name) == actions.fold_left(
            0i64,
            |acc: i64, a: Action| action_outcome(acc, a),
        ),
    decreases actions.len(),
{
    if actions.len() > 0 {
        assert(actions.last() == actions[actions.len() - 1]);
        lemma_actions_fold(actions.drop_last(), name);
    }
}

/// `states` is a run of an executor: each state comes from the one before by selecting the
/// answer given in `choices`.
pub open spec fn is_run(states: Seq<ExecutorState>, choices: Seq<int>) -> bool {
    &&& states.len() >= 1
    &&& choices.len() + 1 == states.len()
    &&& forall|k: int|
        0 < k < states.len() ==> #[trigger] states[k - 1].selects(choices[k - 1], states[k])
}

/// Every state of a run is well formed and no earlier batch is ever returned to.
pub proof fn lemma_run_moves_forward(states: Seq<ExecutorState>, choices: Seq<int>, k: int)
    requires
        is_run(states, choices),
        states[0].wf(),
        0 <= k < states.len(),
    ensures
        states[k].wf(),
        states[k].batches.len() == states[0].batches.len(),
        forall|j: int| 0 <= j <= k ==> #[trigger] states[j].batch <= states[k].batch,
    decreases k,
{
    if k > 0 {
        lemma_run_moves_forward(states, choices, k - 1);
        let s = states[k - 1];
        assert(s.selects(choices[k - 1], states[k]));
        lemma_first_open_valid(states[k].batches, states[k].vars, s.batch, s.prompt + 1);
    }
}

/// Once the story is over it stays over: a finished state is the last of every run that holds
/// it, as no answer can be selected there.
pub proof fn lemma_finished_is_final(states: Seq<ExecutorState>, choices: Seq<int>, k: int)
    requires
        is_run(states, choices),
        states[0].wf(),
        0 <= k < states.len(),
        states[k].is_finished(),
    ensures
        k == states.len() - 1,
{
    if k < states.len() - 1 {
        assert(states[k + 1 - 1].selects(choices[k + 1 - 1], states[k + 1]));
    }
}

/// In a run through a batch shown in its authored order, the state after `k` answers
/// stands on prompt `k` of that batch, which is unchanged.
proof fn lemma_fixed_batch_prefix(states: Seq<ExecutorState>, choices: Seq<int>, b: int, k: int)
    requires
        is_run(states, choices),
        states[0].wf(),
        0 <= b < states[0].batches.len(),
        states[0].batch == b,
        states[0].prompt == 0,
        !states[0].batches[b].randomized,
        forall|j: int|
            0 <= j < states[0].batches[b].prompts@.len()
                ==> (#[trigger] states[0].batches[b].prompts@[j]).pre_condition is None,
        0 <= k < states.len(),
        k < states[0].batches[b].prompts@.len(),
    ensures
        states[k].batch == b,
        states[k].prompt == k,
        states[k].batches.len() == states[0].batches.len(),
        !states[k].batches[b].randomized,
        states[k].batches[b].prompts@ == states[0].batches[b].prompts@,
    decreases k,
{
    if k > 0 {
        lemma_fixed_batch_prefix(states, choices, b, k - 1);
        let s = states[k - 1];
        let t = states[k];
        assert(s.selects(choices[k - 1], t));
        assert(t.batches[b].prompts@ == s.batches[b].prompts@);
        assert(is_open(t.batches[b].prompts@[k], t.vars));
    }
}

/// A batch without pre-conditions that is not randomized is shown in its authored order: the
/// first answers of a run that starts on its first prompt visit each of its prompts once, in
/// order, and the answer given on its last prompt leaves the batch.
pub proof fn lemma_fixed_batch_in_order(states: Seq<ExecutorState>, choices: Seq<int>, b: int)
    requires
        is_run(states, choices),
        states[0].wf(),
        0 <= b < states[0].batches.len(),
        states[0].batch == b,
        states[0].prompt == 0,
        !states[0].batches[b].randomized,
        forall|j: int|
            0 <= j < states[0].batches[b].prompts@.len()
                ==> (#[trigger] states[0].batches[b].prompts@[j]).pre_condition is None,
    ensures
        forall|k: int|
            0 <= k < states.len() && k < states[0].batches[b].prompts@.len() ==> {
                &&& (#[trigger] states[k]).batch == b
                &&& states[k].prompt == k
                &&& states[k].current() == states[0].batches[b].prompts@[k]
            },
        states.len() > states[0].batches[b].prompts@.len() ==> states[states[0].batches[
            b
        ].prompts@.len() as int].batch > b,
{
    let n = states[0].batches[b].prompts@.len() as int;
    assert forall|k: int| 0 <= k < states.len() && k < n implies {
        &&& (#[trigger] states[k]).batch == b
        &&& states[k].prompt == k
        &&& states[k].current() == states[0].batches[b].prompts@[k]
    } by {
        lemma_fixed_batch_prefix(states, choices, b, k);
    }
    if states.len() > n {
        lemma_fixed_batch_prefix(states, choices, b, n - 1);
        let s = states[n - 1];
        let t = states[n];
        assert(s.selects(choices[n - 1], t));
        assert(t.batches[b].prompts@.len() == n);
        assert(first_open(t.batches, t.vars, b, n) == first_open(t.batches, t.vars, b + 1, 0));
        lemma_first_open_valid(t.batches, t.vars, b + 1, 0);
    }
}

/// The current prompts of the first `n` states of a run, in order.
pub open spec fn shown_prompts(states: Seq<ExecutorState>, n: int) -> Seq<Prompt> {
    Seq::new(n as nat, |k: int| states[k].current())
}

/// In a run through a randomized batch without pre-conditions, the state after `k` answers
/// stands on prompt `k` of the batch, whose first `k + 1` prompts are those shown so far and
/// whose prompts are those of the batch at the start.
proof fn lemma_random_batch_prefix(states: Seq<ExecutorState>, choices: Seq<int>, b: int, k: int)
    requires
        is_run(states, choices),
        states[0].wf(),
        0 <= b < states[0].batches.len(),
        states[0].batch == b,
        states[0].prompt == 0,
        forall|j: int|
            0 <= j < states[0].batches[b].prompts@.len()
                ==> (#[trigger] states[0].batches[b].prompts@[j]).pre_condition is None,
        0 <= k < states.len(),
        k < states[0].batches[b].prompts@.len(),
    ensures
        states[k].batch == b,
        states[k].prompt == k,
        states[k].batches.len() == states[0].batches.len(),
        states[k].batches[b].prompts@.to_multiset() == states[0].batches[b].prompts@.to_multiset(),
        states[k].batches[b].prompts@.len() == states[0].batches[b].prompts@.len(),
        forall|i: int| 0 <= i <= k ==> #[trigger] states[k].batches[b].prompts@[i] == states[i].current(),
    decreases k,
{
    let orig = states[0].batches[b].prompts@;
    if k > 0 {
        lemma_random_batch_prefix(states, choices, b, k - 1);
        let s = states[k - 1];
        let t = states[k];
        assert(s.selects(choices[k - 1], t));
        assert(t.batches[b].prompts@.to_multiset() == s.batches[b].prompts@.to_multiset());
        assert(t.batches[b].prompts@.len() == t.batches[b].prompts@.to_multiset().len());
        assert(orig.len() == orig.to_multiset().len());
        let x = t.batches[b].prompts@[k];
        assert(t.batches[b].prompts@.contains(x));
        assert(t.batches[b].prompts@.to_multiset().count(x) > 0);
        assert(orig.to_multiset().count(x) > 0);
        assert(orig.contains(x));
        let w = choose|w: int| 0 <= w < orig.len() && orig[w] == x;
        assert(orig[w].pre_condition is None);
        assert(is_open(x, t.vars));
        assert forall|i: int| 0 <= i <= k implies #[trigger] t.batches[b].prompts@[i]
            == states[i].current() by {
            if i < k {
                assert(t.batches[b].prompts@[i] == s.batches[b].prompts@[i]);
            }
        }
    } else {
        assert(states[0].current() == orig[0]);
    }
}

/// A randomized batch without pre-conditions is shown as a permutation of its prompts: in a
/// run that starts on its first prompt, the prompts shown by the first states are those of the
/// batch, each as often as it occurs there, and the answer given on the last one leaves the
/// batch.
pub proof fn lemma_random_batch_permutation(
    states: Seq<ExecutorState>,
    choices: Seq<int>,
    b: int,
)
    requires
        is_run(states, choices),
        states[0].wf(),
        0 <= b < states[0].batches.len(),
        states[0].batch == b,
        states[0].prompt == 0,
        forall|j: int|
            0 <= j < states[0].batches[b].prompts@.len()
                ==> (#[trigger] states[0].batches[b].prompts@[j]).pre_condition is None,
        states.len() > states[0].batches[b].prompts@.len(),
    ensures
        shown_prompts(states, states[0].batches[b].prompts@.len() as int).to_multiset()
            == states[0].batches[b].prompts@.to_multiset(),
        states[states[0].batches[b].prompts@.len() as int].batch > b,
{
    let orig = states[0].batches[b].prompts@;
    let n = orig.len() as int;
    lemma_random_batch_prefix(states, choices, b, n - 1);
    let s = states[n - 1];
    assert(s.batches[b].prompts@ =~= shown_prompts(states, n));
    let t = states[n];
    assert(s.selects(choices[n - 1], t));
    assert(t.batches[b].prompts@.len() == t.batches[b].prompts@.to_multiset().len());
    assert(s.batches[b].prompts@.len() == s.batches[b].prompts@.to_multiset().len());
    assert(first_open(t.batches, t.vars, b, n) == first_open(t.batches, t.vars, b + 1, 0));
    lemma_first_open_valid(t.batches, t.vars, b + 1, 0);
}

} // verus!
