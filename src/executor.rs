//! The story executor: the interpreter that tracks where the player is in the story, applies
//! the effects of the answers they choose, and decides which prompt comes next.

use rand::Rng;
use rand_xoshiro::Xoroshiro128StarStar;
use vstd::prelude::*;

use crate::model::{Action, Batch, Prompt, Story};
use crate::variables::{read, Variables};

verus! {

broadcast use vstd::seq_lib::group_to_multiset_ensures;

/// rand_xoshiro's `Xoroshiro128StarStar` generator, the random source of randomized batches.
/// Verus sees nothing inside it; its draws go through `draw_index`.
#[verifier::external_type_specification]
#[verifier::external_body]
pub struct ExXoroshiro128StarStar(Xoroshiro128StarStar);

/// Relies on rand's `Rng::gen_range` (rand 0.8): a value drawn uniformly from the half-open
/// range `low..high`. It panics on an empty range, which `requires` leaves out.
#[verifier::external_body]
fn draw_index(rng: &mut Xoroshiro128StarStar, low: usize, high: usize) -> (r: usize)
    requires
        low < high,
    ensures
        low <= r < high,
{
    rng.gen_range(low..high)
}

/// The store `vars` after running `actions` on it in order.
pub open spec fn apply_actions(vars: Map<Seq<char>, i64>, actions: Seq<Action>) -> Map<
    Seq<char>,
    i64,
>
    decreases actions.len(),
{
    if actions.len() == 0 {
        vars
    } else {
        let before = apply_actions(vars, actions.drop_last());
        let a = actions.last();
        before.insert(a.name@, a.op.outcome(read(before, a.name@), a.value))
    }
}

/// Whether prompt `p` may be shown under `vars`: it has no pre-condition, or the
/// pre-condition holds of the variable it names.
pub open spec fn is_open(p: Prompt, vars: Map<Seq<char>, i64>) -> bool {
    match p.pre_condition {
        None => true,
        Some(c) => c.op.holds(read(vars, c.name@), c.value),
    }
}

/// The first position at or after prompt `p` of batch `b`, in reading order, whose prompt is
/// open under `vars`; `(batches.len(), 0)` when there is none, the end of the story.
pub open spec fn first_open(batches: Seq<Batch>, vars: Map<Seq<char>, i64>, b: int, p: int) -> (
    int,
    int,
)
    decreases batches.len() - b, (if 0 <= b < batches.len() {
        batches[b].prompts@.len() - p
    } else {
        0
    }),
{
    if b < 0 || b >= batches.len() {
        (batches.len() as int, 0)
    } else if p >= batches[b].prompts@.len() {
        first_open(batches, vars, b + 1, 0)
    } else if is_open(batches[b].prompts@[p], vars) {
        (b, p)
    } else {
        first_open(batches, vars, b, p + 1)
    }
}

/// The first batch at or after `b` that holds a prompt; `batches.len()` when there is none.
pub open spec fn first_filled(batches: Seq<Batch>, b: int) -> int
    decreases batches.len() - b,
{
    if b < 0 || b >= batches.len() {
        batches.len() as int
    } else if batches[b].prompts@.len() > 0 {
        b
    } else {
        first_filled(batches, b + 1)
    }
}

/// `after` holds the batches of `before`, where only randomized batches may be reordered, and
/// only at positions after prompt `p` of batch `b`: what was passed stays where it was.
pub open spec fn reorders(before: Seq<Batch>, after: Seq<Batch>, b: int, p: int) -> bool {
    &&& after.len() == before.len()
    &&& forall|i: int|
        0 <= i < before.len() ==> #[trigger] after[i].randomized == before[i].randomized
    &&& forall|i: int|
        0 <= i < before.len() ==> #[trigger] after[i].prompts@.to_multiset()
            == before[i].prompts@.to_multiset()
    &&& forall|i: int|
        0 <= i < before.len() && !before[i].randomized ==> #[trigger] after[i].prompts@
            == before[i].prompts@
    &&& forall|i: int| 0 <= i < b && i < before.len() ==> #[trigger] after[i].prompts@ == before[i].prompts@
    &&& 0 <= b < before.len() ==> forall|j: int|
        0 <= j <= p && j < before[b].prompts@.len() ==> #[trigger] after[b].prompts@[j]
            == before[b].prompts@[j]
}

/// What a story executor holds: the batches in their current order, the position of the
/// current prompt (batch index, then prompt index), and the story variables.
pub struct ExecutorState {
    /// The batches, with the prompts of randomized batches in the order drawn so far.
    pub batches: Seq<Batch>,
    /// The index of the current batch.
    pub batch: int,
    /// The index of the current prompt within the current batch.
    pub prompt: int,
    /// The story variables, by name.
    pub vars: Map<Seq<char>, i64>,
}

impl ExecutorState {
    /// Whether every batch has been passed: the story is over.
    pub open spec fn is_finished(self) -> bool {
        self.batch >= self.batches.len()
    }

    /// The position names a prompt, or is the end of the story, `(batches.len(), 0)`.
    pub open spec fn wf(self) -> bool {
        &&& 0 <= self.batch <= self.batches.len()
        &&& 0 <= self.prompt
        &&& self.batch < self.batches.len() ==> self.prompt < self.batches[self.batch].prompts@.len()
        &&& self.batch == self.batches.len() ==> self.prompt == 0
    }

    /// The prompt at the current position.
    pub open spec fn current(self) -> Prompt {
        self.batches[self.batch].prompts@[self.prompt]
    }

    /// Whether choosing answer `choice` of the current prompt may lead from `self` to `next`:
    /// the answer's actions run on the variables; randomized batches may be reordered past the
    /// current prompt; the new position is the first open prompt after the current one in the
    /// new order; and the batches past the new position are untouched.
    pub open spec fn selects(self, choice: int, next: ExecutorState) -> bool {
        &&& self.wf()
        &&& !self.is_finished()
        &&& 0 <= choice < self.current().answers@.len()
        &&& next.vars == apply_actions(self.vars, self.current().answers@[choice].actions@)
        &&& reorders(self.batches, next.batches, self.batch, self.prompt)
        &&& (next.batch, next.prompt) == first_open(
            next.batches,
            next.vars,
            self.batch,
            self.prompt + 1,
        )
        &&& forall|i: int|
            next.batch < i < self.batches.len() ==> #[trigger] next.batches[i].prompts@
                == self.batches[i].prompts@
    }
}

/// Replacing one element of a sequence swaps it for the new one in the multiset of elements.
proof fn lemma_update_multiset<T>(s: Seq<T>, i: int, x: T)
    requires
        0 <= i < s.len(),
    ensures
        s.update(i, x).to_multiset() == s.to_multiset().remove(s[i]).insert(x),
{
    let t = s.update(i, x);
    assert(t.remove(i) =~= s.remove(i));
    assert(t[i] == x);
    assert(t.contains(x));
    assert(t.to_multiset() =~= s.to_multiset().remove(s[i]).insert(x));
}

/// Swapping two elements keeps the multiset of elements.
proof fn lemma_swap_multiset<T>(s: Seq<T>, i: int, j: int)
    requires
        0 <= i < s.len(),
        0 <= j < s.len(),
    ensures
        s.update(i, s[j]).update(j, s[i]).to_multiset() == s.to_multiset(),
{
    let u = s.update(i, s[j]);
    lemma_update_multiset(s, i, s[j]);
    lemma_update_multiset(u, j, s[i]);
    assert(s.contains(s[i]));
    assert(u.update(j, s[i]).to_multiset() =~= s.to_multiset());
}

/// Swaps the elements at `i` and `j` of `v`.
fn swap_items<T>(v: &mut Vec<T>, i: usize, j: usize)
    requires
        i <= j < old(v)@.len(),
    ensures
        final(v)@ == old(v)@.update(i as int, old(v)@[j as int]).update(j as int, old(v)@[i as int]),
{
    if i < j {
        let mut held = v.remove(j);
        v.set_and_swap(i, &mut held);
        v.insert(j, held);
        assert(v@ =~= old(v)@.update(i as int, old(v)@[j as int]).update(j as int, old(v)@[i as int]));
    } else {
        assert(v@ =~= old(v)@.update(i as int, old(v)@[j as int]).update(j as int, old(v)@[i as int]));
    }
}

/// Runs `actions` on `vars`, in order.
fn run_actions(vars: &mut Variables, actions: &Vec<Action>)
    ensures
        final(vars)@ == apply_actions(old(vars)@, actions@),
{
    let mut i: usize = 0;
    while i < actions.len()
        invariant
            i <= actions@.len(),
            vars@ == apply_actions(old(vars)@, actions@.take(i as int)),
        decreases actions@.len() - i,
    {
        let action = &actions[i];
        let value = vars.get_mut(action.name.as_str());
        action.op.execute(value, action.value);
        assert(actions@.take(i + 1).drop_last() =~= actions@.take(i as int));
        i = i + 1;
    }
    assert(actions@.take(i as int) =~= actions@);
}

/// Whether `prompt` may be shown under the variables `vars`.
fn prompt_is_open(prompt: &Prompt, vars: &Variables) -> (r: bool)
    ensures
        r == is_open(*prompt, vars@),
{
    match &prompt.pre_condition {
        None => true,
        Some(c) => c.op.check(vars.get(c.name.as_str()), c.value),
    }
}


/// The scan for an open prompt passes over positions whose prompts are all closed.
proof fn lemma_first_open_skips(
    batches: Seq<Batch>,
    vars: Map<Seq<char>, i64>,
    sb: int,
    sp: int,
    cb: int,
    cp: int,
)
    requires
        0 <= sb <= cb <= batches.len(),
        0 <= sp,
        0 <= cp,
        sb == cb ==> sp <= cp,
        sb < batches.len() ==> sp <= batches[sb].prompts@.len(),
        cb < batches.len() ==> cp <= batches[cb].prompts@.len(),
        forall|i: int, j: int|
            sb <= i <= cb && i < batches.len() && 0 <= j < batches[i].prompts@.len() && (i == sb
                ==> j >= sp) && (i == cb ==> j < cp) ==> !is_open(
                #[trigger] batches[i].prompts@[j],
                vars,
            ),
    ensures
        first_open(batches, vars, sb, sp) == first_open(batches, vars, cb, cp),
    decreases batches.len() - sb, (if sb < batches.len() {
        batches[sb].prompts@.len() - sp
    } else {
        0
    }),
{
    if sb == cb && sp == cp {
    } else if sb >= batches.len() {
    } else if sp >= batches[sb].prompts@.len() {
        lemma_first_open_skips(batches, vars, sb + 1, 0, cb, cp);
    } else {
        assert(!is_open(batches[sb].prompts@[sp], vars));
        lemma_first_open_skips(batches, vars, sb, sp + 1, cb, cp);
    }
}

/// The scan ends on an open prompt at or after where it starts, or at the end of the story.
pub proof fn lemma_first_open_valid(batches: Seq<Batch>, vars: Map<Seq<char>, i64>, b: int, p: int)
    requires
        0 <= b,
        0 <= p,
    ensures
        ({
            let (nb, np) = first_open(batches, vars, b, p);
            &&& (nb == batches.len() && np == 0) || (0 <= nb < batches.len() && 0 <= np
                < batches[nb].prompts@.len() && is_open(batches[nb].prompts@[np], vars))
            &&& b <= batches.len() ==> b <= nb
            &&& nb == b && b < batches.len() ==> p <= np
        }),
    decreases batches.len() - b, (if b < batches.len() {
        batches[b].prompts@.len() - p
    } else {
        0
    }),
{
    if b >= batches.len() {
    } else if p >= batches[b].prompts@.len() {
        lemma_first_open_valid(batches, vars, b + 1, 0);
    } else if is_open(batches[b].prompts@[p], vars) {
    } else {
        lemma_first_open_valid(batches, vars, b, p + 1);
    }
}

/// A **resource** that's responsible for executing the story's logic.
pub struct StoryExecutor {
    story: Story,
    current_batch: usize,
    current_prompt: usize,
    variables: Variables,
}

impl View for StoryExecutor {
    type V = ExecutorState;

    closed spec fn view(&self) -> ExecutorState {
        ExecutorState {
            batches: self.story.batches@,
            batch: self.current_batch as int,
            prompt: self.current_prompt as int,
            vars: self.variables@,
        }
    }
}

impl StoryExecutor {
    /// Starts a story: runs its actions on empty variables, then stands on the first prompt
    /// of the first batch that holds one (the first prompt of the story).
    pub fn new(story: Story) -> (r: StoryExecutor)
        ensures
            r@ == (ExecutorState {
                batches: story.batches@,
                batch: first_filled(story.batches@, 0),
                prompt: 0,
                vars: apply_actions(Map::empty(), story.actions@),
            }),
            r@.wf(),
    {
        let mut variables = Variables::default();
        run_actions(&mut variables, &story.actions);
        let mut b: usize = 0;
        while b < story.batches.len() && story.batches[b].prompts.len() == 0
            invariant
                b <= story.batches@.len(),
                first_filled(story.batches@, 0) == first_filled(story.batches@, b as int),
            decreases story.batches@.len() - b,
        {
            b = b + 1;
        }
        StoryExecutor { story, current_batch: b, current_prompt: 0, variables }
    }

    /// Gets the current prompt, or `None` once the story is over.
    pub fn get_current_prompt(&self) -> (r: Option<&Prompt>)
        requires
            self@.wf(),
        ensures
            r is None <==> self@.is_finished(),
            r matches Some(p) ==> *p == self@.current(),
    {
        if self.current_batch >= self.story.batches.len() {
            None
        } else {
            Some(&self.story.batches[self.current_batch].prompts[self.current_prompt])
        }
    }

    /// Selects answer `choice` of the current prompt: runs its actions, then moves to the next
    /// prompt whose pre-condition holds, skipping the others and the exhausted batches. In a
    /// randomized batch, each position is filled, as it is reached, by a prompt drawn from
    /// those not passed yet. Returns the new current prompt, or `None` once the story is over.
    pub fn select_answer(&mut self, choice: usize, rng: &mut Xoroshiro128StarStar) -> (r: Option<
        &Prompt,
    >)
        requires
            old(self)@.wf(),
            !old(self)@.is_finished(),
            choice < old(self)@.current().answers@.len(),
        ensures
            old(self)@.selects(choice as int, final(self)@),
            final(self)@.wf(),
            r is None <==> final(self)@.is_finished(),
            r matches Some(p) ==> *p == final(self)@.current(),
    {
        let ob = self.current_batch;
        let op = self.current_prompt;
        run_actions(&mut self.variables, &self.story.batches[ob].prompts[op].answers[choice].actions);
        let ghost vars = self.variables@;
        let ghost start = self.story.batches@;
        let n = self.story.batches[ob].prompts.len();
        assert(op < n);
        self.current_prompt = op + 1;
        loop
            invariant
                self.variables@ == vars,
                start == old(self).story.batches@,
                reorders(start, self.story.batches@, ob as int, op as int),
                forall|i: int|
                    0 <= i < start.len() ==> #[trigger] self.story.batches@[i].prompts@.len()
                        == start[i].prompts@.len(),
                forall|i: int|
                    self.current_batch < i < start.len() ==> #[trigger] self.story.batches@[i].prompts@
                        == start[i].prompts@,
                ob <= self.current_batch <= start.len(),
                self.current_batch == ob ==> op < self.current_prompt,
                self.current_batch < start.len() ==> self.current_prompt
                    <= self.story.batches@[self.current_batch as int].prompts@.len(),
                self.current_batch == start.len() ==> self.current_prompt == 0,
                forall|i: int, j: int|
                    ob <= i <= self.current_batch && i < start.len() && 0 <= j
                        < self.story.batches@[i].prompts@.len() && (i == ob ==> j >= op + 1) && (i
                        == self.current_batch ==> j < self.current_prompt) ==> !is_open(
                        #[trigger] self.story.batches@[i].prompts@[j],
                        vars,
                    ),
            ensures
                self.current_batch == start.len() || (self.current_batch < start.len()
                    && self.current_prompt < self.story.batches@[self.current_batch as int].prompts@.len()
                    && is_open(
                    self.story.batches@[self.current_batch as int].prompts@[self.current_prompt as int],
                    vars,
                )),
            decreases start.len() - self.current_batch, (if self.current_batch < start.len() {
                self.story.batches@[self.current_batch as int].prompts@.len() - self.current_prompt
            } else {
                0
            }),
        {
            let b = self.current_batch;
            if b >= self.story.batches.len() {
                break ;
            }
            let len = self.story.batches[b].prompts.len();
            if self.current_prompt >= len {
                self.current_batch = b + 1;
                self.current_prompt = 0;
                continue ;
            }
            if self.story.batches[b].randomized {
                let p = self.current_prompt;
                let j = draw_index(rng, p, len);
                let ghost before = self.story.batches@[b as int].prompts@;
                let batch = &mut self.story.batches[b];
                swap_items(&mut batch.prompts, p, j);
                proof {
                    lemma_swap_multiset(before, p as int, j as int);
                }
            }
            if prompt_is_open(&self.story.batches[b].prompts[self.current_prompt], &self.variables) {
                break ;
            }
            self.current_prompt = self.current_prompt + 1;
        }
        proof {
            lemma_first_open_skips(
                self.story.batches@,
                vars,
                ob as int,
                op + 1,
                self.current_batch as int,
                self.current_prompt as int,
            );
        }
        self.get_current_prompt()
    }

    /// The index of the current batch; the number of batches once the story is over.
    pub fn current_batch(&self) -> (r: usize)
        ensures
            r == self@.batch,
    {
        self.current_batch
    }

    /// The index of the current prompt within the current batch.
    pub fn current_prompt(&self) -> (r: usize)
        ensures
            r == self@.prompt,
    {
        self.current_prompt
    }

    /// Gets a shared reference to the variables of this script.
    pub fn variables(&self) -> (r: &Variables)
        ensures
            r@ == self@.vars,
    {
        &self.variables
    }

    /// Returns an exclusive reference to the variables of this script. Changing them moves
    /// nothing else.
    pub fn variables_mut(&mut self) -> (r: &mut Variables)
        ensures
            r@ == old(self)@.vars,
            final(self)@ == (ExecutorState { vars: final(r)@, ..old(self)@ }),
    {
        &mut self.variables
    }
}

} // verus!
