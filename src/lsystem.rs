use vstd::prelude::*;
use crate::draws::{DrawSource, RandomDraws};
use crate::grammar::{
    apply_upto, choices_follow, det_generation, draws_for, lemma_rewrite_replay,
    lemma_rewrites_by_len, rewrites_by,
    valid_choices, deterministic, lemma_deterministic_rewrite, rewrite, rewrites_to, table_wf,
    RuleTable,
};
use crate::config::Rule;

verus! {

/// Seed of the generator that `LSystem::get_step` falls back on when the
/// operating system supplies no entropy.
pub const FALLBACK_SEED: u64 = 0;

/// A rewriting system with the generations it has computed so far.
pub struct LSystem {
    start: String,
    rules: RuleTable,
    steps: Vec<String>,
}

/// The mathematical content of an `LSystem`.
pub ghost struct LSystemView {
    /// Generation 0.
    pub start: Seq<char>,
    /// The rules, symbol by symbol.
    pub rules: Seq<(char, Vec<Rule>)>,
    /// Generations 1, 2, ... computed so far, in order.
    pub steps: Seq<Seq<char>>,
}

impl LSystemView {
    /// Generation `n`, for `n` up to the number of cached generations.
    pub open spec fn generation(self, n: nat) -> Seq<char> {
        if n == 0 {
            self.start
        } else {
            self.steps[n - 1]
        }
    }

    /// Every cached generation is one rewriting step of the one before it.
    pub open spec fn wf(self) -> bool {
        &&& table_wf(self.rules)
        &&& forall|i: nat|
            1 <= i <= self.steps.len() ==> rewrites_to(
                self.rules,
                self.generation((i - 1) as nat),
                #[trigger] self.generation(i),
            )
    }

    /// `after` answers a request for generation `n` on `before` with `r`:
    /// rules and start kept, the cache extended up to `n` and never
    /// altered below, and nothing done when `n` was already there.
    pub open spec fn serves(before: LSystemView, after: LSystemView, n: nat, r: Seq<char>) -> bool {
        &&& after.start == before.start
        &&& after.rules == before.rules
        &&& after.steps.len() == if n > before.steps.len() {
            n
        } else {
            before.steps.len()
        }
        &&& after.steps.take(before.steps.len() as int) == before.steps
        &&& n <= before.steps.len() ==> after == before
        &&& r == after.generation(n)
    }
}

/// Generation `i` of a run that starts from `g0` and produces `steps`.
pub open spec fn gen_in_run(g0: Seq<char>, steps: Seq<Seq<char>>, i: int) -> Seq<char> {
    if i <= 0 {
        g0
    } else {
        steps[i - 1]
    }
}

/// The number of draws that the first `k` steps of such a run take.
pub open spec fn used(table: Seq<(char, Vec<Rule>)>, g0: Seq<char>, steps: Seq<Seq<char>>, k: int) -> nat
    decreases k,
{
    if k <= 0 {
        0
    } else {
        let g = gen_in_run(g0, steps, k - 1);
        used(table, g0, steps, k - 1) + draws_for(table, g, g.len() as int)
    }
}

/// `steps` are made from `g0` one rewriting step at a time, step `i` being the
/// rewriting that the next draws of `ds` make; `ds` is exactly the draws
/// taken.
#[verifier::opaque]
pub open spec fn chain_by(
    table: Seq<(char, Vec<Rule>)>,
    g0: Seq<char>,
    steps: Seq<Seq<char>>,
    ds: Seq<u32>,
) -> bool {
    &&& ds.len() == used(table, g0, steps, steps.len() as int)
    &&& forall|i: int|
        0 <= i < steps.len() ==> rewrites_by(
            table,
            gen_in_run(g0, steps, i),
            ds.subrange(used(table, g0, steps, i) as int, used(table, g0, steps, i + 1) as int),
            #[trigger] steps[i],
        )
}

proof fn lemma_used_monotone(
    table: Seq<(char, Vec<Rule>)>,
    g0: Seq<char>,
    steps: Seq<Seq<char>>,
    j: int,
    k: int,
)
    requires
        0 <= j <= k,
    ensures
        used(table, g0, steps, j) <= used(table, g0, steps, k),
    decreases k - j,
{
    if j < k {
        lemma_used_monotone(table, g0, steps, j, k - 1);
    }
}

proof fn lemma_used_agree(
    table: Seq<(char, Vec<Rule>)>,
    g0: Seq<char>,
    st1: Seq<Seq<char>>,
    st2: Seq<Seq<char>>,
    k: int,
)
    requires
        k - 1 <= st1.len(),
        k - 1 <= st2.len(),
        forall|i: int| 0 <= i < k - 1 ==> st1[i] == st2[i],
    ensures
        used(table, g0, st1, k) == used(table, g0, st2, k),
    decreases k,
{
    if k > 0 {
        lemma_used_agree(table, g0, st1, st2, k - 1);
        if k >= 2 {
            assert(st1[k - 2] == st2[k - 2]);
        }
        assert(gen_in_run(g0, st1, k - 1) == gen_in_run(g0, st2, k - 1));
    }
}

proof fn lemma_chain_step(
    table: Seq<(char, Vec<Rule>)>,
    g0: Seq<char>,
    st: Seq<Seq<char>>,
    ds: Seq<u32>,
    j: int,
)
    requires
        chain_by(table, g0, st, ds),
        0 <= j < st.len(),
    ensures
        rewrites_by(
            table,
            gen_in_run(g0, st, j),
            ds.subrange(used(table, g0, st, j) as int, used(table, g0, st, j + 1) as int),
            st[j],
        ),
{
    reveal(chain_by);
}

proof fn lemma_chain_empty(table: Seq<(char, Vec<Rule>)>, g0: Seq<char>)
    ensures
        chain_by(table, g0, Seq::empty(), Seq::empty()),
{
    reveal(chain_by);
}

proof fn lemma_chain_push_earlier(
    table: Seq<(char, Vec<Rule>)>,
    g0: Seq<char>,
    st: Seq<Seq<char>>,
    ds: Seq<u32>,
    more: Seq<u32>,
    next: Seq<char>,
    i: int,
)
    requires
        chain_by(table, g0, st, ds),
        0 <= i < st.len(),
    ensures
        rewrites_by(
            table,
            gen_in_run(g0, st.push(next), i),
            (ds + more).subrange(
                used(table, g0, st.push(next), i) as int,
                used(table, g0, st.push(next), i + 1) as int,
            ),
            st.push(next)[i],
        ),
{
    let n = st.len() as int;
    let st2 = st.push(next);
    lemma_chain_step(table, g0, st, ds, i);
    lemma_used_agree(table, g0, st, st2, i);
    lemma_used_agree(table, g0, st, st2, i + 1);
    lemma_used_monotone(table, g0, st, i + 1, n);
    reveal(chain_by);
    assert(gen_in_run(g0, st2, i) == gen_in_run(g0, st, i));
    assert((ds + more).subrange(used(table, g0, st, i) as int, used(table, g0, st, i + 1) as int)
        =~= ds.subrange(used(table, g0, st, i) as int, used(table, g0, st, i + 1) as int));
}

proof fn lemma_chain_push(
    table: Seq<(char, Vec<Rule>)>,
    g0: Seq<char>,
    st: Seq<Seq<char>>,
    ds: Seq<u32>,
    more: Seq<u32>,
    next: Seq<char>,
)
    requires
        chain_by(table, g0, st, ds),
        rewrites_by(table, gen_in_run(g0, st, st.len() as int), more, next),
    ensures
        chain_by(table, g0, st.push(next), ds + more),
{
    let n = st.len() as int;
    let st2 = st.push(next);
    let ds2 = ds + more;
    let g = gen_in_run(g0, st, n);
    lemma_rewrites_by_len(table, g, more, next);
    assert(gen_in_run(g0, st2, n) == g);
    lemma_used_agree(table, g0, st, st2, n);
    lemma_used_agree(table, g0, st, st2, n + 1);
    assert(ds.len() == used(table, g0, st, n)) by {
        reveal(chain_by);
    }
    assert(used(table, g0, st2, n + 1) == ds2.len());
    assert(ds2.subrange(used(table, g0, st2, n) as int, used(table, g0, st2, n + 1) as int)
        =~= more);
    assert forall|i: int| 0 <= i < st2.len() implies rewrites_by(
        table,
        gen_in_run(g0, st2, i),
        ds2.subrange(used(table, g0, st2, i) as int, used(table, g0, st2, i + 1) as int),
        #[trigger] st2[i],
    ) by {
        if i < n {
            lemma_chain_push_earlier(table, g0, st, ds, more, next, i);
        }
    }
    reveal(chain_by);
}

proof fn lemma_chain_replay_upto(
    table: Seq<(char, Vec<Rule>)>,
    g0: Seq<char>,
    st1: Seq<Seq<char>>,
    st2: Seq<Seq<char>>,
    ds: Seq<u32>,
    k: int,
)
    requires
        chain_by(table, g0, st1, ds),
        chain_by(table, g0, st2, ds),
        st1.len() == st2.len(),
        0 <= k <= st1.len(),
    ensures
        forall|i: int| 0 <= i < k ==> st1[i] == st2[i],
    decreases k,
{
    if k > 0 {
        let j = k - 1;
        lemma_chain_replay_upto(table, g0, st1, st2, ds, j);
        lemma_used_agree(table, g0, st1, st2, j);
        lemma_used_agree(table, g0, st1, st2, j + 1);
        assert(gen_in_run(g0, st1, j) == gen_in_run(g0, st2, j));
        lemma_chain_step(table, g0, st1, ds, j);
        lemma_chain_step(table, g0, st2, ds, j);
        let chunk = ds.subrange(used(table, g0, st1, j) as int, used(table, g0, st1, j + 1) as int);
        lemma_rewrite_replay(table, gen_in_run(g0, st1, j), chunk, st1[j], st2[j]);
    }
}

/// Runs from the same generation that take the same draws produce the same
/// generations.
pub proof fn lemma_chain_replay(
    table: Seq<(char, Vec<Rule>)>,
    g0: Seq<char>,
    st1: Seq<Seq<char>>,
    st2: Seq<Seq<char>>,
    ds: Seq<u32>,
)
    requires
        chain_by(table, g0, st1, ds),
        chain_by(table, g0, st2, ds),
        st1.len() == st2.len(),
    ensures
        st1 == st2,
{
    lemma_chain_replay_upto(table, g0, st1, st2, ds, st1.len() as int);
    assert(st1 =~= st2);
}

impl View for LSystem {
    type V = LSystemView;

    closed spec fn view(&self) -> LSystemView {
        LSystemView {
            start: self.start@,
            rules: self.rules@,
            steps: self.steps@.map_values(|s: String| s@),
        }
    }
}

impl LSystem {
    /// A system with generation 0 `start` and nothing cached.
    pub fn new(start: String, rules: RuleTable) -> (r: LSystem)
        requires
            table_wf(rules@),
        ensures
            r@.start == start@,
            r@.rules == rules@,
            r@.steps.len() == 0,
            r@.wf(),
    {
        LSystem { start, rules, steps: Vec::new() }
    }

    /// Appends `nbr_of_step` generations to the cache, each one rewriting step
    /// of the last.
    #[verifier::rlimit(50)]
    fn generate<S: DrawSource>(&mut self, nbr_of_step: usize, src: &mut S)
        requires
            old(self)@.wf(),
            old(self)@.steps.len() + nbr_of_step <= usize::MAX,
        ensures
            final(self)@.wf(),
            final(self)@.start == old(self)@.start,
            final(self)@.rules == old(self)@.rules,
            final(self)@.steps.len() == old(self)@.steps.len() + nbr_of_step,
            final(self)@.steps.take(old(self)@.steps.len() as int) == old(self)@.steps,
            deterministic(old(self)@.rules) ==> *final(src) == *old(src),
            final(src).history().take(old(src).history().len() as int) == old(src).history(),
            chain_by(
                old(self)@.rules,
                old(self)@.generation(old(self)@.steps.len() as nat),
                final(self)@.steps.skip(old(self)@.steps.len() as int),
                final(src).history().skip(old(src).history().len() as int),
            ),
    {
        let ghost first = self@;
        let ghost h0 = src.history();
        let ghost g0 = first.generation(first.steps.len() as nat);
        proof {
            lemma_chain_empty(first.rules, g0);
            assert(self@.steps.skip(first.steps.len() as int) =~= Seq::<Seq<char>>::empty());
            assert(src.history().skip(h0.len() as int) =~= Seq::<u32>::empty());
            assert(src.history().take(h0.len() as int) =~= h0);
        }
        let mut done: usize = 0;
        while done < nbr_of_step
            invariant
                self@.wf(),
                self@.start == first.start,
                self@.rules == first.rules,
                done <= nbr_of_step,
                self@.steps.len() == first.steps.len() + done,
                first.steps.len() + nbr_of_step <= usize::MAX,
                self@.steps.take(first.steps.len() as int) == first.steps,
                deterministic(first.rules) ==> *src == *old(src),
                h0 == old(src).history(),
                g0 == first.generation(first.steps.len() as nat),
                src.history().len() >= h0.len(),
                src.history().take(h0.len() as int) == h0,
                chain_by(
                    first.rules,
                    g0,
                    self@.steps.skip(first.steps.len() as int),
                    src.history().skip(h0.len() as int),
                ),
            decreases nbr_of_step - done,
        {
            let ghost before = self@;
            let ghost hist = src.history();
            let len = self.steps.len();
            let next = if len == 0 {
                rewrite(&self.rules, &self.start, src)
            } else {
                rewrite(&self.rules, &self.steps[len - 1], src)
            };
            proof {
                assert(rewrites_to(before.rules, before.generation(len as nat), next@));
            }
            self.steps.push(next);
            proof {
                assert(self@.steps =~= before.steps.push(next@));
                assert forall|i: nat| 1 <= i <= self@.steps.len() implies rewrites_to(
                    self@.rules,
                    self@.generation((i - 1) as nat),
                    #[trigger] self@.generation(i),
                ) by {
                    if i < self@.steps.len() {
                        assert(before.generation(i) == self@.generation(i));
                        assert(before.generation((i - 1) as nat) == self@.generation(
                            (i - 1) as nat,
                        ));
                    }
                }
                assert(self@.steps.take(first.steps.len() as int) =~= first.steps);
                let old_run = before.steps.skip(first.steps.len() as int);
                assert(gen_in_run(g0, old_run, old_run.len() as int) == before.generation(len as nat));
                let more = src.history().skip(hist.len() as int);
                lemma_chain_push(first.rules, g0, old_run, hist.skip(h0.len() as int), more, next@);
                assert(self@.steps.skip(first.steps.len() as int) =~= old_run.push(next@));
                assert(src.history().skip(h0.len() as int) =~= hist.skip(h0.len() as int) + more);
                assert(src.history().take(h0.len() as int) =~= h0);
            }
            done = done + 1;
        }
    }

    /// Generation `nbr_of_step`, with rule choices drawn from `src`: taken
    /// from the cache when it is there, otherwise computed forward from the
    /// last cached generation, every intermediate generation being kept.
    pub fn get_step_with<S: DrawSource>(&mut self, nbr_of_step: usize, src: &mut S) -> (r: String)
        requires
            old(self)@.wf(),
        ensures
            final(self)@.wf(),
            LSystemView::serves(old(self)@, final(self)@, nbr_of_step as nat, r@),
            deterministic(old(self)@.rules) ==> *final(src) == *old(src),
            nbr_of_step as nat <= old(self)@.steps.len() ==> *final(src) == *old(src),
            final(src).history().take(old(src).history().len() as int) == old(src).history(),
            chain_by(
                old(self)@.rules,
                old(self)@.generation(old(self)@.steps.len() as nat),
                final(self)@.steps.skip(old(self)@.steps.len() as int),
                final(src).history().skip(old(src).history().len() as int),
            ),
    {
        let generated_nbr_of_step = self.steps.len();
        proof {
            assert(self@.steps.take(self@.steps.len() as int) =~= self@.steps);
            assert(src.history().take(src.history().len() as int) =~= src.history());
            lemma_chain_empty(self@.rules, self@.generation(self@.steps.len() as nat));
            assert(self@.steps.skip(self@.steps.len() as int) =~= Seq::<Seq<char>>::empty());
            assert(src.history().skip(src.history().len() as int) =~= Seq::<u32>::empty());
        }
        if nbr_of_step == 0 {
            return self.start.clone();
        }
        if generated_nbr_of_step < nbr_of_step {
            self.generate(nbr_of_step - generated_nbr_of_step, src);
        }
        proof {
            assert(self@.steps[nbr_of_step - 1] == self.steps@[nbr_of_step - 1]@);
        }
        self.steps[nbr_of_step - 1].clone()
    }

    /// Generation `nbr_of_step`, with rule choices drawn from a generator
    /// seeded by the operating system (or by `FALLBACK_SEED` when the system
    /// supplies no entropy).
    pub fn get_step(&mut self, nbr_of_step: usize) -> (r: String)
        requires
            old(self)@.wf(),
        ensures
            final(self)@.wf(),
            LSystemView::serves(old(self)@, final(self)@, nbr_of_step as nat, r@),
    {
        let mut src = match RandomDraws::from_os() {
            Some(src) => src,
            None => RandomDraws::seeded(FALLBACK_SEED),
        };
        self.get_step_with(nbr_of_step, &mut src)
    }

    /// Discards every cached generation; start and rules stay.
    pub fn reset(&mut self)
        requires
            old(self)@.wf(),
        ensures
            final(self)@.wf(),
            final(self)@.start == old(self)@.start,
            final(self)@.rules == old(self)@.rules,
            final(self)@.steps.len() == 0,
    {
        self.steps.clear();
    }
}

/// Asking twice in a row for the same generation returns the same string, and
/// the second request changes nothing, so no rewriting is done for it.
pub proof fn lemma_repeat_request(
    s0: LSystemView,
    s1: LSystemView,
    r1: Seq<char>,
    s2: LSystemView,
    r2: Seq<char>,
    n: nat,
)
    requires
        LSystemView::serves(s0, s1, n, r1),
        LSystemView::serves(s1, s2, n, r2),
    ensures
        r2 == r1,
        s2 == s1,
{
}

/// Each generation is one rewriting step of the one before it, generation 0
/// being the start.
pub proof fn lemma_generation_follows_previous(sys: LSystemView, k: nat)
    requires
        sys.wf(),
        1 <= k <= sys.steps.len(),
    ensures
        rewrites_to(sys.rules, sys.generation((k - 1) as nat), sys.generation(k)),
{
}

/// With one production per symbol, every cached generation is the one that
/// repeated rewriting gives.
pub proof fn lemma_deterministic_generation(sys: LSystemView, k: nat)
    requires
        sys.wf(),
        deterministic(sys.rules),
        k <= sys.steps.len(),
    ensures
        sys.generation(k) == det_generation(sys.rules, sys.start, k),
    decreases k,
{
    if k > 0 {
        lemma_deterministic_generation(sys, (k - 1) as nat);
        lemma_deterministic_rewrite(
            sys.rules,
            sys.generation((k - 1) as nat),
            sys.generation(k),
        );
    }
}

/// With one production per symbol, a generation computed again after the cache
/// was cleared is the one computed before.
pub proof fn lemma_reset_recomputes_same(
    s0: LSystemView,
    s1: LSystemView,
    r1: Seq<char>,
    s2: LSystemView,
    s3: LSystemView,
    r2: Seq<char>,
    n: nat,
)
    requires
        s0.wf(),
        deterministic(s0.rules),
        LSystemView::serves(s0, s1, n, r1),
        s1.wf(),
        s2.start == s1.start,
        s2.rules == s1.rules,
        s2.steps.len() == 0,
        LSystemView::serves(s2, s3, n, r2),
        s3.wf(),
    ensures
        r2 == r1,
{
    lemma_deterministic_generation(s1, n);
    lemma_deterministic_generation(s3, n);
}

/// A generation computed again after the cache was cleared, from a source
/// that replays the draws taken the first time, is the one computed before:
/// clearing the cache changes the cost of a request, never its result.
/// `ds1` and `ds2` are the draws each request took, as `get_step_with` states
/// them.
pub proof fn lemma_reset_replay(
    s0: LSystemView,
    s1: LSystemView,
    r1: Seq<char>,
    ds1: Seq<u32>,
    s2: LSystemView,
    s3: LSystemView,
    r2: Seq<char>,
    ds2: Seq<u32>,
    n: nat,
)
    requires
        s0.steps.len() == 0,
        LSystemView::serves(s0, s1, n, r1),
        chain_by(s0.rules, s0.generation(0), s1.steps.skip(0), ds1),
        s2.start == s0.start,
        s2.rules == s0.rules,
        s2.steps.len() == 0,
        LSystemView::serves(s2, s3, n, r2),
        chain_by(s2.rules, s2.generation(0), s3.steps.skip(0), ds2),
        ds2 == ds1,
    ensures
        r2 == r1,
{
    if n > 0 {
        lemma_chain_replay(s0.rules, s0.start, s1.steps.skip(0), s3.steps.skip(0), ds1);
        assert(s1.steps.skip(0) =~= s1.steps);
        assert(s3.steps.skip(0) =~= s3.steps);
    }
}

} // verus!
