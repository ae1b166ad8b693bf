use vstd::prelude::*;
use crate::config::{Rule, PROB_SCALE};
use crate::draws::DrawSource;

verus! {

/// The rules of a grammar: each symbol with its ordered list of productions.
/// A vector of entries rather than a hash map, since lookups in a map keyed by
/// `char` come with no specification; `table_wf` keeps the symbols unique.
pub type RuleTable = Vec<(char, Vec<Rule>)>;

/// A rule table is well formed when no symbol is listed twice and every listed
/// symbol has at least one production.
pub open spec fn table_wf(table: Seq<(char, Vec<Rule>)>) -> bool {
    &&& forall|i: int| 0 <= i < table.len() ==> (#[trigger] table[i]).1@.len() > 0
    &&& forall|i: int, j: int|
        0 <= i < j < table.len() ==> (#[trigger] table[i]).0 != (#[trigger] table[j]).0
}

/// Every listed symbol has exactly one production: rewriting needs no choice.
pub open spec fn deterministic(table: Seq<(char, Vec<Rule>)>) -> bool {
    forall|i: int| 0 <= i < table.len() ==> (#[trigger] table[i]).1@.len() == 1
}

/// The productions of `c` found from entry `i` on (empty when there are none).
pub open spec fn rules_from(table: Seq<(char, Vec<Rule>)>, c: char, i: int) -> Seq<Rule>
    decreases table.len() - i,
{
    if i < 0 || i >= table.len() {
        Seq::empty()
    } else if table[i].0 == c {
        table[i].1@
    } else {
        rules_from(table, c, i + 1)
    }
}

/// The productions of `c`; empty when `c` has no rule.
pub open spec fn rules_of(table: Seq<(char, Vec<Rule>)>, c: char) -> Seq<Rule> {
    rules_from(table, c, 0)
}

/// Sum of the weights of the first `i` productions.
pub open spec fn prob_prefix(rules: Seq<Rule>, i: int) -> int
    decreases i,
{
    if i <= 0 || i > rules.len() {
        0
    } else {
        prob_prefix(rules, i - 1) + rules[i - 1].prob
    }
}

/// Production `k` is the one that `draw` picks: scanning in order with the
/// running total of the weights before each entry, the first entry whose total
/// is at least the draw, or else the last entry.
pub open spec fn selects(rules: Seq<Rule>, draw: int, k: int) -> bool {
    &&& 0 <= k < rules.len()
    &&& (k == rules.len() - 1 || draw <= prob_prefix(rules, k))
    &&& forall|j: int| 0 <= j < k ==> draw > #[trigger] prob_prefix(rules, j)
}

/// What symbol `c` becomes when production `k` is chosen for it; a symbol with
/// no rule stays as it is.
pub open spec fn replacement(table: Seq<(char, Vec<Rule>)>, c: char, k: int) -> Seq<char> {
    let rs = rules_of(table, c);
    if rs.len() == 0 {
        seq![c]
    } else {
        rs[k].production@
    }
}

/// The rewriting of the first `n` symbols of `s`, production `ch[i]` being
/// chosen for symbol `i`.
pub open spec fn apply_upto(
    table: Seq<(char, Vec<Rule>)>,
    s: Seq<char>,
    ch: Seq<int>,
    n: int,
) -> Seq<char>
    decreases n,
{
    if n <= 0 {
        Seq::empty()
    } else {
        apply_upto(table, s, ch, n - 1) + replacement(table, s[n - 1], ch[n - 1])
    }
}

/// Production `k` of `rules` is one that some draw below `PROB_SCALE` picks.
pub open spec fn drawable(rules: Seq<Rule>, k: int) -> bool {
    exists|d: int| 0 <= d < PROB_SCALE && selects(rules, d, k)
}

/// `ch` names, for each symbol of `s` that has rules, one of its productions
/// that a draw can pick.
pub open spec fn valid_choices(table: Seq<(char, Vec<Rule>)>, s: Seq<char>, ch: Seq<int>) -> bool {
    &&& ch.len() == s.len()
    &&& forall|i: int|
        0 <= i < s.len() && rules_of(table, s[i]).len() > 0 ==> drawable(
            rules_of(table, s[i]),
            #[trigger] ch[i],
        )
}

/// `t` is one rewriting step of `s`: every symbol replaced, in order, by one
/// of its productions that a draw can pick, or kept when it has none.
pub open spec fn rewrites_to(table: Seq<(char, Vec<Rule>)>, s: Seq<char>, t: Seq<char>) -> bool {
    exists|ch: Seq<int>| valid_choices(table, s, ch) && apply_upto(table, s, ch, s.len() as int) == t
}

/// Symbol `c` has several productions: rewriting it takes a draw.
pub open spec fn needs_draw(table: Seq<(char, Vec<Rule>)>, c: char) -> bool {
    rules_of(table, c).len() > 1
}

/// The number of draws that rewriting the first `n` symbols of `s` takes.
pub open spec fn draws_for(table: Seq<(char, Vec<Rule>)>, s: Seq<char>, n: int) -> nat
    decreases n,
{
    if n <= 0 {
        0
    } else {
        draws_for(table, s, n - 1) + if needs_draw(table, s[n - 1]) {
            1nat
        } else {
            0nat
        }
    }
}

/// `ch` is what the draws `ds` pick for `s`, in order: each symbol with
/// several productions takes the next draw and gets the production it selects.
pub open spec fn choices_follow(
    table: Seq<(char, Vec<Rule>)>,
    s: Seq<char>,
    ch: Seq<int>,
    ds: Seq<u32>,
) -> bool {
    &&& ds.len() == draws_for(table, s, s.len() as int)
    &&& forall|i: int|
        0 <= i < s.len() && needs_draw(table, s[i]) ==> selects(
            rules_of(table, s[i]),
            ds[draws_for(table, s, i) as int] as int,
            #[trigger] ch[i],
        )
}

/// `t` is the rewriting of `s` that the draws `ds` make.
#[verifier::opaque]
pub open spec fn rewrites_by(
    table: Seq<(char, Vec<Rule>)>,
    s: Seq<char>,
    ds: Seq<u32>,
    t: Seq<char>,
) -> bool {
    exists|ch: Seq<int>|
        valid_choices(table, s, ch) && choices_follow(table, s, ch, ds) && apply_upto(
            table,
            s,
            ch,
            s.len() as int,
        ) == t
}

/// The draws of a rewriting step are one per symbol with several productions.
pub proof fn lemma_rewrites_by_len(
    table: Seq<(char, Vec<Rule>)>,
    s: Seq<char>,
    ds: Seq<u32>,
    t: Seq<char>,
)
    requires
        rewrites_by(table, s, ds, t),
    ensures
        ds.len() == draws_for(table, s, s.len() as int),
{
    reveal(rewrites_by);
}

proof fn lemma_selects_unique(rules: Seq<Rule>, d: int, k1: int, k2: int)
    requires
        selects(rules, d, k1),
        selects(rules, d, k2),
    ensures
        k1 == k2,
{
    if k1 < k2 {
        assert(d > prob_prefix(rules, k1));
    } else if k2 < k1 {
        assert(d > prob_prefix(rules, k2));
    }
}

proof fn lemma_draws_for_monotone(table: Seq<(char, Vec<Rule>)>, s: Seq<char>, j: int, n: int)
    requires
        0 <= j <= n,
    ensures
        draws_for(table, s, j) <= draws_for(table, s, n),
    decreases n - j,
{
    if j < n {
        lemma_draws_for_monotone(table, s, j, n - 1);
    }
}

proof fn lemma_apply_same_replacements(
    table: Seq<(char, Vec<Rule>)>,
    s: Seq<char>,
    ch1: Seq<int>,
    ch2: Seq<int>,
    n: int,
)
    requires
        n <= s.len(),
        forall|i: int|
            0 <= i < n ==> #[trigger] replacement(table, s[i], ch1[i]) == replacement(
                table,
                s[i],
                ch2[i],
            ),
    ensures
        apply_upto(table, s, ch1, n) == apply_upto(table, s, ch2, n),
    decreases n,
{
    if n > 0 {
        assert(replacement(table, s[n - 1], ch1[n - 1]) == replacement(table, s[n - 1], ch2[n - 1]));
        lemma_apply_same_replacements(table, s, ch1, ch2, n - 1);
    }
}

/// A rewriting step is a function of the draws it takes: the same symbols
/// rewritten with the same draws give the same result.
pub proof fn lemma_rewrite_replay(
    table: Seq<(char, Vec<Rule>)>,
    s: Seq<char>,
    ds: Seq<u32>,
    t1: Seq<char>,
    t2: Seq<char>,
)
    requires
        rewrites_by(table, s, ds, t1),
        rewrites_by(table, s, ds, t2),
    ensures
        t1 == t2,
{
    reveal(rewrites_by);
    let ch1 = choose|ch: Seq<int>|
        valid_choices(table, s, ch) && choices_follow(table, s, ch, ds) && apply_upto(
            table,
            s,
            ch,
            s.len() as int,
        ) == t1;
    let ch2 = choose|ch: Seq<int>|
        valid_choices(table, s, ch) && choices_follow(table, s, ch, ds) && apply_upto(
            table,
            s,
            ch,
            s.len() as int,
        ) == t2;
    assert forall|i: int| 0 <= i < s.len() implies #[trigger] replacement(table, s[i], ch1[i])
        == replacement(table, s[i], ch2[i]) by {
        let rs = rules_of(table, s[i]);
        if needs_draw(table, s[i]) {
            lemma_selects_unique(rs, ds[draws_for(table, s, i) as int] as int, ch1[i], ch2[i]);
        } else if rs.len() == 1 {
            assert(drawable(rs, ch1[i]));
            assert(drawable(rs, ch2[i]));
            let d1 = choose|d: int| 0 <= d < PROB_SCALE && #[trigger] selects(rs, d, ch1[i]);
            let d2 = choose|d: int| 0 <= d < PROB_SCALE && #[trigger] selects(rs, d, ch2[i]);
        }
    }
    lemma_apply_same_replacements(table, s, ch1, ch2, s.len() as int);
}

/// The rewriting step of a deterministic grammar.
pub open spec fn det_step(table: Seq<(char, Vec<Rule>)>, s: Seq<char>) -> Seq<char> {
    apply_upto(table, s, Seq::new(s.len(), |i: int| 0int), s.len() as int)
}

/// Generation `n` of a deterministic grammar started from `start`.
pub open spec fn det_generation(table: Seq<(char, Vec<Rule>)>, start: Seq<char>, n: nat) -> Seq<
    char,
>
    decreases n,
{
    if n == 0 {
        start
    } else {
        det_step(table, det_generation(table, start, (n - 1) as nat))
    }
}

proof fn lemma_rules_from_listed(table: Seq<(char, Vec<Rule>)>, c: char, i: int)
    requires
        0 <= i,
        rules_from(table, c, i).len() > 0,
    ensures
        exists|j: int| i <= j < table.len() && rules_from(table, c, i) == (#[trigger] table[j]).1@,
    decreases table.len() - i,
{
    if i < table.len() && table[i].0 != c {
        lemma_rules_from_listed(table, c, i + 1);
    }
}

/// In a deterministic table a symbol has either no production or exactly one.
pub proof fn lemma_deterministic_single(table: Seq<(char, Vec<Rule>)>, c: char)
    requires
        deterministic(table),
        rules_of(table, c).len() > 0,
    ensures
        rules_of(table, c).len() == 1,
{
    lemma_rules_from_listed(table, c, 0);
}

proof fn lemma_apply_prefix(
    table: Seq<(char, Vec<Rule>)>,
    s: Seq<char>,
    ch1: Seq<int>,
    ch2: Seq<int>,
    n: int,
)
    requires
        n <= ch1.len(),
        n <= ch2.len(),
        forall|i: int| 0 <= i < n ==> ch1[i] == ch2[i],
    ensures
        apply_upto(table, s, ch1, n) == apply_upto(table, s, ch2, n),
    decreases n,
{
    if n > 0 {
        lemma_apply_prefix(table, s, ch1, ch2, n - 1);
    }
}

proof fn lemma_apply_deterministic(
    table: Seq<(char, Vec<Rule>)>,
    s: Seq<char>,
    ch: Seq<int>,
    n: int,
)
    requires
        deterministic(table),
        valid_choices(table, s, ch),
        n <= s.len(),
    ensures
        apply_upto(table, s, ch, n) == apply_upto(table, s, Seq::new(s.len(), |i: int| 0int), n),
    decreases n,
{
    if n > 0 {
        lemma_apply_deterministic(table, s, ch, n - 1);
        let c = s[n - 1];
        if rules_of(table, c).len() > 0 {
            lemma_deterministic_single(table, c);
            assert(drawable(rules_of(table, c), ch[n - 1]));
            let d = choose|d: int|
                0 <= d < PROB_SCALE && #[trigger] selects(rules_of(table, c), d, ch[n - 1]);
            assert(ch[n - 1] == 0);
        }
    }
}

/// A deterministic grammar leaves no choice: its one rewriting of `s` is
/// `det_step(s)`.
pub proof fn lemma_deterministic_rewrite(
    table: Seq<(char, Vec<Rule>)>,
    s: Seq<char>,
    t: Seq<char>,
)
    requires
        deterministic(table),
        rewrites_to(table, s, t),
    ensures
        t == det_step(table, s),
{
    let ch = choose|ch: Seq<int>|
        valid_choices(table, s, ch) && apply_upto(table, s, ch, s.len() as int) == t;
    lemma_apply_deterministic(table, s, ch, s.len() as int);
}

/// Looks up the entry of `c`.
pub fn find_rules(table: &RuleTable, c: char) -> (r: Option<usize>)
    ensures
        match r {
            Some(i) => i < table@.len() && table@[i as int].0 == c && rules_of(table@, c)
                == table@[i as int].1@,
            None => rules_of(table@, c).len() == 0,
        },
{
    let mut i: usize = 0;
    while i < table.len()
        invariant
            i <= table@.len(),
            rules_of(table@, c) == rules_from(table@, c, i as int),
        decreases table@.len() - i,
    {
        if table[i].0 == c {
            return Some(i);
        }
        i = i + 1;
    }
    None
}

/// The production that `draw` (a value below `PROB_SCALE`) picks from `rules`,
/// by cumulative weights: see `selects`.
pub fn choose_index(rules: &Vec<Rule>, draw: u32) -> (k: usize)
    requires
        rules@.len() > 0,
    ensures
        selects(rules@, draw as int, k as int),
{
    let n = rules.len();
    let mut acc: u64 = 0;
    let mut i: usize = 0;
    loop
        invariant
            n == rules@.len(),
            i < n,
            acc == prob_prefix(rules@, i as int),
            acc <= 2 * (u32::MAX as u64),
            forall|j: int| 0 <= j < i ==> draw > #[trigger] prob_prefix(rules@, j),
        decreases n - i,
    {
        if (draw as u64) <= acc || i + 1 == n {
            return i;
        }
        acc = acc + rules[i].prob as u64;
        i = i + 1;
    }
}

/// Picks one production of a non-empty list: a list of one is taken as it is,
/// without a draw; otherwise one draw below `PROB_SCALE` decides.
pub fn select_rule<S: DrawSource>(rules: &Vec<Rule>, src: &mut S) -> (k: usize)
    requires
        rules@.len() > 0,
    ensures
        k < rules@.len(),
        drawable(rules@, k as int),
        rules@.len() == 1 ==> k == 0 && *final(src) == *old(src),
        rules@.len() > 1 ==> final(src).history().len() == old(src).history().len() + 1
            && final(src).history().drop_last() == old(src).history() && selects(
            rules@,
            final(src).history().last() as int,
            k as int,
        ),
{
    if rules.len() == 1 {
        assert(selects(rules@, 0, 0));
        0
    } else {
        let draw = src.draw(PROB_SCALE);
        assert(src.history().drop_last() =~= old(src).history());
        choose_index(rules, draw)
    }
}

/// Relies on `String::push`: appends one character.
#[verifier::external_body]
fn push_char(s: &mut String, c: char)
    ensures
        final(s)@ == old(s)@.push(c),
{
    s.push(c)
}

/// One rewriting step: each symbol of `s`, left to right, replaced by a
/// production selected for it, or copied when it has no rule. Draws are taken
/// only for symbols with several productions.
pub fn rewrite<S: DrawSource>(table: &RuleTable, s: &String, src: &mut S) -> (r: String)
    requires
        table_wf(table@),
    ensures
        rewrites_to(table@, s@, r@),
        deterministic(table@) ==> *final(src) == *old(src),
        final(src).history().len() >= old(src).history().len(),
        final(src).history().take(old(src).history().len() as int) == old(src).history(),
        rewrites_by(
            table@,
            s@,
            final(src).history().skip(old(src).history().len() as int),
            r@,
        ),
{
    let mut out = String::new();
    let ghost mut ch: Seq<int> = Seq::empty();
    let ghost h0 = src.history();
    assert(src.history().take(h0.len() as int) =~= h0);
    for c in it: s.as_str().chars()
        invariant
            it.seq() == s@,
            table_wf(table@),
            ch.len() == it.index(),
            forall|i: int|
                0 <= i < ch.len() && rules_of(table@, s@[i]).len() > 0 ==> drawable(
                    rules_of(table@, s@[i]),
                    #[trigger] ch[i],
                ),
            out@ == apply_upto(table@, s@, ch, ch.len() as int),
            deterministic(table@) ==> *src == *old(src),
            h0 == old(src).history(),
            src.history().len() >= h0.len(),
            src.history().take(h0.len() as int) == h0,
            src.history().len() - h0.len() == draws_for(table@, s@, ch.len() as int),
            forall|j: int|
                0 <= j < ch.len() && needs_draw(table@, s@[j]) ==> selects(
                    rules_of(table@, s@[j]),
                    src.history()[(h0.len() + draws_for(table@, s@, j)) as int] as int,
                    #[trigger] ch[j],
                ),
    {
        let ghost i = it.index() as int;
        let ghost prev = ch;
        let ghost hprev = src.history();
        match find_rules(table, c) {
            Some(e) => {
                let rules = &table[e].1;
                proof {
                    assert(table_wf(table@));
                    assert(table@[e as int].1@.len() > 0);
                    if deterministic(table@) {
                        assert(table@[e as int].1@.len() == 1);
                    }
                }
                let k = select_rule(rules, src);
                out.append(rules[k].production.as_str());
                proof {
                    ch = ch.push(k as int);
                }
            },
            None => {
                push_char(&mut out, c);
                proof {
                    ch = ch.push(0);
                }
            },
        }
        proof {
            lemma_apply_prefix(table@, s@, prev, ch, i);
            assert(src.history().take(h0.len() as int) =~= h0);
            assert forall|j: int|
                0 <= j < ch.len() && needs_draw(table@, s@[j]) implies selects(
                rules_of(table@, s@[j]),
                src.history()[(h0.len() + draws_for(table@, s@, j)) as int] as int,
                #[trigger] ch[j],
            ) by {
                if j < i {
                    assert(ch[j] == prev[j]);
                    lemma_draws_for_monotone(table@, s@, j + 1, i);
                    assert(src.history()[(h0.len() + draws_for(table@, s@, j)) as int] == hprev[(h0.len()
                        + draws_for(table@, s@, j)) as int]);
                }
            }
        }
    }
    proof {
        let ds = src.history().skip(h0.len() as int);
        assert(ch.len() == s@.len());
        assert forall|j: int| 0 <= j < s@.len() && needs_draw(table@, s@[j]) implies selects(
            rules_of(table@, s@[j]),
            ds[draws_for(table@, s@, j) as int] as int,
            #[trigger] ch[j],
        ) by {
            lemma_draws_for_monotone(table@, s@, j + 1, s@.len() as int);
            assert(ds[draws_for(table@, s@, j) as int] == src.history()[(h0.len() + draws_for(
                table@,
                s@,
                j,
            )) as int]);
        }
        assert(choices_follow(table@, s@, ch, ds));
        assert(valid_choices(table@, s@, ch));
        reveal(rewrites_by);
    }
    out
}

} // verus!
