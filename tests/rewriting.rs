use lsystem::config::{Rule, PROB_SCALE};
use lsystem::draws::{DrawSource, RandomDraws, ReplayDraws};
use lsystem::grammar::{choose_index, find_rules, rewrite, select_rule, RuleTable};
use lsystem::lsystem::LSystem;
use lsystem::utility::count_chars;

/// A source with nothing to replay: any draw taken shows in `taken()`.
fn no_draws() -> ReplayDraws {
    ReplayDraws::new(Vec::new())
}

fn rule(prob: u32, production: &str) -> Rule {
    Rule { prob, production: production.to_string() }
}

fn rabbit() -> RuleTable {
    vec![('a', vec![Rule::from("ab".to_string())]), ('b', vec![Rule::from("a".to_string())])]
}

#[test]
fn counts_characters() {
    assert_eq!(count_chars("F[+F][-F]", '['), 2);
    assert_eq!(count_chars("F[+F][-F]", 'F'), 3);
    assert_eq!(count_chars("", 'F'), 0);
    assert_eq!(count_chars("ééa", 'é'), 2);
}

#[test]
fn default_rule_weight_is_certainty() {
    let r = Rule::from("F+F".to_string());
    assert_eq!(r.prob, PROB_SCALE);
    assert_eq!(r.production, "F+F");
    assert_eq!(Rule::default_prob(), PROB_SCALE);
}

#[test]
fn production_with_unbalanced_brackets_is_refused() {
    assert_eq!(Rule::check_production("F[+F]".to_string()), Ok("F[+F]".to_string()));
    assert_eq!(
        Rule::check_production("F[+F".to_string()),
        Err("Mismatched square brackets".to_string())
    );
    assert!(Rule::check_production("]F[".to_string()).is_ok());
}

#[test]
fn lookup_finds_listed_symbols_only() {
    let table = rabbit();
    assert_eq!(find_rules(&table, 'a'), Some(0));
    assert_eq!(find_rules(&table, 'b'), Some(1));
    assert_eq!(find_rules(&table, 'c'), None);
}

#[test]
fn rabbit_sequence_generations() {
    let mut sys = LSystem::new("a".to_string(), rabbit());
    assert_eq!(sys.get_step(0), "a");
    assert_eq!(sys.get_step(1), "ab");
    assert_eq!(sys.get_step(2), "aba");
    assert_eq!(sys.get_step(3), "abaab");
}

#[test]
fn rabbit_sequence_jumping_ahead() {
    let mut sys = LSystem::new("a".to_string(), rabbit());
    assert_eq!(sys.get_step(3), "abaab");
    assert_eq!(sys.get_step(1), "ab");
    assert_eq!(sys.get_step(2), "aba");
    assert_eq!(sys.get_step(5), "abaababaabaab");
}

#[test]
fn repeated_request_returns_the_same_string() {
    let table = vec![('F', vec![rule(500_000, "F+F"), rule(500_000, "F-F")])];
    let mut sys = LSystem::new("F".to_string(), table);
    let first = sys.get_step(4);
    let second = sys.get_step(4);
    assert_eq!(first, second);
    let mut none = no_draws();
    assert_eq!(sys.get_step_with(4, &mut none), first);
    assert_eq!(sys.get_step_with(2, &mut none).len(), 7);
    assert_eq!(sys.get_step_with(0, &mut none), "F");
    assert_eq!(none.taken(), 0);
}

#[test]
fn each_generation_rewrites_the_previous_one() {
    let table = rabbit();
    let mut sys = LSystem::new("a".to_string(), rabbit());
    for k in 1..8 {
        let prev = sys.get_step(k - 1);
        let next = sys.get_step(k);
        let mut none = no_draws();
        assert_eq!(rewrite(&table, &prev, &mut none), next);
        assert_eq!(none.taken(), 0);
    }
}

#[test]
fn single_rule_grammars_take_no_draw() {
    let mut sys = LSystem::new("F".to_string(), vec![('F', vec![rule(300_000, "F[+F]F")])]);
    let mut none = no_draws();
    assert_eq!(sys.get_step_with(2, &mut none), "F[+F]F[+F[+F]F]F[+F]F");
    let single = vec![rule(1, "x")];
    assert_eq!(select_rule(&single, &mut none), 0);
    assert_eq!(none.taken(), 0);
}

#[test]
fn symbols_without_rules_are_copied() {
    let table = vec![('F', vec![Rule::from("FF".to_string())])];
    assert_eq!(rewrite(&table, &"+F-[X]".to_string(), &mut no_draws()), "+FF-[X]");
    let mut none = LSystem::new("abc".to_string(), Vec::new());
    assert_eq!(none.get_step(3), "abc");
}

#[test]
fn empty_start_stays_empty() {
    let mut sys = LSystem::new(String::new(), rabbit());
    assert_eq!(sys.get_step(0), "");
    assert_eq!(sys.get_step(4), "");
}

#[test]
fn self_reference_grows_linearly() {
    let table = vec![('a', vec![Rule::from("aa".to_string())])];
    let mut sys = LSystem::new("a".to_string(), table);
    assert_eq!(sys.get_step(4).len(), 16);
}

#[test]
fn reset_recomputes_the_same_generation() {
    let mut sys = LSystem::new("a".to_string(), rabbit());
    let before = sys.get_step(6);
    sys.reset();
    assert_eq!(sys.get_step(6), before);
    sys.reset();
    assert_eq!(sys.get_step(0), "a");
}

#[test]
fn reset_with_same_seed_reproduces_stochastic_generation() {
    let table = vec![('F', vec![rule(500_000, "F+"), rule(500_000, "F-")])];
    let mut sys = LSystem::new("F".to_string(), table);
    let first = sys.get_step_with(5, &mut RandomDraws::seeded(7));
    sys.reset();
    let again = sys.get_step_with(5, &mut RandomDraws::seeded(7));
    assert_eq!(first, again);
    assert_eq!(first.len(), 6);
}

#[test]
fn stochastic_choice_follows_the_draws() {
    let table = vec![('F', vec![rule(500_000, "A"), rule(500_000, "B")])];
    let mut fixed = ReplayDraws::new(vec![0, 999_999, 500_000]);
    assert_eq!(rewrite(&table, &"FFF".to_string(), &mut fixed), "ABB");
    assert_eq!(fixed.taken(), 3);
    let two = vec![rule(500_000, "a"), rule(500_000, "b")];
    let mut one = ReplayDraws::new(vec![1_000_000]);
    assert_eq!(select_rule(&two, &mut one), 0);
    assert_eq!(one.taken(), 1);
    assert_eq!(select_rule(&two, &mut one), 0);
    assert_eq!(one.taken(), 2);
}

#[test]
fn selection_boundary_belongs_to_the_current_entry() {
    let two = vec![rule(500_000, "a"), rule(500_000, "b")];
    assert_eq!(choose_index(&two, 0), 0);
    assert_eq!(choose_index(&two, 500_000), 1);
    assert_eq!(choose_index(&two, 999_999), 1);
    let three = vec![rule(500_000, "a"), rule(250_000, "b"), rule(250_000, "c")];
    assert_eq!(choose_index(&three, 500_000), 1);
    assert_eq!(choose_index(&three, 500_001), 2);
    assert_eq!(choose_index(&three, 1), 1);
}

#[test]
fn last_entry_catches_unnormalised_weights() {
    let zero = vec![rule(0, "a"), rule(0, "b"), rule(1_000_000, "c")];
    assert_eq!(choose_index(&zero, 0), 0);
    assert_eq!(choose_index(&zero, 1), 2);
    let light = vec![rule(100, "a"), rule(100, "b"), rule(100, "c")];
    assert_eq!(choose_index(&light, 999_999), 2);
    assert_eq!(choose_index(&light, 100), 1);
    let heavy = vec![rule(900_000, "a"), rule(900_000, "b"), rule(900_000, "c")];
    assert_eq!(choose_index(&heavy, 999_999), 2);
}

#[test]
fn seeded_draws_stay_below_bound() {
    let mut replay = ReplayDraws::new(vec![7, 9]);
    assert_eq!(replay.draw(5), 2);
    assert_eq!(replay.draw(10), 9);
    assert_eq!(replay.draw(10), 0);
    let mut src = RandomDraws::seeded(11);
    for _ in 0..100 {
        assert!(src.draw(3) < 3);
    }
    let mut os = RandomDraws::from_os().unwrap();
    assert!(os.draw(1) == 0);
}

#[test]
fn reset_with_replayed_draws_recomputes_the_same_generation() {
    let table = vec![('F', vec![rule(300_000, "F+F"), rule(300_000, "F-"), rule(400_000, "FF")])];
    let draws = vec![0, 999_999, 300_000, 650_000, 12, 599_999, 600_001, 1, 0, 700_000];
    let mut sys = LSystem::new("F".to_string(), table);
    let mut first = ReplayDraws::new(draws.clone());
    let before = sys.get_step_with(4, &mut first);
    sys.reset();
    let mut again = ReplayDraws::new(draws);
    assert_eq!(sys.get_step_with(4, &mut again), before);
    assert_eq!(first.taken(), again.taken());
}
