use vstd::prelude::*;
use crate::grammar::RuleTable;
use crate::utility::{count_chars, occurrences};

verus! {

/// Probabilities are fixed-point numbers: `PROB_SCALE` stands for 1.
pub const PROB_SCALE: u32 = 1_000_000;

/// One weighted production of a symbol.
#[derive(Clone, Debug)]
pub struct Rule {
    /// Selection weight, in units of `1 / PROB_SCALE`.
    pub prob: u32,
    /// The symbols that replace the rewritten one.
    pub production: String,
}

impl From<String> for Rule {
    fn from(value: String) -> (r: Rule) {
        Rule { prob: Rule::default_prob(), production: value }
    }
}

impl vstd::std_specs::convert::FromSpecImpl<String> for Rule {
    open spec fn obeys_from_spec() -> bool {
        true
    }

    open spec fn from_spec(value: String) -> Rule {
        Rule { prob: PROB_SCALE, production: value }
    }
}

/// A production is accepted when it opens as many branches as it closes.
pub open spec fn production_ok(s: Seq<char>) -> bool {
    occurrences(s, '[') == occurrences(s, ']')
}

impl Rule {
    /// The weight of a rule given without one: certainty.
    pub fn default_prob() -> (r: u32)
        ensures
            r == PROB_SCALE,
    {
        PROB_SCALE
    }

    /// Accepts `rule_str` as a production when its square brackets are
    /// balanced in number.
    pub fn check_production(rule_str: String) -> (r: Result<String, String>)
        requires
            rule_str@.len() <= usize::MAX,
        ensures
            production_ok(rule_str@) <==> r is Ok,
            r matches Ok(p) ==> p@ == rule_str@,
            r matches Err(e) ==> e@ == "Mismatched square brackets"@,
    {
        if count_chars(rule_str.as_str(), '[') != count_chars(rule_str.as_str(), ']') {
            return Err(String::from_str("Mismatched square brackets"));
        }
        Ok(rule_str)
    }
}

/// A grammar as configured: its start, its rules, its turning angle and its name.
pub struct Model {
    /// Generation 0.
    pub start: String,
    /// The rules, symbol by symbol.
    pub rules: RuleTable,
    /// The turning angle, in thousandths of a degree.
    pub delta: i64,
    /// The name under which the grammar is known.
    pub name: String,
}

} // verus!
