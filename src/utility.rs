use vstd::prelude::*;

verus! {

/// Number of positions of `s` that hold `needle`.
pub open spec fn occurrences(s: Seq<char>, needle: char) -> nat
    decreases s.len(),
{
    if s.len() == 0 {
        0
    } else {
        occurrences(s.drop_last(), needle) + if s.last() == needle { 1nat } else { 0nat }
    }
}

/// Counts how many characters of `string` are equal to `needle`.
pub fn count_chars(string: &str, needle: char) -> (r: usize)
    requires
        string@.len() <= usize::MAX,
    ensures
        r == occurrences(string@, needle),
{
    let mut count: usize = 0;
    for c in it: string.chars()
        invariant
            it.seq() == string@,
            count == occurrences(string@.take(it.index() as int), needle),
            count <= it.index(),
            string@.len() <= usize::MAX,
    {
        proof {
            let i = it.index() as int;
            assert(string@.take(i + 1).drop_last() =~= string@.take(i));
        }
        if c == needle {
            count = count + 1;
        }
    }
    proof {
        assert(string@.take(string@.len() as int) =~= string@);
    }
    count
}

} // verus!
