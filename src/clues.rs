//! Clues: the run-length encoding of a line of cells, keeping the lengths
//! of the runs of filled cells.
use itertools::Itertools;
use vstd::prelude::*;

verus! {

/// A single clue: the length of one run of filled cells.
pub type Clue = u16;

/// The clues of one line, in the order their runs appear.
pub type Clues = Vec<Clue>;

/// The clues of a line as numbers.
pub open spec fn clue_values(c: Seq<Clue>) -> Seq<nat> {
    c.map_values(|v: Clue| v as nat)
}

/// The run-length encoding of a line: each maximal run of equal values
/// becomes one (length, value) pair, from left to right.
pub open spec fn runs(s: Seq<bool>) -> Seq<(nat, bool)>
    decreases s.len(),
{
    if s.len() == 0 {
        seq![]
    } else {
        let r = runs(s.drop_last());
        if r.len() > 0 && r.last().1 == s.last() {
            r.update(r.len() - 1, (r.last().0 + 1, s.last()))
        } else {
            r.push((1, s.last()))
        }
    }
}

/// The lengths of the filled runs, in order.
pub open spec fn filled_lengths(r: Seq<(nat, bool)>) -> Seq<nat>
    decreases r.len(),
{
    if r.len() == 0 {
        seq![]
    } else if r.last().1 {
        filled_lengths(r.drop_last()).push(r.last().0)
    } else {
        filled_lengths(r.drop_last())
    }
}

/// The clues of a line of "is filled" flags.
pub open spec fn clues_of(line: Seq<bool>) -> Seq<nat> {
    filled_lengths(runs(line))
}

/// Every run is at least one long and no longer than its line.
pub proof fn lemma_runs_bounded(s: Seq<bool>)
    ensures
        forall|j: int| 0 <= j < runs(s).len() ==> 1 <= #[trigger] runs(s)[j].0 <= s.len(),
    decreases s.len(),
{
    if s.len() > 0 {
        lemma_runs_bounded(s.drop_last());
        let r = runs(s.drop_last());
        assert forall|j: int| 0 <= j < runs(s).len() implies 1 <= #[trigger] runs(s)[j].0
            <= s.len() by {
            if j < r.len() {
                assert(1 <= r[j].0 <= s.len() - 1);
            }
        }
    }
}

/// A line without a filled cell has only blank runs.
pub proof fn lemma_runs_of_blank(s: Seq<bool>)
    requires
        forall|i: int| 0 <= i < s.len() ==> !s[i],
    ensures
        forall|j: int| 0 <= j < runs(s).len() ==> !(#[trigger] runs(s)[j]).1,
    decreases s.len(),
{
    if s.len() > 0 {
        lemma_runs_of_blank(s.drop_last());
        let r = runs(s.drop_last());
        assert(!s.last());
        assert forall|j: int| 0 <= j < runs(s).len() implies !(#[trigger] runs(s)[j]).1 by {
            if j < r.len() {
                assert(!r[j].1);
            }
        }
    }
}

proof fn lemma_filled_lengths_of_blank(r: Seq<(nat, bool)>)
    requires
        forall|j: int| 0 <= j < r.len() ==> !(#[trigger] r[j]).1,
    ensures
        filled_lengths(r) == Seq::<nat>::empty(),
    decreases r.len(),
{
    if r.len() > 0 {
        lemma_filled_lengths_of_blank(r.drop_last());
    }
}

/// A line without a filled cell has no clues at all (not a single zero).
pub proof fn lemma_blank_line_has_no_clues(line: Seq<bool>)
    requires
        forall|i: int| 0 <= i < line.len() ==> !line[i],
    ensures
        clues_of(line) == Seq::<nat>::empty(),
{
    lemma_runs_of_blank(line);
    lemma_filled_lengths_of_blank(runs(line));
}

/// Relies on itertools' `dedup_with_count`: it yields one `(count, value)`
/// pair for each maximal run of equal consecutive values, in order.
#[verifier::external_body]
fn run_lengths(line: &Vec<bool>) -> (r: Vec<(usize, bool)>)
    ensures
        r@.map_values(|p: (usize, bool)| (p.0 as nat, p.1)) == runs(line@),
{
    line.iter().copied().dedup_with_count().collect()
}

/// The clues of a line: the lengths of its runs of filled cells, in order.
pub fn derive_clues(line: &Vec<bool>) -> (r: Clues)
    requires
        line.len() <= u16::MAX,
    ensures
        clue_values(r@) == clues_of(line@),
{
    let pairs = run_lengths(line);
    let ghost rs = runs(line@);
    proof {
        lemma_runs_bounded(line@);
        assert(pairs@.len() == rs.len());
        assert forall|j: int| 0 <= j < pairs@.len() implies (#[trigger] pairs@[j]).0 as nat == rs[j].0
            && pairs@[j].1 == rs[j].1 by {
            assert(pairs@.map_values(|p: (usize, bool)| (p.0 as nat, p.1))[j] == rs[j]);
        }
    }
    let mut clues: Clues = Vec::new();
    let mut i: usize = 0;
    while i < pairs.len()
        invariant
            i <= pairs@.len(),
            pairs@.len() == rs.len(),
            rs == runs(line@),
            line.len() <= u16::MAX,
            forall|j: int| 0 <= j < rs.len() ==> 1 <= #[trigger] rs[j].0 <= line@.len(),
            forall|j: int| 0 <= j < pairs@.len() ==> (#[trigger] pairs@[j]).0 as nat == rs[j].0
                && pairs@[j].1 == rs[j].1,
            clue_values(clues@) == filled_lengths(rs.take(i as int)),
        decreases pairs@.len() - i,
    {
        let (count, filled) = pairs[i];
        assert(rs.take(i + 1).drop_last() =~= rs.take(i as int));
        if filled {
            assert(count <= u16::MAX) by {
                assert(pairs@[i as int].0 as nat == rs[i as int].0);
            }
            clues.push(count as Clue);
            assert(clue_values(clues@) =~= clue_values(clues@.drop_last()).push(count as nat));
        }
        i += 1;
    }
    assert(rs.take(pairs@.len() as int) =~= rs);
    clues
}

/// No line has more runs than cells, nor more clues than runs.
pub proof fn lemma_clues_len(line: Seq<bool>)
    ensures
        clues_of(line).len() <= line.len(),
{
    lemma_runs_len(line);
    lemma_filled_lengths_len(runs(line));
}

proof fn lemma_runs_len(s: Seq<bool>)
    ensures
        runs(s).len() <= s.len(),
    decreases s.len(),
{
    if s.len() > 0 {
        lemma_runs_len(s.drop_last());
    }
}

proof fn lemma_filled_lengths_len(r: Seq<(nat, bool)>)
    ensures
        filled_lengths(r).len() <= r.len(),
    decreases r.len(),
{
    if r.len() > 0 {
        lemma_filled_lengths_len(r.drop_last());
    }
}

} // verus!
