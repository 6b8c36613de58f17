//! The correctness checks that the scenarios make on their own outputs, and
//! the small sequential references they compare against.

use vstd::prelude::*;

verus! {

/// Whether every output after the warm-up run equals `reference`.
pub open spec fn all_match(outputs: Seq<i64>, reference: i64) -> bool {
    forall|run: int| 1 <= run < outputs.len() ==> #[trigger] outputs[run] == reference
}

/// Whether the two series agree in every run after the warm-up that both
/// have.
pub open spec fn pairwise_match(first: Seq<usize>, second: Seq<usize>) -> bool {
    forall|run: int|
        1 <= run < first.len() && run < second.len() ==> #[trigger] first[run] == second[run]
}

/// Checks the outputs of the measured runs against a reference value. The
/// warm-up run is not looked at.
pub fn outputs_match(outputs: &Vec<i64>, reference: i64) -> (ok: bool)
    ensures
        ok == all_match(outputs@, reference),
{
    let mut run: usize = 1;
    while run < outputs.len()
        invariant
            1 <= run,
            forall|r: int| 1 <= r < run && r < outputs@.len() ==> #[trigger] outputs@[r]
                == reference,
        decreases outputs@.len() - run,
    {
        if outputs[run] != reference {
            return false;
        }
        run += 1;
    }
    true
}

/// Checks the outputs of two series of measured runs against each other,
/// run by run. The warm-up runs are not looked at.
pub fn outputs_agree(first: &Vec<usize>, second: &Vec<usize>) -> (ok: bool)
    ensures
        ok == pairwise_match(first@, second@),
{
    let mut run: usize = 1;
    while run < first.len() && run < second.len()
        invariant
            1 <= run,
            forall|r: int|
                1 <= r < run && r < first@.len() && r < second@.len() ==> #[trigger] first@[r]
                    == second@[r],
        decreases first@.len() - run,
    {
        if first[run] != second[run] {
            return false;
        }
        run += 1;
    }
    true
}

/// The indices `0, 1, .., n - 1`, which is what `n` threads that each return
/// their own index give when joined in the order of their creation.
pub fn sequential_indices(n: usize) -> (indices: Vec<usize>)
    ensures
        indices@ == Seq::new(n as nat, |i: int| i as usize),
{
    let mut indices: Vec<usize> = Vec::new();
    let mut i: usize = 0;
    while i < n
        invariant
            i <= n,
            indices@ == Seq::new(i as nat, |k: int| k as usize),
        decreases n - i,
    {
        indices.push(i);
        i += 1;
        assert(indices@ =~= Seq::new(i as nat, |k: int| k as usize));
    }
    indices
}

/// The message of the greeting scenario.
pub fn hello_message() -> (message: String)
    ensures
        message@ == "Hello from thread!"@,
{
    "Hello from thread!".to_owned()
}

} // verus!
