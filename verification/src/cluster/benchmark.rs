//! The repetition count of a cluster-signal measurement: a measurement
//! repeats its workload at least once.

use vstd::prelude::*;

verus! {

/// The repetition count a measurement runs, refused when it is zero.
pub fn measure_repetitions(repetitions: usize) -> (checked: Result<usize, &'static str>)
    ensures
        match checked {
            Ok(count) => repetitions > 0 && count == repetitions,
            Err(message) => repetitions == 0 && message@ == "repetitions must be positive"@,
        },
{
    if repetitions == 0 {
        return Err("repetitions must be positive");
    }
    Ok(repetitions)
}

} // verus!
