//! The entry point for status-match suggestions over any catalogue.

use vstd::prelude::*;

use crate::entities::{NormalizedProgram, NormalizedStatus};
use crate::usecase::{Usecase, UsecaseError};

verus! {

/// The statuses that holders of `cur_status` in `cur_program` can be matched
/// to, each with its program, as the catalogue suggests them.
pub fn suggest_next_step<'a, U: Usecase>(usecase: &'a U, cur_program: &str, cur_status: &str) -> (r: Result<
    Vec<(&'a NormalizedProgram, &'a NormalizedStatus)>,
    UsecaseError,
>)
    ensures
        r matches Ok(v) ==> (usecase.next_steps(cur_program@, cur_status@) matches Ok(s) && v@.len() == s.len()
            && forall|k: int| 0 <= k < s.len() ==> *(#[trigger] v@[k]).0 == s[k].0 && *v@[k].1 == s[k].1),
        r matches Err(e) ==> usecase.next_steps(cur_program@, cur_status@) == Err::<Seq<(NormalizedProgram, NormalizedStatus)>, UsecaseError>(e),
{
    usecase.suggest_next_step(cur_program, cur_status)
}

} // verus!
