//! The catalogue in its first, simpler form: programs numbered in order of
//! first appearance, and statuses found through their program's name.

use vstd::prelude::*;

use crate::entities::NormalizedProgram;
use crate::scrape::{first_named_rows, lemma_first_named_rows_below, unique_name_rows, ProgramAndStatus};
use crate::search::{first_where, lemma_first_where_at, lemma_first_where_none};

verus! {

/// A status ranked within its program.
pub struct NormalizedStatus {
    pub program_id: usize,
    pub pos: usize,
    pub name: String,
}

/// One program per distinct name, numbered from 0 in order of first appearance.
pub fn normalize_programs(program_and_statuses: &Vec<ProgramAndStatus>) -> (r: Vec<NormalizedProgram>)
    ensures
        ({
            let firsts = first_named_rows(program_and_statuses@, program_and_statuses@.len() as int);
            &&& r@.len() == firsts.len()
            &&& forall|k: int| 0 <= k < firsts.len() ==> (#[trigger] r@[k]).id == k
                && r@[k].name == program_and_statuses@[firsts[k] as int].name
        }),
{
    let rows = program_and_statuses;
    let firsts = unique_name_rows(rows);
    proof {
        lemma_first_named_rows_below(rows@, rows@.len() as int);
    }
    let mut out: Vec<NormalizedProgram> = Vec::new();
    let mut k: usize = 0;
    while k < firsts.len()
        invariant
            firsts@ == first_named_rows(rows@, rows@.len() as int),
            forall|m: int| 0 <= m < firsts@.len() ==> (#[trigger] firsts@[m]) < rows@.len(),
            0 <= k <= firsts@.len(),
            out@.len() == k,
            forall|m: int| 0 <= m < k ==> (#[trigger] out@[m]).id == m && out@[m].name == rows@[firsts@[m] as int].name,
        decreases firsts@.len() - k,
    {
        let row = &rows[firsts[k]];
        out.push(NormalizedProgram { id: k, name: row.name.clone() });
        k = k + 1;
    }
    out
}

/// The index of the first row named `name`.
pub open spec fn row_by_name(rows: Seq<ProgramAndStatus>, name: Seq<char>) -> Option<int> {
    first_where(rows.len() as int, |i: int| rows[i].name@ == name)
}

/// The statuses of `row` under program `program_id`, ranked by their order.
pub open spec fn ranked_statuses(program_id: usize, row: ProgramAndStatus) -> Seq<NormalizedStatus> {
    Seq::new(
        row.statuses@.len(),
        |i: int| NormalizedStatus { program_id, pos: i as usize, name: row.statuses@[i].name },
    )
}

/// The statuses of the first `n` programs, each program's in its row's order.
pub open spec fn statuses_of(programs: Seq<NormalizedProgram>, rows: Seq<ProgramAndStatus>, n: int) -> Seq<NormalizedStatus>
    decreases n,
{
    if n <= 0 {
        seq![]
    } else {
        let p = programs[n - 1];
        statuses_of(programs, rows, n - 1) + ranked_statuses(p.id, rows[row_by_name(rows, p.name@)->0])
    }
}

fn row_index_by_name(rows: &Vec<ProgramAndStatus>, name: &String) -> (r: Option<usize>)
    ensures
        r matches Some(i) ==> row_by_name(rows@, name@) == Some(i as int),
        r is None ==> row_by_name(rows@, name@) is None,
{
    let ghost p = |i: int| rows@[i].name@ == name@;
    let mut i: usize = 0;
    while i < rows.len()
        invariant
            0 <= i <= rows@.len(),
            p == (|i: int| rows@[i].name@ == name@),
            forall|k: int| 0 <= k < i ==> !#[trigger] p(k),
        decreases rows@.len() - i,
    {
        if rows[i].name == *name {
            proof {
                lemma_first_where_at(rows@.len() as int, p, i as int);
            }
            return Some(i);
        }
        i = i + 1;
    }
    proof {
        lemma_first_where_none(rows@.len() as int, p);
    }
    None
}

/// The statuses of each program, in program order, ranked within each
/// program by their order in the row of the same name. Every program must
/// have such a row.
pub fn normalize_statuses(programs: &Vec<NormalizedProgram>, program_and_statuses: &Vec<ProgramAndStatus>) -> (r: Vec<NormalizedStatus>)
    requires
        forall|k: int| 0 <= k < programs@.len() ==> #[trigger] row_by_name(program_and_statuses@, programs@[k].name@) is Some,
    ensures
        r@ == statuses_of(programs@, program_and_statuses@, programs@.len() as int),
{
    let rows = program_and_statuses;
    let mut out: Vec<NormalizedStatus> = Vec::new();
    let mut k: usize = 0;
    while k < programs.len()
        invariant
            forall|m: int| 0 <= m < programs@.len() ==> #[trigger] row_by_name(rows@, programs@[m].name@) is Some,
            0 <= k <= programs@.len(),
            out@ == statuses_of(programs@, rows@, k as int),
        decreases programs@.len() - k,
    {
        let program = &programs[k];
        assert(row_by_name(rows@, programs@[k as int].name@) is Some);
        let ri = match row_index_by_name(rows, &program.name) {
            Some(i) => i,
            None => { return out; },
        };
        let row = &rows[ri];
        let ghost base = out@;
        let mut i: usize = 0;
        while i < row.statuses.len()
            invariant
                0 <= i <= row.statuses@.len(),
                out@ == base + ranked_statuses(program.id, *row).subrange(0, i as int),
            decreases row.statuses@.len() - i,
        {
            let s = &row.statuses[i];
            out.push(NormalizedStatus { program_id: program.id, pos: i, name: s.name.clone() });
            assert(ranked_statuses(program.id, *row).subrange(0, i as int + 1) =~= ranked_statuses(program.id, *row).subrange(0, i as int).push(ranked_statuses(program.id, *row)[i as int]));
            assert(out@ =~= base + ranked_statuses(program.id, *row).subrange(0, i as int + 1));
            i = i + 1;
        }
        assert(ranked_statuses(program.id, *row).subrange(0, i as int) =~= ranked_statuses(program.id, *row));
        k = k + 1;
    }
    out
}

} // verus!
