//! Turning the raw catalogue, as the status-match site publishes it, into
//! normalized programs, statuses and reports.

use itertools::Itertools;
use vstd::prelude::*;

use crate::entities::{NormalizedProgram, NormalizedReport, NormalizedStatus, ReportResult};
use crate::search::{first_where, lemma_first_where_at, lemma_first_where_none};

verus! {

/// A status as listed under its program, lowest first.
pub struct Status {
    pub id: usize,
    pub name: String,
}

/// A program with its statuses.
pub struct ProgramAndStatus {
    pub id: usize,
    pub name: String,
    pub statuses: Vec<Status>,
}

/// A status-match report, naming programs and statuses by their names.
pub struct Report {
    pub id: usize,
    pub result: ReportResult,
    pub from_program: Option<String>,
    pub from_status: Option<String>,
    pub to_program: Option<String>,
    pub to_status: Option<String>,
}

/// The indices, below `n`, of the rows whose name no earlier row has.
pub open spec fn first_named_rows(rows: Seq<ProgramAndStatus>, n: int) -> Seq<usize>
    decreases n,
{
    if n <= 0 {
        seq![]
    } else if exists|j: int| 0 <= j < n - 1 && #[trigger] rows[j].name@ == rows[n - 1].name@ {
        first_named_rows(rows, n - 1)
    } else {
        first_named_rows(rows, n - 1).push((n - 1) as usize)
    }
}

/// Relies on `Itertools::unique_by` keyed by the row's name: the first row
/// of each name, in order.
#[verifier::external_body]
pub(crate) fn unique_name_rows(rows: &Vec<ProgramAndStatus>) -> (r: Vec<usize>)
    ensures
        r@ == first_named_rows(rows@, rows@.len() as int),
{
    (0..rows.len()).unique_by(|i| &rows[*i].name).collect()
}

/// One program per distinct name, keeping the first row's id.
pub fn normalize_programs(program_and_statuses: &Vec<ProgramAndStatus>) -> (r: Vec<NormalizedProgram>)
    ensures
        ({
            let firsts = first_named_rows(program_and_statuses@, program_and_statuses@.len() as int);
            &&& r@.len() == firsts.len()
            &&& forall|k: int| 0 <= k < firsts.len() ==> (#[trigger] r@[k]).id == program_and_statuses@[firsts[k] as int].id
                && r@[k].name == program_and_statuses@[firsts[k] as int].name
        }),
{
    let rows = program_and_statuses;
    let firsts = unique_name_rows(rows);
    proof {
        lemma_first_named_rows_below(rows@, rows@.len() as int);
    }
    let mut out: Vec<NormalizedProgram> = Vec::new();
    let mut k: usize = 0;
    while k < firsts.len()
        invariant
            firsts@ == first_named_rows(rows@, rows@.len() as int),
            forall|m: int| 0 <= m < firsts@.len() ==> (#[trigger] firsts@[m]) < rows@.len(),
            0 <= k <= firsts@.len(),
            out@.len() == k,
            forall|m: int| 0 <= m < k ==> (#[trigger] out@[m]).id == rows@[firsts@[m] as int].id
                && out@[m].name == rows@[firsts@[m] as int].name,
        decreases firsts@.len() - k,
    {
        let row = &rows[firsts[k]];
        out.push(NormalizedProgram { id: row.id, name: row.name.clone() });
        k = k + 1;
    }
    out
}

pub(crate) proof fn lemma_first_named_rows_below(rows: Seq<ProgramAndStatus>, n: int)
    requires
        n <= rows.len(),
    ensures
        forall|m: int| 0 <= m < first_named_rows(rows, n).len() ==> (#[trigger] first_named_rows(rows, n)[m]) < n,
    decreases n,
{
    if n > 0 {
        lemma_first_named_rows_below(rows, n - 1);
        let p = first_named_rows(rows, n - 1);
        assert forall|m: int| 0 <= m < p.push((n - 1) as usize).len() implies #[trigger] p.push((n - 1) as usize)[m] < n by {
            if m < p.len() {
                assert(p.push((n - 1) as usize)[m] == p[m]);
            }
        }
    }
}

/// The index of the first row with id `id`.
pub open spec fn row_by_id(rows: Seq<ProgramAndStatus>, id: usize) -> Option<int> {
    first_where(rows.len() as int, |i: int| rows[i].id == id)
}

/// The normalized statuses of `row` under program `program_id`, ranked by their order.
pub open spec fn ranked_statuses(program_id: usize, row: ProgramAndStatus) -> Seq<NormalizedStatus> {
    Seq::new(
        row.statuses@.len(),
        |i: int| NormalizedStatus {
            id: row.statuses@[i].id,
            program_id,
            pos: i as usize,
            name: row.statuses@[i].name,
        },
    )
}

/// The statuses of the first `n` programs, each program's in its row's order.
pub open spec fn statuses_of(programs: Seq<NormalizedProgram>, rows: Seq<ProgramAndStatus>, n: int) -> Seq<NormalizedStatus>
    decreases n,
{
    if n <= 0 {
        seq![]
    } else {
        let p = programs[n - 1];
        statuses_of(programs, rows, n - 1) + ranked_statuses(p.id, rows[row_by_id(rows, p.id)->0])
    }
}

fn row_index_by_id(rows: &Vec<ProgramAndStatus>, id: usize) -> (r: Option<usize>)
    ensures
        r matches Some(i) ==> row_by_id(rows@, id) == Some(i as int),
        r is None ==> row_by_id(rows@, id) is None,
{
    let ghost p = |i: int| rows@[i].id == id;
    let mut i: usize = 0;
    while i < rows.len()
        invariant
            0 <= i <= rows@.len(),
            p == (|i: int| rows@[i].id == id),
            forall|k: int| 0 <= k < i ==> !#[trigger] p(k),
        decreases rows@.len() - i,
    {
        if rows[i].id == id {
            proof {
                lemma_first_where_at(rows@.len() as int, p, i as int);
            }
            return Some(i);
        }
        i = i + 1;
    }
    proof {
        lemma_first_where_none(rows@.len() as int, p);
    }
    None
}

/// The statuses of each program, in program order, ranked within each
/// program by their order in the program's row. Every program must have a row.
pub fn normalize_statuses(programs: &Vec<NormalizedProgram>, program_and_statuses: &Vec<ProgramAndStatus>) -> (r: Vec<NormalizedStatus>)
    requires
        forall|k: int| 0 <= k < programs@.len() ==> #[trigger] row_by_id(program_and_statuses@, programs@[k].id) is Some,
    ensures
        r@ == statuses_of(programs@, program_and_statuses@, programs@.len() as int),
{
    let rows = program_and_statuses;
    let mut out: Vec<NormalizedStatus> = Vec::new();
    let mut k: usize = 0;
    while k < programs.len()
        invariant
            forall|m: int| 0 <= m < programs@.len() ==> #[trigger] row_by_id(rows@, programs@[m].id) is Some,
            0 <= k <= programs@.len(),
            out@ == statuses_of(programs@, rows@, k as int),
        decreases programs@.len() - k,
    {
        let program = &programs[k];
        assert(row_by_id(rows@, programs@[k as int].id) is Some);
        let ri = match row_index_by_id(rows, program.id) {
            Some(i) => i,
            None => { return out; },
        };
        let row = &rows[ri];
        let ghost base = out@;
        let mut i: usize = 0;
        while i < row.statuses.len()
            invariant
                0 <= i <= row.statuses@.len(),
                out@ == base + ranked_statuses(program.id, *row).subrange(0, i as int),
            decreases row.statuses@.len() - i,
        {
            let s = &row.statuses[i];
            out.push(NormalizedStatus { id: s.id, program_id: program.id, pos: i, name: s.name.clone() });
            assert(ranked_statuses(program.id, *row).subrange(0, i as int + 1) =~= ranked_statuses(program.id, *row).subrange(0, i as int).push(ranked_statuses(program.id, *row)[i as int]));
            assert(out@ =~= base + ranked_statuses(program.id, *row).subrange(0, i as int + 1));
            i = i + 1;
        }
        assert(ranked_statuses(program.id, *row).subrange(0, i as int) =~= ranked_statuses(program.id, *row));
        k = k + 1;
    }
    out
}

/// The id of the status named `status` in the program named `program`,
/// names compared exactly; nothing when either is absent or unknown.
pub open spec fn status_id_of(
    programs: Seq<NormalizedProgram>,
    statuses: Seq<NormalizedStatus>,
    program: Option<String>,
    status: Option<String>,
) -> Option<usize> {
    match (program, status) {
        (Some(pn), Some(sn)) => match first_where(programs.len() as int, |i: int| programs[i].name@ == pn@) {
            None => None,
            Some(pi) => match first_where(
                statuses.len() as int,
                |j: int| statuses[j].program_id == programs[pi].id && statuses[j].name@ == sn@,
            ) {
                None => None,
                Some(sj) => Some(statuses[sj].id),
            },
        },
        _ => None,
    }
}

/// The id of the status named `status` in the program named `program`. A
/// report that leaves either out, or names one that the catalogue lacks,
/// has none.
pub fn find_status_id(
    programs: &Vec<NormalizedProgram>,
    statuses: &Vec<NormalizedStatus>,
    program: &Option<String>,
    status: &Option<String>,
) -> (r: Option<usize>)
    ensures
        r == status_id_of(programs@, statuses@, *program, *status),
{
    let (pn, sn) = match (program, status) {
        (Some(p), Some(s)) => (p, s),
        _ => { return None; },
    };
    let pi = match program_index_by_name(programs, pn) {
        Some(pi) => pi,
        None => { return None; },
    };
    let pid = programs[pi].id;
    let ghost sp = |j: int| statuses@[j].program_id == programs@[pi as int].id && statuses@[j].name@ == sn@;
    let mut j: usize = 0;
    while j < statuses.len()
        invariant
            *program == Some(*pn),
            *status == Some(*sn),
            first_where(programs@.len() as int, |i: int| programs@[i].name@ == pn@) == Some(pi as int),
            0 <= pi < programs@.len(),
            0 <= j <= statuses@.len(),
            pid == programs@[pi as int].id,
            sp == (|j: int| statuses@[j].program_id == programs@[pi as int].id && statuses@[j].name@ == sn@),
            forall|k: int| 0 <= k < j ==> !#[trigger] sp(k),
        decreases statuses@.len() - j,
    {
        if statuses[j].program_id == pid && statuses[j].name == *sn {
            proof {
                lemma_first_where_at(statuses@.len() as int, sp, j as int);
                assert(*program == Some(*pn));
                assert(*status == Some(*sn));
                assert(first_where(programs@.len() as int, |i: int| programs@[i].name@ == pn@) == Some(pi as int));
                assert(first_where(
                    statuses@.len() as int,
                    |j: int| statuses@[j].program_id == programs@[pi as int].id && statuses@[j].name@ == sn@,
                ) == Some(j as int));
            }
            return Some(statuses[j].id);
        }
        j = j + 1;
    }
    proof {
        lemma_first_where_none(statuses@.len() as int, sp);
    }
    None
}

fn program_index_by_name(programs: &Vec<NormalizedProgram>, name: &String) -> (r: Option<usize>)
    ensures
        r matches Some(i) ==> i < programs@.len() && first_where(programs@.len() as int, |i: int| programs@[i].name@ == name@) == Some(i as int),
        r is None ==> first_where(programs@.len() as int, |i: int| programs@[i].name@ == name@) is None,
{
    let ghost pp = |i: int| programs@[i].name@ == name@;
    let mut i: usize = 0;
    while i < programs.len()
        invariant
            0 <= i <= programs@.len(),
            pp == (|i: int| programs@[i].name@ == name@),
            forall|k: int| 0 <= k < i ==> !#[trigger] pp(k),
        decreases programs@.len() - i,
    {
        if programs[i].name == *name {
            proof {
                lemma_first_where_at(programs@.len() as int, pp, i as int);
            }
            return Some(i);
        }
        i = i + 1;
    }
    proof {
        lemma_first_where_none(programs@.len() as int, pp);
    }
    None
}

/// The normalized form of the first `n` reports: those whose two statuses
/// are both known, in order.
pub open spec fn reports_of(
    programs: Seq<NormalizedProgram>,
    statuses: Seq<NormalizedStatus>,
    reports: Seq<Report>,
    n: int,
) -> Seq<NormalizedReport>
    decreases n,
{
    if n <= 0 {
        seq![]
    } else {
        let rest = reports_of(programs, statuses, reports, n - 1);
        let r = reports[n - 1];
        match (
            status_id_of(programs, statuses, r.from_program, r.from_status),
            status_id_of(programs, statuses, r.to_program, r.to_status),
        ) {
            (Some(from), Some(to)) => rest.push(
                NormalizedReport { id: r.id, from_status_id: from, to_status_id: to, result: r.result },
            ),
            _ => rest,
        }
    }
}

/// The reports whose two statuses are both known, with statuses by id.
pub fn normalize_reports(
    programs: &Vec<NormalizedProgram>,
    statuses: &Vec<NormalizedStatus>,
    reports: &Vec<Report>,
) -> (r: Vec<NormalizedReport>)
    ensures
        r@ == reports_of(programs@, statuses@, reports@, reports@.len() as int),
{
    let mut out: Vec<NormalizedReport> = Vec::new();
    let mut i: usize = 0;
    while i < reports.len()
        invariant
            0 <= i <= reports@.len(),
            out@ == reports_of(programs@, statuses@, reports@, i as int),
        decreases reports@.len() - i,
    {
        let report = &reports[i];
        let from = find_status_id(programs, statuses, &report.from_program, &report.from_status);
        let to = find_status_id(programs, statuses, &report.to_program, &report.to_status);
        match (from, to) {
            (Some(f), Some(t)) => {
                out.push(NormalizedReport { id: report.id, from_status_id: f, to_status_id: t, result: report.result });
            },
            _ => {},
        }
        i = i + 1;
    }
    out
}

} // verus!
