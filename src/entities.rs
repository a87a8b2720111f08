//! The loyalty-status catalogue: programs, their statuses in order, and
//! reports of one status being matched to another.

use vstd::prelude::*;

verus! {

/// A loyalty program.
pub struct NormalizedProgram {
    pub id: usize,
    pub name: String,
}

/// A status of a program; `pos` is its rank within the program, from 0.
pub struct NormalizedStatus {
    pub id: usize,
    pub program_id: usize,
    pub pos: usize,
    pub name: String,
}

/// How a status-match request was answered.
#[allow(non_camel_case_types)]
#[derive(Clone, Copy, Debug, PartialEq, Eq, Structural)]
pub enum ReportResult {
    MATCH,
    DENY,
    CHALLENGE,
}

/// The name under which reports are stored.
pub type NormalizedReportResult = ReportResult;

/// A report that holders of one status asked for another.
pub struct NormalizedReport {
    pub id: usize,
    pub from_status_id: usize,
    pub to_status_id: usize,
    pub result: ReportResult,
}

/// Programs, statuses and reports, as loaded together.
pub type Entities = (Vec<NormalizedProgram>, Vec<NormalizedStatus>, Vec<NormalizedReport>);

} // verus!
