//! Suggesting where a status can be matched next, from the reports of
//! earlier status-match requests.

use itertools::Itertools;
use vstd::prelude::*;

use crate::entities::{Entities, NormalizedProgram, NormalizedReport, NormalizedStatus};
use crate::search::{
    contains_text, first_where, is_substring, lemma_first_where_at, lemma_first_where_none,
    lower_of, lowercase,
};

verus! {

/// Why no suggestion could be made.
#[derive(Clone, Copy, Debug, PartialEq, Eq, Structural)]
pub enum UsecaseError {
    ProgramNotFound,
    StatusNotFound,
}

/// A reachable status: its rank in its program, its id, and its index
/// among the catalogue's statuses.
pub type Candidate = (usize, usize, usize);

/// Inserts `x` into `s`, ordered by rank from highest, after every element
/// whose rank is not lower.
pub open spec fn rank_insert(s: Seq<Candidate>, x: Candidate) -> Seq<Candidate>
    decreases s.len(),
{
    if s.len() == 0 {
        seq![x]
    } else if s.last().0 >= x.0 {
        s.push(x)
    } else {
        rank_insert(s.drop_last(), x).push(s.last())
    }
}

/// `s` ordered by rank from highest; equal ranks keep their order.
pub open spec fn rank_sorted(s: Seq<Candidate>) -> Seq<Candidate>
    decreases s.len(),
{
    if s.len() == 0 {
        seq![]
    } else {
        rank_insert(rank_sorted(s.drop_last()), s.last())
    }
}

/// Whether some element of `s` has status id `id`.
pub open spec fn has_status(s: Seq<Candidate>, id: usize) -> bool {
    exists|k: int| 0 <= k < s.len() && #[trigger] s[k].1 == id
}

/// The first element of `s` for each status id, in order.
pub open spec fn first_of_each(s: Seq<Candidate>) -> Seq<Candidate>
    decreases s.len(),
{
    if s.len() == 0 {
        seq![]
    } else if has_status(s.drop_last(), s.last().1) {
        first_of_each(s.drop_last())
    } else {
        first_of_each(s.drop_last()).push(s.last())
    }
}

/// Whether every element's status index is below `n`.
pub open spec fn indices_below(s: Seq<Candidate>, n: int) -> bool {
    forall|k: int| 0 <= k < s.len() ==> (#[trigger] s[k]).2 < n
}

proof fn lemma_rank_insert_below(s: Seq<Candidate>, x: Candidate, n: int)
    requires
        indices_below(s, n),
        x.2 < n,
    ensures
        indices_below(rank_insert(s, x), n),
    decreases s.len(),
{
    if s.len() > 0 && s.last().0 < x.0 {
        lemma_rank_insert_below(s.drop_last(), x, n);
        let t = rank_insert(s.drop_last(), x);
        assert forall|k: int| 0 <= k < t.push(s.last()).len() implies (#[trigger] t.push(s.last())[k]).2 < n by {
            if k < t.len() {
                assert(t.push(s.last())[k] == t[k]);
            }
        }
    } else if s.len() > 0 {
        assert forall|k: int| 0 <= k < s.push(x).len() implies (#[trigger] s.push(x)[k]).2 < n by {
            if k < s.len() {
                assert(s.push(x)[k] == s[k]);
            }
        }
    }
}

proof fn lemma_rank_sorted_below(s: Seq<Candidate>, n: int)
    requires
        indices_below(s, n),
    ensures
        indices_below(rank_sorted(s), n),
    decreases s.len(),
{
    if s.len() > 0 {
        assert(indices_below(s.drop_last(), n)) by {
            assert forall|k: int| 0 <= k < s.drop_last().len() implies (#[trigger] s.drop_last()[k]).2 < n by {
                assert(s.drop_last()[k] == s[k]);
            }
        }
        lemma_rank_sorted_below(s.drop_last(), n);
        lemma_rank_insert_below(rank_sorted(s.drop_last()), s.last(), n);
    }
}

proof fn lemma_first_of_each_below(s: Seq<Candidate>, n: int)
    requires
        indices_below(s, n),
    ensures
        indices_below(first_of_each(s), n),
    decreases s.len(),
{
    if s.len() > 0 {
        assert(indices_below(s.drop_last(), n)) by {
            assert forall|k: int| 0 <= k < s.drop_last().len() implies (#[trigger] s.drop_last()[k]).2 < n by {
                assert(s.drop_last()[k] == s[k]);
            }
        }
        lemma_first_of_each_below(s.drop_last(), n);
        let t = first_of_each(s.drop_last());
        assert forall|k: int| 0 <= k < t.push(s.last()).len() implies (#[trigger] t.push(s.last())[k]).2 < n by {
            if k < t.len() {
                assert(t.push(s.last())[k] == t[k]);
            }
        }
    }
}

/// Orders two candidates by rank, highest first.
fn by_rank_desc(a: &Candidate, b: &Candidate) -> (r: core::cmp::Ordering)
    ensures
        a.0 > b.0 ==> r == core::cmp::Ordering::Less,
        a.0 < b.0 ==> r == core::cmp::Ordering::Greater,
        a.0 == b.0 ==> r == core::cmp::Ordering::Equal,
{
    if a.0 > b.0 {
        core::cmp::Ordering::Less
    } else if a.0 < b.0 {
        core::cmp::Ordering::Greater
    } else {
        core::cmp::Ordering::Equal
    }
}

/// Relies on `Itertools::sorted_by`, a stable sort: by rank from highest,
/// equal ranks in their original order.
#[verifier::external_body]
fn sort_by_rank(items: Vec<Candidate>) -> (r: Vec<Candidate>)
    ensures
        r@ == rank_sorted(items@),
{
    items.into_iter().sorted_by(|a, b| by_rank_desc(a, b)).collect()
}

/// Relies on `Itertools::unique_by`: keeps the first item of each status id, in order.
#[verifier::external_body]
fn unique_by_status(items: Vec<Candidate>) -> (r: Vec<Candidate>)
    ensures
        r@ == first_of_each(items@),
{
    items.into_iter().unique_by(|c| c.1).collect()
}

/// What can be suggested from a catalogue.
pub trait Usecase {
    /// The suggestions for a holder of `cur_status` in `cur_program`: the
    /// program and the status for each.
    spec fn next_steps(&self, cur_program: Seq<char>, cur_status: Seq<char>) -> Result<
        Seq<(NormalizedProgram, NormalizedStatus)>,
        UsecaseError,
    >;

    /// The statuses that holders of `cur_status` in `cur_program` have been
    /// matched to, each with its program. An unknown program or status, or
    /// a report that points to a missing status or program, is an error.
    fn suggest_next_step(&self, cur_program: &str, cur_status: &str) -> (r: Result<
        Vec<(&NormalizedProgram, &NormalizedStatus)>,
        UsecaseError,
    >)
        ensures
            r matches Ok(v) ==> (self.next_steps(cur_program@, cur_status@) matches Ok(s) && v@.len() == s.len()
                && forall|k: int| 0 <= k < s.len() ==> *(#[trigger] v@[k]).0 == s[k].0 && *v@[k].1 == s[k].1),
            r matches Err(e) ==> self.next_steps(cur_program@, cur_status@) == Err::<Seq<(NormalizedProgram, NormalizedStatus)>, UsecaseError>(e),
    ;
}

/// A catalogue held in memory.
pub struct UsecaseForMemory {
    pub programs: Vec<NormalizedProgram>,
    pub statuses: Vec<NormalizedStatus>,
    pub reports: Vec<NormalizedReport>,
}

impl UsecaseForMemory {
    /// The first program whose name holds `query`, ignoring case.
    pub open spec fn program_by_name(&self, query: Seq<char>) -> Option<int> {
        first_where(
            self.programs@.len() as int,
            |i: int| is_substring(lower_of(query), lower_of(self.programs@[i].name@)),
        )
    }

    /// The first status of program `program_id` named `query`, ignoring case.
    pub open spec fn status_by_name(&self, program_id: usize, query: Seq<char>) -> Option<int> {
        first_where(
            self.statuses@.len() as int,
            |j: int| self.statuses@[j].program_id == program_id && lower_of(self.statuses@[j].name@) == lower_of(query),
        )
    }

    /// The first status with id `id`.
    pub open spec fn status_by_id(&self, id: usize) -> Option<int> {
        first_where(self.statuses@.len() as int, |j: int| self.statuses@[j].id == id)
    }

    /// The first program with id `id`.
    pub open spec fn program_by_id(&self, id: usize) -> Option<int> {
        first_where(self.programs@.len() as int, |i: int| self.programs@[i].id == id)
    }

    /// The statuses reached by the first `n` reports from status `from`, in
    /// report order; nothing if one of them names no status.
    pub open spec fn candidates(&self, from: usize, n: int) -> Option<Seq<Candidate>>
        decreases n,
    {
        if n <= 0 {
            Some(seq![])
        } else {
            match self.candidates(from, n - 1) {
                None => None,
                Some(c) => {
                    let r = self.reports@[n - 1];
                    if r.from_status_id != from {
                        Some(c)
                    } else {
                        match self.status_by_id(r.to_status_id) {
                            None => None,
                            Some(j) => Some(c.push((self.statuses@[j].pos, r.to_status_id, j as usize))),
                        }
                    }
                },
            }
        }
    }

    /// The program and status for the first `n` targets; nothing if a
    /// status names no program.
    pub open spec fn resolved(&self, t: Seq<Candidate>, n: int) -> Option<Seq<(NormalizedProgram, NormalizedStatus)>>
        decreases n,
    {
        if n <= 0 {
            Some(seq![])
        } else {
            match self.resolved(t, n - 1) {
                None => None,
                Some(v) => {
                    let status = self.statuses@[t[n - 1].2 as int];
                    match self.program_by_id(status.program_id) {
                        None => None,
                        Some(i) => Some(v.push((self.programs@[i], status))),
                    }
                },
            }
        }
    }

    /// The suggestions from status `from`: the statuses its reports reach,
    /// highest rank first, each once, with their programs. A report from
    /// `from` that names no known status gives `StatusNotFound`, and a
    /// reached status whose program is unknown gives `ProgramNotFound`,
    /// where a catalogue without such dangling references answers.
    pub open spec fn steps_from(&self, from: usize) -> Result<Seq<(NormalizedProgram, NormalizedStatus)>, UsecaseError> {
        match self.candidates(from, self.reports@.len() as int) {
            None => Err(UsecaseError::StatusNotFound),
            Some(c) => {
                let t = first_of_each(rank_sorted(c));
                match self.resolved(t, t.len() as int) {
                    None => Err(UsecaseError::ProgramNotFound),
                    Some(v) => Ok(v),
                }
            },
        }
    }

    proof fn lemma_candidates_stay_none(&self, from: usize, k: int, n: int)
        requires
            0 <= k <= n,
            self.candidates(from, k) is None,
        ensures
            self.candidates(from, n) is None,
        decreases n - k,
    {
        if k < n {
            self.lemma_candidates_stay_none(from, k + 1, n);
        }
    }

    proof fn lemma_resolved_stays_none(&self, t: Seq<Candidate>, k: int, n: int)
        requires
            0 <= k <= n,
            self.resolved(t, k) is None,
        ensures
            self.resolved(t, n) is None,
        decreases n - k,
    {
        if k < n {
            self.lemma_resolved_stays_none(t, k + 1, n);
        }
    }

    /// A catalogue from loaded entities.
    pub fn load_from(entities: Entities) -> (r: Self)
        ensures
            r.programs@ == entities.0@,
            r.statuses@ == entities.1@,
            r.reports@ == entities.2@,
    {
        let (programs, statuses, reports) = entities;
        Self { programs, statuses, reports }
    }

    fn program_index_by_name(&self, query: &str) -> (r: Option<usize>)
        ensures
            r matches Some(i) ==> self.program_by_name(query@) == Some(i as int),
            r is None ==> self.program_by_name(query@) is None,
    {
        let q = lowercase(query);
        let ghost p = |i: int| is_substring(lower_of(query@), lower_of(self.programs@[i].name@));
        let mut i: usize = 0;
        while i < self.programs.len()
            invariant
                0 <= i <= self.programs@.len(),
                q@ == lower_of(query@),
                p == (|i: int| is_substring(lower_of(query@), lower_of(self.programs@[i].name@))),
                forall|j: int| 0 <= j < i ==> !#[trigger] p(j),
            decreases self.programs@.len() - i,
        {
            let name = lowercase(self.programs[i].name.as_str());
            if contains_text(name.as_str(), q.as_str()) {
                proof {
                    lemma_first_where_at(self.programs@.len() as int, p, i as int);
                }
                return Some(i);
            }
            i = i + 1;
        }
        proof {
            lemma_first_where_none(self.programs@.len() as int, p);
        }
        None
    }

    fn status_index_by_name(&self, program_id: usize, query: &str) -> (r: Option<usize>)
        ensures
            r matches Some(j) ==> self.status_by_name(program_id, query@) == Some(j as int),
            r is None ==> self.status_by_name(program_id, query@) is None,
    {
        let q = lowercase(query);
        let ghost p = |j: int| self.statuses@[j].program_id == program_id && lower_of(self.statuses@[j].name@) == lower_of(query@);
        let mut j: usize = 0;
        while j < self.statuses.len()
            invariant
                0 <= j <= self.statuses@.len(),
                q@ == lower_of(query@),
                p == (|j: int| self.statuses@[j].program_id == program_id && lower_of(self.statuses@[j].name@) == lower_of(query@)),
                forall|k: int| 0 <= k < j ==> !#[trigger] p(k),
            decreases self.statuses@.len() - j,
        {
            if self.statuses[j].program_id == program_id {
                let name = lowercase(self.statuses[j].name.as_str());
                if name == q {
                    proof {
                        lemma_first_where_at(self.statuses@.len() as int, p, j as int);
                    }
                    return Some(j);
                }
            }
            j = j + 1;
        }
        proof {
            lemma_first_where_none(self.statuses@.len() as int, p);
        }
        None
    }

    fn status_index_by_id(&self, id: usize) -> (r: Option<usize>)
        ensures
            r matches Some(j) ==> self.status_by_id(id) == Some(j as int),
            r is None ==> self.status_by_id(id) is None,
    {
        let ghost p = |j: int| self.statuses@[j].id == id;
        let mut j: usize = 0;
        while j < self.statuses.len()
            invariant
                0 <= j <= self.statuses@.len(),
                p == (|j: int| self.statuses@[j].id == id),
                forall|k: int| 0 <= k < j ==> !#[trigger] p(k),
            decreases self.statuses@.len() - j,
        {
            if self.statuses[j].id == id {
                proof {
                    lemma_first_where_at(self.statuses@.len() as int, p, j as int);
                }
                return Some(j);
            }
            j = j + 1;
        }
        proof {
            lemma_first_where_none(self.statuses@.len() as int, p);
        }
        None
    }

    fn program_index_by_id(&self, id: usize) -> (r: Option<usize>)
        ensures
            r matches Some(i) ==> self.program_by_id(id) == Some(i as int),
            r is None ==> self.program_by_id(id) is None,
    {
        let ghost p = |i: int| self.programs@[i].id == id;
        let mut i: usize = 0;
        while i < self.programs.len()
            invariant
                0 <= i <= self.programs@.len(),
                p == (|i: int| self.programs@[i].id == id),
                forall|k: int| 0 <= k < i ==> !#[trigger] p(k),
            decreases self.programs@.len() - i,
        {
            if self.programs[i].id == id {
                proof {
                    lemma_first_where_at(self.programs@.len() as int, p, i as int);
                }
                return Some(i);
            }
            i = i + 1;
        }
        proof {
            lemma_first_where_none(self.programs@.len() as int, p);
        }
        None
    }

    /// The first program whose name holds `program`, ignoring case.
    pub fn find_program_by_name(&self, program: &str) -> (r: Result<&NormalizedProgram, UsecaseError>)
        ensures
            r matches Ok(p) ==> (self.program_by_name(program@) matches Some(i) && *p == self.programs@[i]),
            r is Err ==> self.program_by_name(program@) is None && r == Err::<&NormalizedProgram, UsecaseError>(UsecaseError::ProgramNotFound),
    {
        match self.program_index_by_name(program) {
            Some(i) => Ok(&self.programs[i]),
            None => Err(UsecaseError::ProgramNotFound),
        }
    }

    /// The first status of `program` named `status`, ignoring case.
    pub fn find_status_by_name(&self, program: &NormalizedProgram, status: &str) -> (r: Result<&NormalizedStatus, UsecaseError>)
        ensures
            r matches Ok(s) ==> (self.status_by_name(program.id, status@) matches Some(j) && *s == self.statuses@[j]),
            r is Err ==> self.status_by_name(program.id, status@) is None && r == Err::<&NormalizedStatus, UsecaseError>(UsecaseError::StatusNotFound),
    {
        match self.status_index_by_name(program.id, status) {
            Some(j) => Ok(&self.statuses[j]),
            None => Err(UsecaseError::StatusNotFound),
        }
    }

    /// The first status with id `status_id`.
    pub fn find_status_by_id(&self, status_id: usize) -> (r: Result<&NormalizedStatus, UsecaseError>)
        ensures
            r matches Ok(s) ==> (self.status_by_id(status_id) matches Some(j) && *s == self.statuses@[j]),
            r is Err ==> self.status_by_id(status_id) is None && r == Err::<&NormalizedStatus, UsecaseError>(UsecaseError::StatusNotFound),
    {
        match self.status_index_by_id(status_id) {
            Some(j) => Ok(&self.statuses[j]),
            None => Err(UsecaseError::StatusNotFound),
        }
    }

    /// The first program with id `program_id`.
    pub fn find_program_by_id(&self, program_id: usize) -> (r: Result<&NormalizedProgram, UsecaseError>)
        ensures
            r matches Ok(p) ==> (self.program_by_id(program_id) matches Some(i) && *p == self.programs@[i]),
            r is Err ==> self.program_by_id(program_id) is None && r == Err::<&NormalizedProgram, UsecaseError>(UsecaseError::ProgramNotFound),
    {
        match self.program_index_by_id(program_id) {
            Some(i) => Ok(&self.programs[i]),
            None => Err(UsecaseError::ProgramNotFound),
        }
    }

    /// The statuses reached by reports from status `from`, in report order.
    fn collect_candidates(&self, from: usize) -> (r: Option<Vec<Candidate>>)
        ensures
            r matches Some(c) ==> self.candidates(from, self.reports@.len() as int) == Some(c@)
                && indices_below(c@, self.statuses@.len() as int),
            r is None ==> self.candidates(from, self.reports@.len() as int) is None,
    {
        let mut out: Vec<Candidate> = Vec::new();
        let mut i: usize = 0;
        while i < self.reports.len()
            invariant
                0 <= i <= self.reports@.len(),
                self.candidates(from, i as int) == Some(out@),
                indices_below(out@, self.statuses@.len() as int),
            decreases self.reports@.len() - i,
        {
            let r = &self.reports[i];
            if r.from_status_id == from {
                match self.status_index_by_id(r.to_status_id) {
                    None => {
                        proof {
                            self.lemma_candidates_stay_none(from, i as int + 1, self.reports@.len() as int);
                        }
                        return None;
                    },
                    Some(j) => {
                        let ghost before = out@;
                        out.push((self.statuses[j].pos, r.to_status_id, j));
                        assert forall|k: int| 0 <= k < out@.len() implies (#[trigger] out@[k]).2 < self.statuses@.len() by {
                            if k < before.len() {
                                assert(out@[k] == before[k]);
                            }
                        }
                    },
                }
            }
            i = i + 1;
        }
        Some(out)
    }

    fn suggest_in_memory(&self, cur_program: &str, cur_status: &str) -> (r: Result<
        Vec<(&NormalizedProgram, &NormalizedStatus)>,
        UsecaseError,
    >)
        ensures
            r matches Ok(v) ==> (self.next_steps(cur_program@, cur_status@) matches Ok(s) && v@.len() == s.len()
                && forall|k: int| 0 <= k < s.len() ==> *(#[trigger] v@[k]).0 == s[k].0 && *v@[k].1 == s[k].1),
            r matches Err(e) ==> self.next_steps(cur_program@, cur_status@) == Err::<Seq<(NormalizedProgram, NormalizedStatus)>, UsecaseError>(e),
    {
        let program = self.find_program_by_name(cur_program)?;
        let status = self.find_status_by_name(program, cur_status)?;
        let cands = match self.collect_candidates(status.id) {
            Some(c) => c,
            None => { return Err(UsecaseError::StatusNotFound); },
        };
        proof {
            lemma_rank_sorted_below(cands@, self.statuses@.len() as int);
            lemma_first_of_each_below(rank_sorted(cands@), self.statuses@.len() as int);
        }
        let ghost c = cands@;
        assert(self.next_steps(cur_program@, cur_status@) == self.steps_from(status.id));
        let targets = unique_by_status(sort_by_rank(cands));
        let mut out: Vec<(&NormalizedProgram, &NormalizedStatus)> = Vec::new();
        let ghost t = targets@;
        let mut k: usize = 0;
        while k < targets.len()
            invariant
                t == targets@,
                t == first_of_each(rank_sorted(c)),
                self.candidates(status.id, self.reports@.len() as int) == Some(c),
                self.next_steps(cur_program@, cur_status@) == self.steps_from(status.id),
                indices_below(t, self.statuses@.len() as int),
                0 <= k <= t.len(),
                self.resolved(t, k as int) matches Some(v) && v.len() == out@.len()
                    && forall|m: int| 0 <= m < v.len() ==> *(#[trigger] out@[m]).0 == v[m].0 && *out@[m].1 == v[m].1,
            decreases t.len() - k,
        {
            let to_status = &self.statuses[targets[k].2];
            let to_program = match self.program_index_by_id(to_status.program_id) {
                Some(i) => &self.programs[i],
                None => {
                    proof {
                        assert(self.resolved(t, k as int + 1) is None);
                        self.lemma_resolved_stays_none(t, k as int + 1, t.len() as int);
                        assert(self.steps_from(status.id) == Err::<Seq<(NormalizedProgram, NormalizedStatus)>, UsecaseError>(UsecaseError::ProgramNotFound));
                    }
                    return Err(UsecaseError::ProgramNotFound);
                },
            };
            out.push((to_program, to_status));
            k = k + 1;
        }
        Ok(out)
    }
}

impl Usecase for UsecaseForMemory {
    open spec fn next_steps(&self, cur_program: Seq<char>, cur_status: Seq<char>) -> Result<
        Seq<(NormalizedProgram, NormalizedStatus)>,
        UsecaseError,
    > {
        match self.program_by_name(cur_program) {
            None => Err(UsecaseError::ProgramNotFound),
            Some(i) => match self.status_by_name(self.programs@[i].id, cur_status) {
                None => Err(UsecaseError::StatusNotFound),
                Some(j) => self.steps_from(self.statuses@[j].id),
            },
        }
    }

    fn suggest_next_step(&self, cur_program: &str, cur_status: &str) -> (r: Result<
        Vec<(&NormalizedProgram, &NormalizedStatus)>,
        UsecaseError,
    >) {
        self.suggest_in_memory(cur_program, cur_status)
    }
}

} // verus!
