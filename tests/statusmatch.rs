use cachet::entities::{NormalizedProgram, NormalizedReport, NormalizedStatus, ReportResult};
use cachet::statusmatch::suggest_next_step;
use cachet::usecase::{Usecase, UsecaseError, UsecaseForMemory};

fn create_program_and_statuses(
    program_id: usize,
    program: &str,
    statuses: &[(usize, &str)],
) -> (NormalizedProgram, Vec<NormalizedStatus>) {
    let program = NormalizedProgram {
        id: program_id,
        name: program.into(),
    };
    let statuses = statuses
        .iter()
        .enumerate()
        .map(|(pos, (id, name))| NormalizedStatus {
            id: *id,
            pos,
            name: name.to_string(),
            program_id,
        })
        .collect();
    (program, statuses)
}

fn create_report(id: usize, from_status_id: usize, to_status_id: usize) -> NormalizedReport {
    NormalizedReport {
        id,
        from_status_id,
        to_status_id,
        result: ReportResult::MATCH,
    }
}

fn create_usecase() -> UsecaseForMemory {
    let (asr, asr_statuses) =
        create_program_and_statuses(83822, "Ascott Star Rewards", &[(83826, "Platinum")]);
    let (bestwestern, bestwestern_statuses) = create_program_and_statuses(
        21170,
        "Best Western Rewards",
        &[(551150, "Diamond Select")],
    );
    let (ihg, ihg_statuses) =
        create_program_and_statuses(21207, "IHG One Rewards", &[(35289, "Platinum Elite")]);
    let (mariott, mariott_statuses) =
        create_program_and_statuses(21221, "Marriott Bonvoy", &[(22740, "Gold Elite")]);

    let asr_to_bestwestern_report = create_report(0, 83826, 551150);

    let ihg_marriott_report = create_report(1, 35289, 22740);

    UsecaseForMemory {
        programs: vec![asr, bestwestern, ihg, mariott],
        statuses: vec![
            asr_statuses,
            bestwestern_statuses,
            ihg_statuses,
            mariott_statuses,
        ]
        .into_iter()
        .flatten()
        .collect(),
        reports: vec![asr_to_bestwestern_report, ihg_marriott_report],
    }
}

fn create_usecase_with_duplicate() -> UsecaseForMemory {
    let (asr, asr_statuses) =
        create_program_and_statuses(83822, "Ascott Star Rewards", &[(83826, "Platinum")]);
    let (bestwestern, bestwestern_statuses) = create_program_and_statuses(
        21170,
        "Best Western Rewards",
        &[(551150, "Diamond Select")],
    );
    let (ihg, ihg_statuses) =
        create_program_and_statuses(21207, "IHG One Rewards", &[(35289, "Platinum Elite")]);
    let (mariott, mariott_statuses) = create_program_and_statuses(
        21221,
        "Marriott Bonvoy",
        &[(22742, "Silver Elite"), (22740, "Gold Elite")],
    );
    UsecaseForMemory {
        programs: vec![asr, bestwestern, ihg, mariott],
        statuses: vec![asr_statuses, bestwestern_statuses, ihg_statuses, mariott_statuses]
            .into_iter()
            .flatten()
            .collect(),
        reports: vec![
            create_report(0, 83826, 551150),
            create_report(2, 35289, 22742),
            create_report(1, 35289, 22740),
        ],
    }
}

#[test]
fn should_be_able_to_statusmatch_from_asr_to_bestwestern() {
    let usecase = create_usecase();
    if let [(NormalizedProgram { name: program, .. }, NormalizedStatus { name: status, .. }), ..] =
        suggest_next_step(&usecase, "Ascott Star Rewards", "Platinum").unwrap()[..]
    {
        assert_eq!(
            ("Best Western Rewards", "Diamond Select"),
            (program.as_str(), status.as_str())
        );
    } else {
        assert!(false);
    }
}

#[test]
fn should_be_able_to_statusmatch_from_ihg_to_marriott() {
    let usecase = create_usecase();
    if let [(NormalizedProgram { name: program, .. }, NormalizedStatus { name: status, .. }), ..] =
        suggest_next_step(&usecase, "IHG One Rewards", "Platinum Elite").unwrap()[..]
    {
        assert_eq!(
            ("Marriott Bonvoy", "Gold Elite"),
            (program.as_str(), status.as_str())
        );
    } else {
        assert!(false);
    }
}

fn first_suggestion(usecase: &UsecaseForMemory, program: &str, status: &str) -> (String, String) {
    let steps = usecase.suggest_next_step(program, status).unwrap();
    (steps[0].0.name.clone(), steps[0].1.name.clone())
}

#[test]
fn suggests_the_single_report_target() {
    let usecase = create_usecase_with_duplicate();
    assert_eq!(
        first_suggestion(&usecase, "Ascott Star Rewards", "Platinum"),
        ("Best Western Rewards".to_string(), "Diamond Select".to_string())
    );
}

#[test]
fn duplicated_report_keeps_the_highest_status_first() {
    let usecase = create_usecase_with_duplicate();
    let steps = usecase.suggest_next_step("IHG One Rewards", "Platinum Elite").unwrap();
    let names: Vec<(&str, &str)> = steps.iter().map(|(p, s)| (p.name.as_str(), s.name.as_str())).collect();
    assert_eq!(names, vec![("Marriott Bonvoy", "Gold Elite"), ("Marriott Bonvoy", "Silver Elite")]);
}

#[test]
fn ambiguous_input_matches_ignoring_case() {
    let usecase = create_usecase_with_duplicate();
    assert_eq!(
        first_suggestion(&usecase, "ihg", "platinum elite"),
        ("Marriott Bonvoy".to_string(), "Gold Elite".to_string())
    );
}

#[test]
fn same_target_reported_twice_is_suggested_once() {
    let mut usecase = create_usecase();
    usecase.reports.push(create_report(7, 35289, 22740));
    let steps = usecase.suggest_next_step("IHG One Rewards", "Platinum Elite").unwrap();
    assert_eq!(steps.len(), 1);
}

#[test]
fn unknown_program_is_reported() {
    let usecase = create_usecase();
    assert_eq!(
        usecase.suggest_next_step("Hilton Honors", "Gold").err(),
        Some(UsecaseError::ProgramNotFound)
    );
}

#[test]
fn unknown_status_is_reported() {
    let usecase = create_usecase();
    assert_eq!(
        usecase.suggest_next_step("IHG One Rewards", "Diamond").err(),
        Some(UsecaseError::StatusNotFound)
    );
}

#[test]
fn status_without_reports_has_no_suggestion() {
    let usecase = create_usecase();
    let steps = usecase.suggest_next_step("Marriott Bonvoy", "Gold Elite").unwrap();
    assert!(steps.is_empty());
}

#[test]
fn report_to_a_missing_status_is_an_error() {
    let mut usecase = create_usecase();
    usecase.reports.push(create_report(9, 83826, 424242));
    assert_eq!(
        usecase.suggest_next_step("Ascott Star Rewards", "Platinum").err(),
        Some(UsecaseError::StatusNotFound)
    );
}

#[test]
fn load_from_keeps_the_entities() {
    let usecase = create_usecase();
    let loaded = UsecaseForMemory::load_from((usecase.programs, usecase.statuses, usecase.reports));
    assert_eq!(loaded.programs.len(), 4);
    assert_eq!(loaded.statuses.len(), 4);
    assert_eq!(loaded.reports.len(), 2);
    assert_eq!(loaded.find_program_by_id(21207).unwrap().name, "IHG One Rewards");
    assert_eq!(loaded.find_status_by_id(22740).unwrap().name, "Gold Elite");
    assert!(loaded.find_status_by_id(1).is_err());
}
