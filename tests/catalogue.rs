use cachet::cocoweb;
use cachet::dormyinn;
use cachet::entities::{NormalizedProgram, NormalizedStatus, ReportResult};
use cachet::scrape::{
    find_status_id, normalize_programs, normalize_reports, normalize_statuses, ProgramAndStatus,
    Report, Status,
};

fn rows() -> Vec<ProgramAndStatus> {
    vec![
        ProgramAndStatus {
            id: 1,
            name: "IHG One Rewards".to_string(),
            statuses: vec![
                Status { id: 10, name: "Club".to_string() },
                Status { id: 11, name: "Platinum Elite".to_string() },
            ],
        },
        ProgramAndStatus {
            id: 2,
            name: "Marriott Bonvoy".to_string(),
            statuses: vec![Status { id: 20, name: "Gold Elite".to_string() }],
        },
        ProgramAndStatus {
            id: 3,
            name: "IHG One Rewards".to_string(),
            statuses: vec![],
        },
    ]
}

#[test]
fn programs_are_unique_by_name() {
    let programs = normalize_programs(&rows());
    let got: Vec<(usize, &str)> = programs.iter().map(|p| (p.id, p.name.as_str())).collect();
    assert_eq!(got, vec![(1, "IHG One Rewards"), (2, "Marriott Bonvoy")]);
}

#[test]
fn statuses_are_ranked_within_their_program() {
    let rows = rows();
    let programs = normalize_programs(&rows);
    let statuses = normalize_statuses(&programs, &rows);
    let got: Vec<(usize, usize, usize, &str)> =
        statuses.iter().map(|s| (s.id, s.program_id, s.pos, s.name.as_str())).collect();
    assert_eq!(
        got,
        vec![(10, 1, 0, "Club"), (11, 1, 1, "Platinum Elite"), (20, 2, 0, "Gold Elite")]
    );
}

fn catalogue() -> (Vec<NormalizedProgram>, Vec<NormalizedStatus>) {
    let rows = rows();
    let programs = normalize_programs(&rows);
    let statuses = normalize_statuses(&programs, &rows);
    (programs, statuses)
}

#[test]
fn status_id_is_found_by_names() {
    let (programs, statuses) = catalogue();
    assert_eq!(
        find_status_id(
            &programs,
            &statuses,
            &Some("Marriott Bonvoy".to_string()),
            &Some("Gold Elite".to_string())
        ),
        Some(20)
    );
    assert_eq!(
        find_status_id(&programs, &statuses, &None, &Some("Gold Elite".to_string())),
        None
    );
    assert_eq!(
        find_status_id(
            &programs,
            &statuses,
            &Some("Marriott Bonvoy".to_string()),
            &Some("Club".to_string())
        ),
        None
    );
}

#[test]
fn reports_with_both_statuses_known_are_kept() {
    let (programs, statuses) = catalogue();
    let reports = vec![
        Report {
            id: 5,
            result: ReportResult::MATCH,
            from_program: Some("IHG One Rewards".to_string()),
            from_status: Some("Platinum Elite".to_string()),
            to_program: Some("Marriott Bonvoy".to_string()),
            to_status: Some("Gold Elite".to_string()),
        },
        Report {
            id: 6,
            result: ReportResult::DENY,
            from_program: None,
            from_status: None,
            to_program: Some("Marriott Bonvoy".to_string()),
            to_status: Some("Gold Elite".to_string()),
        },
    ];
    let normalized = normalize_reports(&programs, &statuses, &reports);
    assert_eq!(normalized.len(), 1);
    assert_eq!(normalized[0].id, 5);
    assert_eq!(normalized[0].from_status_id, 11);
    assert_eq!(normalized[0].to_status_id, 20);
    assert_eq!(normalized[0].result, ReportResult::MATCH);
}

#[test]
fn cocoweb_stages_translate() {
    assert_eq!(cocoweb::translate_status("レギュラーステージ").unwrap(), "Regular Stage");
    assert_eq!(cocoweb::translate_status("プラチナステージ").unwrap(), "Platina Stage");
    assert!(cocoweb::translate_status("Regular Stage").is_err());
}

#[test]
fn dormyinn_ranks_translate() {
    assert_eq!(dormyinn::translate_status("メンバー").unwrap(), "Member");
    assert_eq!(dormyinn::translate_status("ゴールド").unwrap(), "Gold");
    assert!(dormyinn::translate_status("プラチナ").is_err());
}

#[test]
fn first_form_numbers_programs_in_order() {
    let rows = rows();
    let programs = cachet::statusmatcher::normalize_programs(&rows);
    let got: Vec<(usize, &str)> = programs.iter().map(|p| (p.id, p.name.as_str())).collect();
    assert_eq!(got, vec![(0, "IHG One Rewards"), (1, "Marriott Bonvoy")]);
    let statuses = cachet::statusmatcher::normalize_statuses(&programs, &rows);
    let got: Vec<(usize, usize, &str)> =
        statuses.iter().map(|s| (s.program_id, s.pos, s.name.as_str())).collect();
    assert_eq!(got, vec![(0, 0, "Club"), (0, 1, "Platinum Elite"), (1, 0, "Gold Elite")]);
}
