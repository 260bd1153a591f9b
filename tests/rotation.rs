use support_rota::date::MIN_DAY;
use support_rota::AppDate;
use support_rota::DomainErrorKind;
use support_rota::Engineer;
use support_rota::EngineerIdentifier;
use support_rota::EngineeringDepartment;
use support_rota::Rota;

fn date(year: i32, month: u32, day: u32) -> AppDate {
    AppDate::new(year, month, day).unwrap()
}

fn engineer(id: u128, name: &str, last: AppDate) -> Engineer {
    Engineer::new(name, EngineerIdentifier::new(id), last)
}

/// Five engineers who last served on the five business days up to Thursday 2022-12-15.
fn team_of_five() -> Vec<Engineer> {
    vec![
        engineer(1, "Ada", date(2022, 12, 15)),
        engineer(2, "Grace", date(2022, 12, 14)),
        engineer(3, "Linus", date(2022, 12, 13)),
        engineer(4, "Barbara", date(2022, 12, 12)),
        engineer(5, "Ken", date(2022, 12, 9)),
    ]
}

#[test]
fn rotation_length_from_engineer_count() {
    assert_eq!(Rota::from_engineer_count(5).length_in_days(), 7);
    assert_eq!(Rota::from_engineer_count(0).length_in_days(), 0);
    assert_eq!(Rota::from_engineer_count(4).length_in_days(), 4);
    assert_eq!(Rota::from_engineer_count(10).length_in_days(), 14);
    assert_eq!(Rota::from_engineer_count(12).length_in_days(), 16);
    assert_eq!(Rota::new(9).length_in_days(), 9);
}

#[test]
fn resolve_a_week_ahead() {
    let rota = Rota::from_engineer_count(5);
    let today = date(2022, 12, 15);
    let reference = date(2022, 12, 22).last_date_served_by_engineer(&rota, &today).unwrap();
    assert_eq!(reference, date(2022, 12, 15));
}

#[test]
fn resolve_nine_days_ahead() {
    let rota = Rota::from_engineer_count(5);
    let today = date(2022, 12, 15);
    let reference = date(2022, 12, 24).last_date_served_by_engineer(&rota, &today).unwrap();
    assert_eq!(reference, date(2022, 12, 19));
}

#[test]
fn resolve_skips_back_over_a_weekend() {
    let rota = Rota::from_engineer_count(5);
    let today = date(2022, 12, 15);
    // Eight days ahead: 8 mod 7 = 1, six days back is Saturday 2022-12-17, two more is Thursday.
    let reference = date(2022, 12, 23).last_date_served_by_engineer(&rota, &today).unwrap();
    assert_eq!(reference, date(2022, 12, 15));
    // Five days ahead: two days back is Sunday 2022-12-18, two more is Friday.
    let reference = date(2022, 12, 20).last_date_served_by_engineer(&rota, &today).unwrap();
    assert_eq!(reference, date(2022, 12, 16));
}

#[test]
fn resolve_always_gives_an_earlier_business_day() {
    let rota = Rota::from_engineer_count(7);
    let today = date(2022, 12, 15);
    let length = rota.length_in_days();
    for ahead in 1..60u64 {
        let day = AppDate::from_days_from_ce(today.days_from_ce() + ahead as i32).unwrap();
        let reference = day.last_date_served_by_engineer(&rota, &today).unwrap();
        assert!(reference.is_business_day());
        assert!(reference.days_until(&day) >= 1);
        let back = length - (ahead as i64) % length;
        let candidate = day.step_back(back as u64).unwrap();
        if candidate.is_business_day() {
            assert_eq!(reference, candidate);
        } else {
            assert_eq!(reference, candidate.step_back(2).unwrap());
        }
    }
}

#[test]
fn resolve_today_or_earlier_is_invalid() {
    let rota = Rota::from_engineer_count(5);
    let today = date(2022, 12, 15);
    let err = today.last_date_served_by_engineer(&rota, &today).unwrap_err();
    assert_eq!(err.kind, DomainErrorKind::InvalidQuery);
    let err = date(2022, 12, 1).last_date_served_by_engineer(&rota, &today).unwrap_err();
    assert_eq!(err.kind, DomainErrorKind::InvalidQuery);
}

#[test]
fn resolve_with_an_empty_rotation_is_degenerate() {
    let today = date(2022, 12, 15);
    let err = today.last_date_served_by_engineer(&Rota::new(0), &today).unwrap_err();
    assert_eq!(err.kind, DomainErrorKind::DegenerateRotation);
    let err = date(2022, 12, 22).last_date_served_by_engineer(&Rota::new(-3), &today).unwrap_err();
    assert_eq!(err.kind, DomainErrorKind::DegenerateRotation);
}

#[test]
fn resolve_before_the_earliest_date_is_out_of_range() {
    let today = AppDate::from_days_from_ce(MIN_DAY).unwrap();
    let day = AppDate::from_days_from_ce(MIN_DAY + 1).unwrap();
    let err = day.last_date_served_by_engineer(&Rota::new(7), &today).unwrap_err();
    assert_eq!(err.kind, DomainErrorKind::OutOfRange);
}

#[test]
fn engineer_serving_a_week_ahead() {
    let department = EngineeringDepartment::new(team_of_five(), None, vec![]).unwrap();
    let today = date(2022, 12, 15);
    let serving = department.engineer_serving_on_date(date(2022, 12, 22), today).unwrap();
    assert_eq!(serving.identifier(), EngineerIdentifier::new(1));
    assert_eq!(serving.name(), "Ada");
}

#[test]
fn engineer_serving_nine_days_ahead() {
    let mut engineers = team_of_five();
    engineers[4] = engineer(5, "Ken", date(2022, 12, 19));
    let department = EngineeringDepartment::new(engineers, None, vec![]).unwrap();
    let today = date(2022, 12, 15);
    let serving = department.engineer_serving_on_date(date(2022, 12, 24), today).unwrap();
    assert_eq!(serving.identifier(), EngineerIdentifier::new(5));
    assert_eq!(serving.last_time_served(), date(2022, 12, 19));
}

#[test]
fn engineer_serving_today_is_invalid() {
    let department = EngineeringDepartment::new(team_of_five(), None, vec![]).unwrap();
    let today = date(2022, 12, 15);
    let err = department.engineer_serving_on_date(today, today).unwrap_err();
    assert_eq!(err.kind, DomainErrorKind::InvalidQuery);
    let err = department.engineer_serving_on_date(date(2022, 12, 10), today).unwrap_err();
    assert_eq!(err.kind, DomainErrorKind::InvalidQuery);
}

#[test]
fn empty_department_is_degenerate() {
    let department = EngineeringDepartment::new(vec![], None, vec![]).unwrap();
    let today = date(2022, 12, 15);
    let err = department.engineer_serving_on_date(today, today).unwrap_err();
    assert_eq!(err.kind, DomainErrorKind::DegenerateRotation);
    let err = department.engineer_serving_on_date(date(2022, 12, 22), today).unwrap_err();
    assert_eq!(err.kind, DomainErrorKind::DegenerateRotation);
}

#[test]
fn no_engineer_on_the_reference_date() {
    let department = EngineeringDepartment::new(team_of_five(), None, vec![]).unwrap();
    let today = date(2022, 12, 15);
    // The reference date is Monday 2022-12-19, on which nobody has served.
    let err = department.engineer_serving_on_date(date(2022, 12, 24), today).unwrap_err();
    assert_eq!(err.kind, DomainErrorKind::NoEngineerFound);
}

#[test]
fn asking_twice_names_the_same_engineer() {
    let department = EngineeringDepartment::new(team_of_five(), None, vec![]).unwrap();
    let today = date(2022, 12, 15);
    // Three days ahead: four days back from Sunday 2022-12-18 is Wednesday the 14th.
    let first = department.engineer_serving_on_date(date(2022, 12, 18), today).unwrap();
    let second = department.engineer_serving_on_date(date(2022, 12, 18), today).unwrap();
    assert_eq!(first, second);
    assert_eq!(first.identifier(), EngineerIdentifier::new(2));
}

#[test]
fn a_reservation_decides() {
    let reserved = engineer(9, "Margaret", date(2022, 11, 1));
    let department = EngineeringDepartment::new(
        team_of_five(),
        None,
        vec![(date(2022, 12, 22), reserved.clone()), (date(2022, 12, 1), reserved)],
    )
    .unwrap();
    let today = date(2022, 12, 15);
    let serving = department.engineer_serving_on_date(date(2022, 12, 22), today).unwrap();
    assert_eq!(serving.identifier(), EngineerIdentifier::new(9));
    // A reservation answers even for a date before today.
    let serving = department.engineer_serving_on_date(date(2022, 12, 1), today).unwrap();
    assert_eq!(serving.name(), "Margaret");
}

#[test]
fn a_later_reservation_for_a_date_wins() {
    let department = EngineeringDepartment::new(
        team_of_five(),
        None,
        vec![
            (date(2022, 12, 22), engineer(8, "Alan", date(2022, 11, 1))),
            (date(2022, 12, 22), engineer(9, "Margaret", date(2022, 11, 2))),
        ],
    )
    .unwrap();
    let serving = department.engineer_serving_on_date(date(2022, 12, 22), date(2022, 12, 15)).unwrap();
    assert_eq!(serving.identifier(), EngineerIdentifier::new(9));
}

#[test]
fn shared_last_served_date_is_refused() {
    let mut engineers = team_of_five();
    engineers.push(engineer(6, "Dennis", date(2022, 12, 13)));
    let err = EngineeringDepartment::new(engineers, None, vec![]).unwrap_err();
    assert_eq!(err.kind, DomainErrorKind::DuplicateLastServedDate);
}

#[test]
fn recorded_service_is_found_again() {
    let department = EngineeringDepartment::new(team_of_five(), None, vec![]).unwrap();
    let ken = department.engineers()[4].clone();
    let friday = date(2022, 12, 16);
    let updated = department.mark_support_service_for_engineer(&ken, friday).unwrap();
    assert_eq!(updated.engineers()[4].last_time_served(), friday);
    assert_eq!(updated.engineers()[4].identifier(), EngineerIdentifier::new(5));
    // The original department is unchanged.
    assert_eq!(department.engineers()[4].last_time_served(), date(2022, 12, 9));
    // Seen from the 16th, the 23rd is a full rotation ahead: its reference date is the 16th.
    let serving = updated.engineer_serving_on_date(date(2022, 12, 23), date(2022, 12, 16)).unwrap();
    assert_eq!(serving.identifier(), EngineerIdentifier::new(5));
    // Seen from the 15th, the reference date of the 16th is Thursday 2022-12-08: nobody.
    let serving = updated.engineer_serving_on_date(date(2022, 12, 16), date(2022, 12, 15));
    assert_eq!(serving.unwrap_err().kind, DomainErrorKind::NoEngineerFound);
}

#[test]
fn recording_on_a_weekend_is_refused() {
    let department = EngineeringDepartment::new(team_of_five(), None, vec![]).unwrap();
    let ada = department.engineers()[0].clone();
    let err = department.mark_support_service_for_engineer(&ada, date(2022, 12, 17)).unwrap_err();
    assert_eq!(err.kind, DomainErrorKind::NotABusinessDay);
    let err = department.mark_support_service_for_engineer(&ada, date(2022, 12, 18)).unwrap_err();
    assert_eq!(err.kind, DomainErrorKind::NotABusinessDay);
}

#[test]
fn recording_for_an_unknown_engineer_is_refused() {
    let department = EngineeringDepartment::new(team_of_five(), None, vec![]).unwrap();
    let stranger = engineer(42, "Stranger", date(2022, 12, 1));
    let err = department.mark_support_service_for_engineer(&stranger, date(2022, 12, 16)).unwrap_err();
    assert_eq!(err.kind, DomainErrorKind::NoEngineerFound);
}

#[test]
fn recording_on_another_engineers_date_is_refused() {
    let department = EngineeringDepartment::new(team_of_five(), None, vec![]).unwrap();
    let ada = department.engineers()[0].clone();
    let err = department.mark_support_service_for_engineer(&ada, date(2022, 12, 14)).unwrap_err();
    assert_eq!(err.kind, DomainErrorKind::DuplicateLastServedDate);
    // Recording an engineer's own last date again changes nothing.
    let same = department.mark_support_service_for_engineer(&ada, date(2022, 12, 15)).unwrap();
    assert_eq!(same.engineers()[0].last_time_served(), date(2022, 12, 15));
}

#[test]
fn a_sequence_of_services_keeps_last_dates_distinct() {
    let mut department = EngineeringDepartment::new(team_of_five(), None, vec![]).unwrap();
    let days = [(0usize, 16u32), (1, 19), (2, 20), (0, 21), (3, 22), (4, 16), (1, 21)];
    for (who, day) in days {
        let e = department.engineers()[who].clone();
        match department.mark_support_service_for_engineer(&e, date(2022, 12, day)) {
            Ok(next) => department = next,
            Err(err) => assert_eq!(err.kind, DomainErrorKind::DuplicateLastServedDate),
        }
        let lasts: Vec<i32> = department.engineers().iter().map(|e| e.last_time_served().days_from_ce()).collect();
        for i in 0..lasts.len() {
            for j in 0..lasts.len() {
                assert!(i == j || lasts[i] != lasts[j]);
            }
        }
    }
    assert_eq!(department.engineers()[0].last_time_served(), date(2022, 12, 21));
    assert_eq!(department.engineers()[1].last_time_served(), date(2022, 12, 19));
    assert_eq!(department.engineers()[4].last_time_served(), date(2022, 12, 16));
}
