use vertretung::model::{Day, Lesson, Plan, PlanDay, PlanLesson, VDay, WeekOption};
use vertretung::schedule::{day_for_week, get_day, is_in, try_get_day};

fn lesson(class: &str, time: i64, subject: &str) -> Lesson {
    Lesson {
        class: class.to_string(),
        time,
        subject: subject.to_string(),
        room: format!("R{}", time),
        teacher: "Lehrer".to_string(),
        vtype: "Vertretung".to_string(),
        message: String::new(),
    }
}

fn plan_lesson(time: i64, subject: &str) -> PlanLesson {
    PlanLesson { time, subject: subject.to_string(), room: "Raum".to_string(), teacher: "Plan".to_string() }
}

fn plan() -> Plan {
    Plan {
        class_name: "12A".to_string(),
        days: vec![
            PlanDay {
                day: "Montag".to_string(),
                lessons: [
                    WeekOption::AandB(plan_lesson(1, "MA")),
                    WeekOption::A(plan_lesson(3, "DE")),
                    WeekOption::B(plan_lesson(5, "PH")),
                    WeekOption::AorB(plan_lesson(7, "EN"), plan_lesson(7, "FR")),
                    WeekOption::NoLesson,
                ],
            },
            PlanDay {
                day: "Dienstag".to_string(),
                lessons: [
                    WeekOption::A(plan_lesson(1, "BIO")),
                    WeekOption::NoLesson,
                    WeekOption::NoLesson,
                    WeekOption::NoLesson,
                    WeekOption::NoLesson,
                ],
            },
        ],
        subjects: vec!["MA".to_string(), "DE".to_string(), "EN".to_string()],
    }
}

fn substitutions(caption: &str) -> VDay {
    VDay(
        caption.to_string(),
        vec![
            lesson("12A", 3, "MA"),
            lesson("11B", 1, "MA"),
            lesson("12A", 2, "PH"),
            lesson("12A/12B", 8, "EN"),
        ],
    )
}

fn slot_summary(day: &Day) -> Vec<Vec<(String, i64, String)>> {
    day.lessons
        .iter()
        .map(|s| s.iter().map(|l| (l.class.clone(), l.time, l.subject.clone())).collect())
        .collect()
}

fn entry(class: &str, time: i64, subject: &str) -> (String, i64, String) {
    (class.to_string(), time, subject.to_string())
}

#[test]
fn merges_substitutions_in_an_a_week() {
    // 29.08.2022 is one week after the reference date: week 1
    let day = try_get_day(&substitutions("Montag 29.08.2022"), &plan()).expect("day can be built");
    assert_eq!(day.day, "Montag 29.08.2022");
    let s = slot_summary(&day);
    assert_eq!(s[0], vec![entry("", 1, "MA")]);
    assert!(s[1].is_empty());
    assert_eq!(s[2], vec![entry("12A", 3, "MA")]);
    assert!(s[3].is_empty());
    assert!(s[4].is_empty());
    assert!(s[5].is_empty());
    assert_eq!(s[6], vec![entry("", 7, "EN")]);
    assert_eq!(s[7], vec![entry("12A/12B", 8, "EN")]);
    assert!(s[8].is_empty());
    assert!(s[9].is_empty());
    // regular lessons carry room and teacher of the plan, nothing else
    assert_eq!(day.lessons[0][0].room, "Raum");
    assert_eq!(day.lessons[0][0].teacher, "Plan");
    assert_eq!(day.lessons[0][0].vtype, "");
}

#[test]
fn merges_substitutions_in_an_even_week() {
    // the reference week: week 0, so A-or-B periods take the second lesson
    let day = get_day(&substitutions("Montag 22.08.2022"), &plan());
    let s = slot_summary(&day);
    assert_eq!(s[0], vec![entry("", 1, "MA")]);
    assert_eq!(s[2], vec![entry("12A", 3, "MA")]);
    assert!(s[4].is_empty());
    assert_eq!(s[6], vec![entry("", 7, "FR")]);
}

#[test]
fn b_only_periods_need_week_two() {
    let vday = VDay("Montag".to_string(), vec![]);
    let p = plan();
    let week2 = day_for_week(&vday, &p, "Montag", 2);
    assert_eq!(slot_summary(&week2)[4], vec![entry("", 5, "PH")]);
    let week1 = day_for_week(&vday, &p, "Montag", 1);
    assert!(week1.lessons[4].is_empty());
    assert_eq!(slot_summary(&week1)[2], vec![entry("", 3, "DE")]);
    let week_minus = day_for_week(&vday, &p, "Montag", -1);
    assert!(week_minus.lessons[2].is_empty());
    assert_eq!(slot_summary(&week_minus)[6], vec![entry("", 7, "FR")]);
}

#[test]
fn several_substitutions_share_a_slot_in_page_order() {
    let vday = VDay(
        "Dienstag 30.08.2022".to_string(),
        vec![lesson("12A", 1, "MA"), lesson("12A", 1, "DE"), lesson("12A", 2, "EN")],
    );
    let day = try_get_day(&vday, &plan()).expect("day can be built");
    let s = slot_summary(&day);
    assert_eq!(s[0], vec![entry("12A", 1, "MA"), entry("12A", 1, "DE")]);
    assert_eq!(s[1], vec![entry("12A", 2, "EN")]);
}

#[test]
fn the_first_matching_weekday_is_used() {
    let mut p = plan();
    p.days.insert(
        0,
        PlanDay {
            day: "Montag (alt)".to_string(),
            lessons: [
                WeekOption::AandB(plan_lesson(1, "ALT")),
                WeekOption::NoLesson,
                WeekOption::NoLesson,
                WeekOption::NoLesson,
                WeekOption::NoLesson,
            ],
        },
    );
    let day = try_get_day(&VDay("Montag 29.08.2022".to_string(), vec![]), &p).expect("day can be built");
    assert_eq!(slot_summary(&day)[0], vec![entry("", 1, "ALT")]);
}

#[test]
fn days_that_cannot_be_built() {
    let p = plan();
    // a caption without a date
    assert!(try_get_day(&VDay("Montag".to_string(), vec![]), &p).is_none());
    // a date that is not one
    assert!(try_get_day(&VDay("Montag 31.02.2022".to_string(), vec![]), &p).is_none());
    // a weekday the plan does not have
    assert!(try_get_day(&VDay("Samstag 03.09.2022".to_string(), vec![]), &p).is_none());
    // a relevant entry with a period outside 1 to 10
    let late = VDay("Montag 29.08.2022".to_string(), vec![lesson("12A", 11, "MA")]);
    assert!(try_get_day(&late, &p).is_none());
    let zero = VDay("Montag 29.08.2022".to_string(), vec![lesson("12A", 0, "MA")]);
    assert!(try_get_day(&zero, &p).is_none());
    // an irrelevant entry may have any period
    let other = VDay("Montag 29.08.2022".to_string(), vec![lesson("11B", 99, "MA")]);
    assert!(try_get_day(&other, &p).is_some());
}

#[test]
fn is_in_finds_subjects_inside_longer_names() {
    let subjects = vec!["MA".to_string(), "DE".to_string()];
    assert!(is_in("MA-LK", &subjects));
    assert!(is_in("xDEx", &subjects));
    assert!(!is_in("EN", &subjects));
    assert!(!is_in("MA", &Vec::new()));
    assert!(is_in("anything", &vec![String::new()]));
}

#[test]
fn relevant_entries_are_kept_in_their_slot() {
    let vday = substitutions("Montag 29.08.2022");
    let p = plan();
    let day = get_day(&vday, &p);
    for l in &vday.1 {
        let relevant = l.class.contains(&p.class_name) && p.subjects.iter().any(|s| l.subject.contains(s.as_str()));
        if relevant {
            let slot = &day.lessons[(l.time - 1) as usize];
            assert!(slot.iter().any(|x| x.class == l.class && x.subject == l.subject && x.time == l.time));
        }
    }
}

#[test]
fn plan_lesson_and_new_day() {
    let l = plan_lesson(4, "MA").to_lesson();
    assert_eq!(l.time, 4);
    assert_eq!(l.subject, "MA");
    assert_eq!(l.class, "");
    assert_eq!(l.message, "");
    let d = Day::new("Freitag 02.09.2022");
    assert_eq!(d.day, "Freitag 02.09.2022");
    assert!(d.lessons.iter().all(|s| s.is_empty()));
    let n = Lesson::new(2, "DE", "R2", "T");
    assert_eq!((n.time, n.subject.as_str(), n.room.as_str(), n.teacher.as_str()), (2, "DE", "R2", "T"));
}

#[test]
fn entries_for_other_classes_or_subjects_do_not_change_the_day() {
    let p = plan();
    let base = substitutions("Montag 29.08.2022");
    let mut more = substitutions("Montag 29.08.2022");
    more.1.insert(0, lesson("10C", 3, "MA"));
    more.1.insert(2, lesson("12A", 4, "SPO"));
    more.1.push(lesson("13", 99, "KU"));
    let a = get_day(&base, &p);
    let b = get_day(&more, &p);
    assert_eq!(slot_summary(&a), slot_summary(&b));
    assert_eq!(a.day, b.day);
}
