use vertretung::model::{Lesson, VDay};
use vertretung::page::{get_vday, lesson_from_cells, lessons_from_rows, try_get_vday, vday_from_scraped, ScrapedRow};

fn lesson(class: &str, time: i64, subject: &str, room: &str, teacher: &str, vtype: &str, message: &str) -> Lesson {
    Lesson {
        class: class.to_string(),
        time,
        subject: subject.to_string(),
        room: room.to_string(),
        teacher: teacher.to_string(),
        vtype: vtype.to_string(),
        message: message.to_string(),
    }
}

fn same_lesson(a: &Lesson, b: &Lesson) -> bool {
    a.class == b.class
        && a.time == b.time
        && a.subject == b.subject
        && a.room == b.room
        && a.teacher == b.teacher
        && a.vtype == b.vtype
        && a.message == b.message
}

fn assert_lessons(got: &[Lesson], expected: &[Lesson]) {
    assert_eq!(got.len(), expected.len(), "{:?}", got);
    for (g, e) in got.iter().zip(expected.iter()) {
        assert!(same_lesson(g, e), "got {:?}, expected {:?}", g, e);
    }
}

fn page(caption: &str, rows: &str) -> String {
    format!(
        "<html><head><title>Vertretungsplan</title></head><body>\
         <h1 class=\"list-table-caption\">{}</h1>\
         <table><thead><tr><th>Klasse</th><th>Stunde</th><th>Fach</th><th>Raum</th>\
         <th>Lehrer</th><th>Art</th><th>Mitteilung</th></tr></thead>\
         <tbody>{}</tbody></table></body></html>",
        caption, rows
    )
}

fn row(cells: &[&str]) -> String {
    let mut s = String::from("<tr>");
    for c in cells {
        s.push_str("<td>");
        s.push_str(c);
        s.push_str("</td>");
    }
    s.push_str("</tr>");
    s
}

#[test]
fn reads_a_page_and_fills_gaps_from_the_row_above() {
    let rows = row(&[" 12A ", "3.", "MA", "R101", "Mül", "Vertretung", ""])
        + &row(&["&nbsp;", "4.", "&nbsp;", "R102", "&nbsp;", "Raumänderung", "neu"]);
    let text = page(" Montag 29.08.2022 ", &rows);
    let VDay(date, lessons) = try_get_vday(&text).expect("page describes a day");
    assert_eq!(date, "Montag 29.08.2022");
    assert_lessons(
        &lessons,
        &[
            lesson("12A", 3, "MA", "R101", "Mül", "Vertretung", ""),
            lesson("12A", 4, "MA", "R102", "Mül", "Raumänderung", "neu"),
        ],
    );
    let VDay(date2, lessons2) = get_vday(&text);
    assert_eq!(date2, date);
    assert_lessons(&lessons2, &lessons);
}

#[test]
fn a_gap_in_the_period_repeats_the_period_above() {
    let rows = row(&["12A", "5.", "DE", "R1", "Abc", "Entfall", "x"])
        + &row(&["12B", "&nbsp;", "EN", "R2", "Def", "Vertretung", "y"]);
    let text = page("Dienstag 30.08.2022", &rows);
    let VDay(_, lessons) = try_get_vday(&text).expect("page describes a day");
    assert_eq!(lessons.len(), 2);
    assert_eq!(lessons[1].time, 5);
    assert_eq!(lessons[1].class, "12B");
}

#[test]
fn a_page_without_rows_has_no_lessons() {
    let text = page("Mittwoch 31.08.2022", "");
    let VDay(date, lessons) = try_get_vday(&text).expect("page describes a day");
    assert_eq!(date, "Mittwoch 31.08.2022");
    assert!(lessons.is_empty());
}

#[test]
fn pages_that_describe_no_day() {
    // no caption
    let no_caption = "<html><body><table><tbody><tr><td>1</td></tr></tbody></table></body></html>";
    assert!(try_get_vday(&no_caption.to_string()).is_none());
    // no table
    let no_table = "<html><body><h1 class=\"list-table-caption\">Montag 29.08.2022</h1></body></html>";
    assert!(try_get_vday(&no_table.to_string()).is_none());
    // the first row has a gap but no row above
    let first_gap = page("Montag 29.08.2022", &row(&["&nbsp;", "3", "MA", "R", "T", "V", "M"]));
    assert!(try_get_vday(&first_gap).is_none());
    // a row with fewer than seven cells
    let short = page("Montag 29.08.2022", &row(&["12A", "3", "MA", "R", "T", "V"]));
    assert!(try_get_vday(&short).is_none());
    // a period that is no number
    let bad_time = page("Montag 29.08.2022", &row(&["12A", "drei", "MA", "R", "T", "V", "M"]));
    assert!(try_get_vday(&bad_time).is_none());
    // a gap beyond the seven columns of the row above
    let wide = page(
        "Montag 29.08.2022",
        &(row(&["12A", "3", "MA", "R", "T", "V", "M"]) + &row(&["12A", "4", "MA", "R", "T", "V", "M", "&nbsp;"])),
    );
    assert!(try_get_vday(&wide).is_none());
}

fn scraped(html: &str, cells: &[&str]) -> ScrapedRow {
    ScrapedRow { html: html.to_string(), cells: cells.iter().map(|c| c.to_string()).collect() }
}

#[test]
fn builds_lessons_from_scraped_rows() {
    let rows = vec![
        scraped("<td>12A</td>", &["12A", " 1. ", "PH", "R3", "Xy", "Vertretung", ""]),
        scraped("<td>&nbsp;</td>", &["&nbsp;", "2", "&nbsp;", "&nbsp;", "&nbsp;", "Entfall", "&nbsp;"]),
    ];
    let lessons = lessons_from_rows(&rows).expect("rows describe lessons");
    assert_lessons(
        &lessons,
        &[
            lesson("12A", 1, "PH", "R3", "Xy", "Vertretung", ""),
            lesson("12A", 2, "PH", "R3", "Xy", "Entfall", ""),
        ],
    );
    // one lesson per row
    assert_eq!(lessons.len(), rows.len());
    let day = vday_from_scraped(&"  Freitag 02.09.2022\n".to_string(), &rows);
    assert_eq!(day.0, "Freitag 02.09.2022");
    assert_lessons(&day.1, &lessons);
}

#[test]
fn a_marker_in_a_cell_without_marker_in_the_row_is_kept() {
    // only the row's own HTML decides whether gaps are filled
    let rows = vec![scraped("<td>x</td>", &["&nbsp;", "1", "MA", "R", "T", "V", "M"])];
    let lessons = lessons_from_rows(&rows).expect("rows describe lessons");
    assert_eq!(lessons[0].class, "&nbsp;");
}

#[test]
fn lesson_from_cells_cases() {
    let cells: Vec<String> = ["12A", "7..", "MA", "R", "T", "V", "M"].iter().map(|c| c.to_string()).collect();
    let l = lesson_from_cells(&cells).expect("a lesson");
    assert_eq!(l.time, 7);
    let short: Vec<String> = ["12A", "7"].iter().map(|c| c.to_string()).collect();
    assert!(lesson_from_cells(&short).is_none());
    let signed: Vec<String> = ["12A", "-2.", "MA", "R", "T", "V", "M"].iter().map(|c| c.to_string()).collect();
    assert_eq!(lesson_from_cells(&signed).map(|l| l.time), Some(-2));
}

#[test]
fn lesson_to_vec_lists_the_columns() {
    let l = lesson("12A", 3, "MA", "R101", "Mül", "Vertretung", "");
    assert_eq!(l.to_vec(), vec!["12A", "3", "MA", "R101", "Mül", "Vertretung", ""]);
}

#[test]
fn reading_a_page_twice_gives_the_same_day() {
    let rows = row(&["12A", "1", "MA", "R1", "T", "V", "M"]);
    let rows = rows.replace(
        "<td>MA</td>",
        "<td class=\"fach\" style=\"color:red\" title=\"Mathe\" data-x=\"1\"><span lang=\"de\" dir=\"ltr\" id=\"s\">MA</span></td>",
    );
    let text = page("Montag 29.08.2022", &rows);
    let first = try_get_vday(&text).expect("page describes a day");
    let second = try_get_vday(&text).expect("page describes a day");
    assert_eq!(first.1[0].subject, second.1[0].subject);
    assert_eq!(first.1[0].subject, "<span lang=\"de\" dir=\"ltr\" id=\"s\">MA</span>");
}
