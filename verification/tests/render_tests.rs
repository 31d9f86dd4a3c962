use vertretung::model::{Day, Lesson};

fn lesson(time: i64, subject: &str, room: &str, teacher: &str, vtype: &str, message: &str) -> Lesson {
    Lesson {
        class: "12A".to_string(),
        time,
        subject: subject.to_string(),
        room: room.to_string(),
        teacher: teacher.to_string(),
        vtype: vtype.to_string(),
        message: message.to_string(),
    }
}

fn day() -> Day {
    let mut d = Day::new("Montag 29.08.2022");
    d.lessons[0].push(lesson(1, "MA", "R1", "Abc", "", ""));
    d.lessons[2].push(lesson(3, "DE", "R2", "Def", "Vertretung", "Aufgaben"));
    d.lessons[2].push(lesson(3, "EN", "", "", "Entfall", ""));
    d
}

#[test]
fn lesson_row_lists_period_and_texts() {
    let row = lesson(3, "DE", "R2", "Def", "Vertretung", "Aufgaben").to_row();
    let cells: Vec<String> = (0..row.len()).map(|i| row.get_cell(i).unwrap().get_content()).collect();
    assert_eq!(cells, vec!["3", "DE", "R2", "Def", "Vertretung", "Aufgaben"]);
}

#[test]
fn day_table_has_titles_and_one_row_per_lesson() {
    let d = day();
    let table = d.to_table();
    assert_eq!(table.len(), 3);
    let first: Vec<String> = (0..6).map(|i| table[0].get_cell(i).unwrap().get_content()).collect();
    assert_eq!(first, vec!["1", "MA", "R1", "Abc", "", ""]);
    let third: Vec<String> = (0..6).map(|i| table[2].get_cell(i).unwrap().get_content()).collect();
    assert_eq!(third, vec!["3", "EN", "", "", "Entfall", ""]);
    let drawn = table.to_string();
    assert!(drawn.contains("Stunde"));
    assert!(drawn.contains("Mitteilung"));
    assert!(drawn.contains("Aufgaben"));
}

#[test]
fn day_text_wraps_caption_and_table_in_a_code_block() {
    let d = day();
    let text = d.to_string();
    let expected = format!("```{}\n{}```", d.day, d.to_table().to_string());
    assert_eq!(text, expected);
    assert!(text.starts_with("```Montag 29.08.2022\n"));
    assert!(text.ends_with("```"));
}

#[test]
fn an_empty_day_draws_only_titles() {
    let d = Day::new("Dienstag 30.08.2022");
    assert_eq!(d.to_table().len(), 0);
    assert!(d.to_string().contains("Stunde"));
}

#[test]
fn lesson_embed_has_period_title_and_set_fields() {
    let e = lesson(3, "DE", "R2", "Def", "Vertretung", "Aufgaben").to_embed();
    assert_eq!(e.title, "3.");
    let fields: Vec<(String, String, bool)> =
        e.fields.iter().map(|f| (f.name.clone(), f.value.clone(), f.inline)).collect();
    assert_eq!(
        fields,
        vec![
            ("Fach".to_string(), "DE".to_string(), false),
            ("Raum".to_string(), "R2".to_string(), false),
            ("Lehrer".to_string(), "Def".to_string(), false),
            ("Art".to_string(), "Vertretung".to_string(), false),
            ("Mitteilung".to_string(), "Aufgaben".to_string(), false),
        ]
    );
    let sparse = lesson(10, "", "", "", "Entfall", "").to_embed();
    assert_eq!(sparse.title, "10.");
    assert_eq!(sparse.fields.len(), 1);
    assert_eq!(sparse.fields[0].name, "Art");
}

#[test]
fn day_message_matches_the_table() {
    let d = day();
    let m = d.to_embed();
    assert_eq!(m.content, "Montag 29.08.2022");
    let table = d.to_table();
    assert_eq!(m.embeds.len(), table.len());
    for (i, e) in m.embeds.iter().enumerate() {
        let period = table[i].get_cell(0).unwrap().get_content();
        assert_eq!(e.title, format!("{}.", period));
    }
}

#[test]
fn cells_keep_the_lines_of_their_text() {
    let row = lesson(3, "DE", "R2", "Def", "", "erste Zeile\r\nzweite Zeile\n").to_row();
    let message = row.get_cell(5).unwrap().get_content();
    let expected: Vec<&str> = "erste Zeile\r\nzweite Zeile\n".lines().collect();
    assert_eq!(message, expected.join("\n"));
    assert_eq!(message, "erste Zeile\nzweite Zeile");
}
