//! Rendering a pupil's day: as a text table drawn by prettytable, and as the
//! content of a chat message with one embed per lesson.

use crate::model::{lessons_view, Day, Lesson, SpecDay, SpecLesson};
use crate::text::{decimal, format_i64, text_lines};
use prettytable::{Cell, Row, Table};
use vstd::prelude::*;

verus! {

#[verifier::external_type_specification]
#[verifier::external_body]
pub struct ExTable(Table);

#[verifier::external_type_specification]
#[verifier::external_body]
pub struct ExRow(Row);

/// The contents of the cells of a prettytable `Row`, in order: each cell
/// holds the lines of the text it was made from.
pub uninterp spec fn row_texts(r: Row) -> Seq<Seq<Seq<char>>>;

/// The cell contents of the title row of a prettytable `Table`, if it has one.
pub uninterp spec fn table_titles(t: Table) -> Option<Seq<Seq<Seq<char>>>>;

/// The cell contents of the rows of a prettytable `Table`, in order.
pub uninterp spec fn table_rows(t: Table) -> Seq<Seq<Seq<Seq<char>>>>;

/// The `Table` draws with prettytable's default format.
pub uninterp spec fn table_has_default_format(t: Table) -> bool;

/// The text that prettytable draws for a table in the default format with
/// the given title row and rows (given by the lines of their cells).
pub uninterp spec fn rendered_table(
    titles: Option<Seq<Seq<Seq<char>>>>,
    rows: Seq<Seq<Seq<Seq<char>>>>,
) -> Seq<char>;

/// prettytable's `Row::empty()`: a row without cells.
#[verifier::external_body]
fn empty_row() -> (r: Row)
    ensures
        row_texts(r) == Seq::<Seq<Seq<char>>>::empty(),
{
    Row::empty()
}

/// prettytable's `Row::add_cell(Cell::new(text))`: appends a cell made from
/// `text` to the row; `Cell::new` keeps the lines of `text` (`str::lines`).
#[verifier::external_body]
fn push_cell(r: &mut Row, text: &str)
    ensures
        row_texts(*final(r)) == row_texts(*old(r)).push(text_lines(text@)),
{
    r.add_cell(Cell::new(text));
}

/// prettytable's `Table::new()`: a table without title row and rows, in the
/// default format.
#[verifier::external_body]
fn new_table() -> (t: Table)
    ensures
        table_titles(t) is None,
        table_rows(t) == Seq::<Seq<Seq<Seq<char>>>>::empty(),
        table_has_default_format(t),
{
    Table::new()
}

/// prettytable's `Table::set_titles`: makes `titles` the title row; the rows
/// and the format stay.
#[verifier::external_body]
fn set_titles(t: &mut Table, titles: Row)
    ensures
        table_titles(*final(t)) == Some(row_texts(titles)),
        table_rows(*final(t)) == table_rows(*old(t)),
        table_has_default_format(*final(t)) == table_has_default_format(*old(t)),
{
    t.set_titles(titles);
}

/// prettytable's `Table::add_row`: appends `row`; the title row and the
/// format stay.
#[verifier::external_body]
fn add_row(t: &mut Table, row: Row)
    ensures
        table_rows(*final(t)) == table_rows(*old(t)).push(row_texts(row)),
        table_titles(*final(t)) == table_titles(*old(t)),
        table_has_default_format(*final(t)) == table_has_default_format(*old(t)),
{
    t.add_row(row);
}

/// prettytable's `Table::to_string()` (its `Display`).
///
/// Trusted: for a table in the default format, the text depends on its
/// title row and rows alone (named `rendered_table`); what the drawing looks
/// like is left unstated.
#[verifier::external_body]
fn render_table(t: &Table) -> (r: String)
    ensures
        table_has_default_format(*t) ==> r@ == rendered_table(table_titles(*t), table_rows(*t)),
{
    t.to_string()
}

// ---------------------------------------------------------------------------
// Specifications
// ---------------------------------------------------------------------------

/// The lessons of a day's slots, slot after slot.
pub open spec fn day_lessons(slots: Seq<Seq<SpecLesson>>) -> Seq<SpecLesson>
    decreases slots.len(),
{
    if slots.len() == 0 {
        seq![]
    } else {
        day_lessons(slots.drop_last()) + slots.last()
    }
}

/// The table row of a lesson: period, subject, room, teacher, kind, message.
pub open spec fn lesson_row_texts(l: SpecLesson) -> Seq<Seq<char>> {
    seq![decimal(l.time as int), l.subject, l.room, l.teacher, l.vtype, l.message]
}

/// The cell contents of a row made from the given texts.
pub open spec fn cells_lines(texts: Seq<Seq<char>>) -> Seq<Seq<Seq<char>>> {
    texts.map_values(|t: Seq<char>| text_lines(t))
}

/// The cell contents of the table row of a lesson.
pub open spec fn lesson_row_cells(l: SpecLesson) -> Seq<Seq<Seq<char>>> {
    cells_lines(lesson_row_texts(l))
}

/// The title row of a day's table.
pub open spec fn day_table_titles() -> Seq<Seq<char>> {
    seq!["Stunde"@, "Fach"@, "Raum"@, "Lehrer"@, "Type"@, "Mitteilung"@]
}

/// The rows of a day's table: one per lesson, slot after slot.
pub open spec fn day_table_rows(d: SpecDay) -> Seq<Seq<Seq<Seq<char>>>> {
    day_lessons(d.lessons).map_values(|l: SpecLesson| lesson_row_cells(l))
}

/// Three backticks, which open and close a code block in a chat message.
pub open spec fn code_fence() -> Seq<char> {
    seq!['`', '`', '`']
}

/// The text of a day: its caption and its drawn table inside a code block.
pub open spec fn day_text(d: SpecDay) -> Seq<char> {
    code_fence() + d.day + seq!['\n'] + rendered_table(
        Some(cells_lines(day_table_titles())),
        day_table_rows(d),
    )
        + code_fence()
}

/// One field of an embed: name, value, and whether it is shown inline.
pub struct EmbedField {
    pub name: String,
    pub value: String,
    pub inline: bool,
}

/// The embed of a lesson: a title and its fields.
pub struct LessonEmbed {
    pub title: String,
    pub fields: Vec<EmbedField>,
}

/// The message of a day: its text content and one embed per lesson.
pub struct DayMessage {
    pub content: String,
    pub embeds: Vec<LessonEmbed>,
}

/// The view of an embed field.
pub open spec fn field_view(f: EmbedField) -> (Seq<char>, Seq<char>, bool) {
    (f.name@, f.value@, f.inline)
}

/// The view of an embed.
pub open spec fn embed_view(e: LessonEmbed) -> (Seq<char>, Seq<(Seq<char>, Seq<char>, bool)>) {
    (e.title@, e.fields@.map_values(|f: EmbedField| field_view(f)))
}

/// The view of a day's message.
pub open spec fn message_view(m: DayMessage) -> (
    Seq<char>,
    Seq<(Seq<char>, Seq<(Seq<char>, Seq<char>, bool)>)>,
) {
    (m.content@, m.embeds@.map_values(|e: LessonEmbed| embed_view(e)))
}

/// A field with `name` and `value`, not inline, where `value` is not empty.
pub open spec fn field_if_set(name: Seq<char>, value: Seq<char>) -> Seq<(Seq<char>, Seq<char>, bool)> {
    if value.len() > 0 {
        seq![(name, value, false)]
    } else {
        seq![]
    }
}

/// The embed of a lesson: the title is the period followed by a dot; the
/// fields are subject, room, teacher, kind and message, each only where set.
pub open spec fn lesson_embed(l: SpecLesson) -> (Seq<char>, Seq<(Seq<char>, Seq<char>, bool)>) {
    (
        decimal(l.time as int).push('.'),
        field_if_set("Fach"@, l.subject) + field_if_set("Raum"@, l.room) + field_if_set(
            "Lehrer"@,
            l.teacher,
        ) + field_if_set("Art"@, l.vtype) + field_if_set("Mitteilung"@, l.message),
    )
}

/// The message of a day: its caption as content, and the embed of each
/// lesson, slot after slot.
pub open spec fn day_message(d: SpecDay) -> (
    Seq<char>,
    Seq<(Seq<char>, Seq<(Seq<char>, Seq<char>, bool)>)>,
) {
    (d.day, day_lessons(d.lessons).map_values(|l: SpecLesson| lesson_embed(l)))
}

/// Law: the table and the message of a day show the same lessons in the same
/// order: row `i` of the table and embed `i` of the message both come from
/// the `i`-th lesson of the day, slot after slot.
pub proof fn law_table_and_message_agree(d: SpecDay, i: int)
    requires
        0 <= i < day_lessons(d.lessons).len(),
    ensures
        day_table_rows(d).len() == day_lessons(d.lessons).len(),
        day_message(d).1.len() == day_lessons(d.lessons).len(),
        day_table_rows(d)[i] == lesson_row_cells(day_lessons(d.lessons)[i]),
        day_message(d).1[i] == lesson_embed(day_lessons(d.lessons)[i]),
        day_message(d).0 == d.day,
{
}

/// The number of lessons in the slots, all slots counted.
pub open spec fn lesson_count(slots: Seq<Seq<SpecLesson>>) -> nat
    decreases slots.len(),
{
    if slots.len() == 0 {
        0
    } else {
        lesson_count(slots.drop_last()) + slots.last().len()
    }
}

/// The lessons of the slots are as many as the slots hold, and lesson `j`
/// of slot `k` stands at the position after all lessons of the slots before
/// `k`, plus `j`.
proof fn lemma_day_lessons(slots: Seq<Seq<SpecLesson>>)
    ensures
        day_lessons(slots).len() == lesson_count(slots),
        forall|k: int|
            0 <= k < slots.len() ==> lesson_count(slots.take(k)) + slots[k].len() <= lesson_count(
                slots,
            ),
        forall|k: int, j: int|
            0 <= k < slots.len() && 0 <= j < slots[k].len() ==> day_lessons(slots)[lesson_count(
                slots.take(k),
            ) + j] == #[trigger] slots[k][j],
    decreases slots.len(),
{
    if slots.len() > 0 {
        let d = slots.drop_last();
        lemma_day_lessons(d);
        let pre = day_lessons(d);
        let last = slots.last();
        assert(slots.take(d.len() as int) =~= d);
        assert forall|k: int| 0 <= k < slots.len() implies lesson_count(slots.take(k))
            + slots[k].len() <= lesson_count(slots) by {
            if k < d.len() {
                assert(slots.take(k) =~= d.take(k));
                assert(d[k] == slots[k]);
            }
        }
        assert forall|k: int, j: int|
            0 <= k < slots.len() && 0 <= j < slots[k].len() implies day_lessons(
            slots,
        )[lesson_count(slots.take(k)) + j] == #[trigger] slots[k][j] by {
            assert(day_lessons(slots) == pre + last);
            if k < d.len() {
                assert(slots.take(k) =~= d.take(k));
                assert(d[k] == slots[k]);
                assert(lesson_count(d.take(k)) + d[k].len() <= lesson_count(d));
                assert(pre[lesson_count(d.take(k)) + j] == d[k][j]);
                assert((pre + last)[lesson_count(d.take(k)) + j] == pre[lesson_count(d.take(k))
                    + j]);
            } else {
                assert(slots.take(k) == d);
                assert(slots[k] == last);
                assert((pre + last)[pre.len() + j] == last[j]);
            }
        }
    }
}

/// Law: the columns of a day's table are titled by the lesson field they
/// show, and the table has one row per lesson of the day, slot after slot.
/// Its title row is Stunde, Fach, Raum, Lehrer, Type, Mitteilung; the rows
/// are as many as the slots hold lessons; and lesson `j` of slot `k` has the
/// row right after the rows of all lessons of the slots before `k` and of
/// the lessons before `j` in slot `k`, which shows, in these columns, its
/// period, subject, room, teacher, kind and message.
pub proof fn law_table_columns(d: SpecDay)
    ensures
        cells_lines(day_table_titles()) == seq![
            text_lines("Stunde"@),
            text_lines("Fach"@),
            text_lines("Raum"@),
            text_lines("Lehrer"@),
            text_lines("Type"@),
            text_lines("Mitteilung"@),
        ],
        day_table_rows(d).len() == lesson_count(d.lessons),
        forall|k: int, j: int|
            0 <= k < d.lessons.len() && 0 <= j < d.lessons[k].len() ==> day_table_rows(
                d,
            )[lesson_count(d.lessons.take(k)) + j] == seq![
                text_lines(decimal(d.lessons[k][j].time as int)),
                text_lines(d.lessons[k][j].subject),
                text_lines(d.lessons[k][j].room),
                text_lines(d.lessons[k][j].teacher),
                text_lines(d.lessons[k][j].vtype),
                text_lines(#[trigger] d.lessons[k][j].message),
            ],
{
    assert(cells_lines(day_table_titles()) =~= seq![
        text_lines("Stunde"@),
        text_lines("Fach"@),
        text_lines("Raum"@),
        text_lines("Lehrer"@),
        text_lines("Type"@),
        text_lines("Mitteilung"@),
    ]);
    lemma_day_lessons(d.lessons);
    assert forall|k: int, j: int|
        0 <= k < d.lessons.len() && 0 <= j < d.lessons[k].len() implies day_table_rows(
        d,
    )[lesson_count(d.lessons.take(k)) + j] == seq![
        text_lines(decimal(d.lessons[k][j].time as int)),
        text_lines(d.lessons[k][j].subject),
        text_lines(d.lessons[k][j].room),
        text_lines(d.lessons[k][j].teacher),
        text_lines(d.lessons[k][j].vtype),
        text_lines(#[trigger] d.lessons[k][j].message),
    ] by {
        let l = d.lessons[k][j];
        assert(lesson_count(d.lessons.take(k)) + d.lessons[k].len() <= lesson_count(d.lessons));
        assert(day_lessons(d.lessons)[lesson_count(d.lessons.take(k)) + j] == l);
        assert(day_table_rows(d)[lesson_count(d.lessons.take(k)) + j] == lesson_row_cells(l));
        assert(lesson_row_cells(l) =~= seq![
            text_lines(decimal(l.time as int)),
            text_lines(l.subject),
            text_lines(l.room),
            text_lines(l.teacher),
            text_lines(l.vtype),
            text_lines(l.message),
        ]);
    }
}

/// Law: a day's message has its caption as content and one embed per lesson
/// of the day, over all its slots, slot after slot: as many embeds as the
/// slots hold lessons, and lesson `j` of slot `k` has the embed right after
/// those of all lessons of the slots before `k` and of the lessons before
/// `j` in slot `k`.
pub proof fn law_message_embeds_every_lesson(d: SpecDay)
    ensures
        day_message(d).0 == d.day,
        day_message(d).1.len() == lesson_count(d.lessons),
        forall|k: int, j: int|
            0 <= k < d.lessons.len() && 0 <= j < d.lessons[k].len() ==> day_message(d).1[lesson_count(
                d.lessons.take(k),
            ) + j] == lesson_embed(#[trigger] d.lessons[k][j]),
{
    lemma_day_lessons(d.lessons);
    assert forall|k: int, j: int|
        0 <= k < d.lessons.len() && 0 <= j < d.lessons[k].len() implies day_message(d).1[lesson_count(
        d.lessons.take(k),
    ) + j] == lesson_embed(#[trigger] d.lessons[k][j]) by {
        assert(lesson_count(d.lessons.take(k)) + d.lessons[k].len() <= lesson_count(d.lessons));
        assert(day_lessons(d.lessons)[lesson_count(d.lessons.take(k)) + j] == d.lessons[k][j]);
    }
}

// ---------------------------------------------------------------------------
// Executable functions
// ---------------------------------------------------------------------------

/// A row made from the given texts.
fn row_of(texts: &Vec<String>) -> (r: Row)
    ensures
        row_texts(r) == texts@.map_values(|s: String| text_lines(s@)),
{
    let mut r = empty_row();
    for i in 0..texts.len()
        invariant
            row_texts(r) =~= texts@.take(i as int).map_values(|s: String| text_lines(s@)),
    {
        push_cell(&mut r, texts[i].as_str());
        assert(texts@.take(i + 1) =~= texts@.take(i as int).push(texts@[i as int]));
    }
    assert(texts@.take(texts@.len() as int) =~= texts@);
    r
}

/// Appends a field to `fields` where `value` is not empty.
fn push_field_if_set(fields: &mut Vec<EmbedField>, name: &str, value: &String)
    ensures
        final(fields)@.map_values(|f: EmbedField| field_view(f)) == old(fields)@.map_values(
            |f: EmbedField| field_view(f),
        ) + field_if_set(name@, value@),
{
    let ghost before = old(fields)@.map_values(|f: EmbedField| field_view(f));
    if value.as_str().unicode_len() > 0 {
        fields.push(EmbedField { name: String::from_str(name), value: value.clone(), inline: false });
    }
    assert(fields@.map_values(|f: EmbedField| field_view(f)) =~= before + field_if_set(
        name@,
        value@,
    ));
}

impl Lesson {
    /// The table row of this lesson.
    pub fn to_row(&self) -> (r: Row)
        ensures
            row_texts(r) == lesson_row_cells(self@),
    {
        let mut r = empty_row();
        let time = format_i64(self.time);
        push_cell(&mut r, time.as_str());
        push_cell(&mut r, self.subject.as_str());
        push_cell(&mut r, self.room.as_str());
        push_cell(&mut r, self.teacher.as_str());
        push_cell(&mut r, self.vtype.as_str());
        push_cell(&mut r, self.message.as_str());
        assert(row_texts(r) =~= lesson_row_cells(self@));
        r
    }

    /// The embed of this lesson.
    pub fn to_embed(&self) -> (r: LessonEmbed)
        ensures
            embed_view(r) == lesson_embed(self@),
    {
        let mut title = format_i64(self.time);
        proof {
            reveal_strlit(".");
        }
        title.append(".");
        let mut fields: Vec<EmbedField> = Vec::new();
        assert(fields@.map_values(|f: EmbedField| field_view(f)) =~= Seq::<
            (Seq<char>, Seq<char>, bool),
        >::empty());
        push_field_if_set(&mut fields, "Fach", &self.subject);
        push_field_if_set(&mut fields, "Raum", &self.room);
        push_field_if_set(&mut fields, "Lehrer", &self.teacher);
        push_field_if_set(&mut fields, "Art", &self.vtype);
        push_field_if_set(&mut fields, "Mitteilung", &self.message);
        assert(title@ =~= decimal(self.time as int).push('.'));
        let r = LessonEmbed { title, fields };
        assert(embed_view(r).1 =~= lesson_embed(self@).1);
        r
    }
}

impl Day {
    /// The table of this day: the title row, then one row per lesson, slot
    /// after slot.
    pub fn to_table(&self) -> (r: Table)
        ensures
            table_titles(r) == Some(cells_lines(day_table_titles())),
            table_rows(r) == day_table_rows(self@),
            table_has_default_format(r),
    {
        let mut table = new_table();
        let mut titles: Vec<String> = Vec::new();
        titles.push(String::from_str("Stunde"));
        titles.push(String::from_str("Fach"));
        titles.push(String::from_str("Raum"));
        titles.push(String::from_str("Lehrer"));
        titles.push(String::from_str("Type"));
        titles.push(String::from_str("Mitteilung"));
        let title_row = row_of(&titles);
        assert(titles@.map_values(|s: String| text_lines(s@)) =~= cells_lines(day_table_titles()));
        set_titles(&mut table, title_row);
        let ghost slots = self@.lessons;
        assert(slots.take(0) =~= Seq::<Seq<SpecLesson>>::empty());
        assert(day_lessons(slots.take(0)).map_values(|l: SpecLesson| lesson_row_cells(l))
            =~= Seq::<Seq<Seq<Seq<char>>>>::empty());
        for k in 0..10usize
            invariant
                slots == self@.lessons,
                slots.len() == 10,
                table_titles(table) == Some(cells_lines(day_table_titles())),
                table_has_default_format(table),
                table_rows(table) == day_lessons(slots.take(k as int)).map_values(
                    |l: SpecLesson| lesson_row_cells(l),
                ),
        {
            let slot = &self.lessons[k];
            let ghost sv = slots[k as int];
            assert(sv == lessons_view(*slot));
            let ghost start = table_rows(table);
            for j in 0..slot.len()
                invariant
                    sv == lessons_view(*slot),
                    table_titles(table) == Some(cells_lines(day_table_titles())),
                    table_has_default_format(table),
                    table_rows(table) == start + sv.take(j as int).map_values(
                        |l: SpecLesson| lesson_row_cells(l),
                    ),
            {
                let row = slot[j].to_row();
                add_row(&mut table, row);
                assert(sv.take(j + 1) =~= sv.take(j as int).push(sv[j as int]));
                assert(table_rows(table) =~= start + sv.take(j + 1).map_values(
                    |l: SpecLesson| lesson_row_cells(l),
                ));
            }
            assert(sv.take(slot@.len() as int) =~= sv);
            assert(slots.take(k + 1).drop_last() =~= slots.take(k as int));
            assert(slots.take(k + 1).last() == sv);
            assert(day_lessons(slots.take(k + 1)) == day_lessons(slots.take(k as int)) + sv);
            assert(table_rows(table) =~= day_lessons(slots.take(k + 1)).map_values(
                |l: SpecLesson| lesson_row_cells(l),
            ));
        }
        assert(slots.take(10) =~= slots);
        table
    }

    /// The text of this day: its caption and its table inside a code block.
    pub fn to_string(&self) -> (r: String)
        ensures
            r@ == day_text(self@),
    {
        let table = self.to_table();
        let drawn = render_table(&table);
        proof {
            reveal_strlit("```");
            reveal_strlit("\n");
        }
        let mut s = String::new();
        s.append("```");
        s.append(self.day.as_str());
        s.append("\n");
        s.append(drawn.as_str());
        s.append("```");
        assert(s@ =~= day_text(self@));
        s
    }

    /// The message of this day: its caption as content and one embed per
    /// lesson, slot after slot.
    pub fn to_embed(&self) -> (r: DayMessage)
        ensures
            message_view(r) == day_message(self@),
    {
        let ghost slots = self@.lessons;
        let mut embeds: Vec<LessonEmbed> = Vec::new();
        assert(slots.take(0) =~= Seq::<Seq<SpecLesson>>::empty());
        assert(embeds@.map_values(|e: LessonEmbed| embed_view(e)) =~= day_lessons(
            slots.take(0),
        ).map_values(|l: SpecLesson| lesson_embed(l)));
        for k in 0..10usize
            invariant
                slots == self@.lessons,
                slots.len() == 10,
                embeds@.map_values(|e: LessonEmbed| embed_view(e)) == day_lessons(
                    slots.take(k as int),
                ).map_values(|l: SpecLesson| lesson_embed(l)),
        {
            let slot = &self.lessons[k];
            let ghost sv = slots[k as int];
            assert(sv == lessons_view(*slot));
            let ghost start = embeds@.map_values(|e: LessonEmbed| embed_view(e));
            for j in 0..slot.len()
                invariant
                    sv == lessons_view(*slot),
                    embeds@.map_values(|e: LessonEmbed| embed_view(e)) == start + sv.take(
                        j as int,
                    ).map_values(|l: SpecLesson| lesson_embed(l)),
            {
                let e = slot[j].to_embed();
                let ghost ev = embed_view(e);
                let ghost before = embeds@.map_values(|e: LessonEmbed| embed_view(e));
                embeds.push(e);
                assert(embeds@.map_values(|e: LessonEmbed| embed_view(e)) =~= before.push(ev));
                assert(sv.take(j + 1) =~= sv.take(j as int).push(sv[j as int]));
                assert(embeds@.map_values(|e: LessonEmbed| embed_view(e)) =~= start + sv.take(
                    j + 1,
                ).map_values(|l: SpecLesson| lesson_embed(l)));
            }
            assert(sv.take(slot@.len() as int) =~= sv);
            assert(slots.take(k + 1).drop_last() =~= slots.take(k as int));
            assert(slots.take(k + 1).last() == sv);
            assert(day_lessons(slots.take(k + 1)) == day_lessons(slots.take(k as int)) + sv);
            assert(embeds@.map_values(|e: LessonEmbed| embed_view(e)) =~= day_lessons(
                slots.take(k + 1),
            ).map_values(|l: SpecLesson| lesson_embed(l)));
        }
        assert(slots.take(10) =~= slots);
        DayMessage { content: self.day.clone(), embeds }
    }
}

} // verus!
