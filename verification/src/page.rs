//! Reading a published substitution page: its caption and its table of
//! substitution entries, where a row marked with `&nbsp;` repeats the
//! entries of the row above in the cells it leaves empty.
//!
//! The HTML is parsed and queried with `scraper`; what the page says is then
//! built into a [`VDay`] by verified code.

use crate::model::{lessons_view, strings_view, Lesson, SpecLesson, SpecVDay, VDay};
use crate::text::{
    contains, decimal, format_i64, has_infix, parse_i64, parse_i64_spec, trim, trim_end_char,
    trim_end_matches_char, trimmed,
};
use scraper::{Html, Selector};
use vstd::prelude::*;

verus! {

/// One row of the substitution table as the page holds it: the row's inner
/// HTML and the inner HTML of each of its cells, untrimmed.
pub struct ScrapedRow {
    pub html: String,
    pub cells: Vec<String>,
}

/// The view of a [`ScrapedRow`].
pub open spec fn scraped_row_view(r: ScrapedRow) -> (Seq<char>, Seq<Seq<char>>) {
    (r.html@, strings_view(r.cells))
}

/// The views of the rows of a table.
pub open spec fn scraped_rows_view(v: Vec<ScrapedRow>) -> Seq<(Seq<char>, Seq<Seq<char>>)> {
    v@.map_values(|r: ScrapedRow| scraped_row_view(r))
}

/// The view of an optional string.
pub open spec fn opt_string_view(o: Option<String>) -> Option<Seq<char>> {
    match o {
        Some(s) => Some(s@),
        None => None,
    }
}

/// The view of an optional table.
pub open spec fn opt_rows_view(o: Option<Vec<ScrapedRow>>) -> Option<
    Seq<(Seq<char>, Seq<Seq<char>>)>,
> {
    match o {
        Some(v) => Some(scraped_rows_view(v)),
        None => None,
    }
}

/// What scraper gives for the inner HTML of the first element of
/// `document` that `selector` matches, or `None` where no element matches
/// or the selector does not parse.
pub uninterp spec fn html_first_inner_html(document: Seq<char>, selector: Seq<char>) -> Option<
    Seq<char>,
>;

/// What scraper gives for the rows (`row` selector) inside the first element
/// that `outer` matches in `document`: each row's inner HTML and the inner
/// HTML of each of its cells (`cell` selector), in document order; `None`
/// where no element matches `outer` or a selector does not parse.
pub uninterp spec fn html_nested_inner_html(
    document: Seq<char>,
    outer: Seq<char>,
    row: Seq<char>,
    cell: Seq<char>,
) -> Option<Seq<(Seq<char>, Seq<Seq<char>>)>>;

/// Parses `document` with scraper's `Html::parse_document`, selects the
/// elements that `selector` matches (`Selector::parse`, `Html::select`) and
/// returns the `inner_html` of the first one.
///
/// Trusted: the result is scraper's, named `html_first_inner_html`; nothing
/// more is stated of it. It depends on the arguments alone because scraper is
/// built with its `deterministic` feature, which keeps attributes in document
/// order when `inner_html` writes them.
#[verifier::external_body]
fn first_inner_html(document: &str, selector: &str) -> (r: Option<String>)
    ensures
        opt_string_view(r) == html_first_inner_html(document@, selector@),
{
    let sel = Selector::parse(selector).ok()?;
    let doc = Html::parse_document(document);
    let first = doc.select(&sel).next()?;
    Some(first.inner_html())
}

/// Parses `document` with scraper's `Html::parse_document`, takes the first
/// element that `outer` matches, and for each element inside it that `row`
/// matches returns its `inner_html` and the `inner_html` of each element
/// inside it that `cell` matches (`ElementRef::select`).
///
/// Trusted: the result is scraper's, named `html_nested_inner_html`; nothing
/// more is stated of it. It depends on the arguments alone because scraper is
/// built with its `deterministic` feature, which keeps attributes in document
/// order when `inner_html` writes them.
#[verifier::external_body]
fn nested_inner_html(document: &str, outer: &str, row: &str, cell: &str) -> (r: Option<
    Vec<ScrapedRow>,
>)
    ensures
        opt_rows_view(r) == html_nested_inner_html(document@, outer@, row@, cell@),
{
    let outer_sel = Selector::parse(outer).ok()?;
    let row_sel = Selector::parse(row).ok()?;
    let cell_sel = Selector::parse(cell).ok()?;
    let doc = Html::parse_document(document);
    let first = doc.select(&outer_sel).next()?;
    Some(first.select(&row_sel).map(|r| ScrapedRow {
        html: r.inner_html(),
        cells: r.select(&cell_sel).map(|c| c.inner_html()).collect(),
    }).collect())
}

// ---------------------------------------------------------------------------
// What a page says
// ---------------------------------------------------------------------------

/// The marker of a cell that repeats the entry of the row above.
pub open spec fn gap_marker() -> Seq<char> {
    "&nbsp;"@
}

/// The selector of the caption that names the day of a page.
pub open spec fn caption_selector() -> Seq<char> {
    "h1[class=\"list-table-caption\"]"@
}

/// The texts of a lesson in the order of the table's columns, the time
/// written in decimal.
pub open spec fn lesson_texts(l: SpecLesson) -> Seq<Seq<char>> {
    seq![l.class, decimal(l.time as int), l.subject, l.room, l.teacher, l.vtype, l.message]
}

/// The cells of a row with each cell that holds the gap marker replaced by
/// the text of the same column of `above`; `None` where such a cell has no
/// column in `above`.
pub open spec fn fill_gaps(cells: Seq<Seq<char>>, above: Seq<Seq<char>>) -> Option<
    Seq<Seq<char>>,
> {
    if forall|i: int|
        0 <= i < cells.len() && has_infix(#[trigger] cells[i], gap_marker()) ==> i < above.len() {
        Some(
            Seq::new(
                cells.len(),
                |i: int|
                    if has_infix(cells[i], gap_marker()) {
                        above[i]
                    } else {
                        cells[i]
                    },
            ),
        )
    } else {
        None
    }
}

/// The lesson that a row's cells describe: class, time (a decimal number,
/// possibly followed by dots), subject, room, teacher, kind and message;
/// `None` where there are fewer than seven cells or the time is no number.
pub open spec fn lesson_of_cells(c: Seq<Seq<char>>) -> Option<SpecLesson> {
    if c.len() < 7 {
        None
    } else {
        match parse_i64_spec(trim_end_char(c[1], '.')) {
            Some(t) => Some(
                SpecLesson {
                    class: c[0],
                    time: t,
                    subject: c[2],
                    room: c[3],
                    teacher: c[4],
                    vtype: c[5],
                    message: c[6],
                },
            ),
            None => None,
        }
    }
}

/// The lesson of a row, given the lessons of the rows above it: the trimmed
/// cells, with gaps filled from the lesson of the row just above where the
/// row holds the gap marker.
pub open spec fn row_lesson(row: (Seq<char>, Seq<Seq<char>>), above: Seq<SpecLesson>) -> Option<
    SpecLesson,
> {
    let cells = row.1.map_values(|c: Seq<char>| trimmed(c));
    if has_infix(row.0, gap_marker()) {
        if above.len() == 0 {
            None
        } else {
            match fill_gaps(cells, lesson_texts(above.last())) {
                Some(f) => lesson_of_cells(f),
                None => None,
            }
        }
    } else {
        lesson_of_cells(cells)
    }
}

/// The lessons of the rows of a table, one per row, or `None` where some row
/// describes no lesson.
pub open spec fn lessons_of_rows(rows: Seq<(Seq<char>, Seq<Seq<char>>)>) -> Option<Seq<SpecLesson>>
    decreases rows.len(),
{
    if rows.len() == 0 {
        Some(seq![])
    } else {
        match lessons_of_rows(rows.drop_last()) {
            Some(above) => match row_lesson(rows.last(), above) {
                Some(l) => Some(above.push(l)),
                None => None,
            },
            None => None,
        }
    }
}

/// The substitution day of a caption and table, or `None` where either is
/// missing or the table describes no lessons.
pub open spec fn scraped_vday(
    caption: Option<Seq<char>>,
    rows: Option<Seq<(Seq<char>, Seq<Seq<char>>)>>,
) -> Option<SpecVDay> {
    match (caption, rows) {
        (Some(c), Some(r)) => match lessons_of_rows(r) {
            Some(ls) => Some(SpecVDay { date: trimmed(c), lessons: ls }),
            None => None,
        },
        _ => None,
    }
}

/// The substitution day that the HTML page `text` shows: the caption of the
/// first `h1` of class `list-table-caption`, and the rows (`tr`) and cells
/// (`td`) of the first `tbody`.
pub open spec fn page_vday(text: Seq<char>) -> Option<SpecVDay> {
    scraped_vday(
        html_first_inner_html(text, caption_selector()),
        html_nested_inner_html(text, "tbody"@, "tr"@, "td"@),
    )
}

/// The view of an optional lesson.
pub open spec fn opt_lesson_view(o: Option<Lesson>) -> Option<SpecLesson> {
    match o {
        Some(l) => Some(l@),
        None => None,
    }
}

/// The view of optional lessons.
pub open spec fn opt_lessons_view(o: Option<Vec<Lesson>>) -> Option<Seq<SpecLesson>> {
    match o {
        Some(v) => Some(lessons_view(v)),
        None => None,
    }
}

/// The view of an optional substitution day.
pub open spec fn opt_vday_view(o: Option<VDay>) -> Option<SpecVDay> {
    match o {
        Some(v) => Some(v@),
        None => None,
    }
}

// ---------------------------------------------------------------------------
// Lemmas
// ---------------------------------------------------------------------------

/// Once a prefix of the rows describes no lessons, neither do the rows.
proof fn lemma_rows_fail_from_prefix(rows: Seq<(Seq<char>, Seq<Seq<char>>)>, k: int)
    requires
        0 <= k <= rows.len(),
        lessons_of_rows(rows.take(k)) is None,
    ensures
        lessons_of_rows(rows) is None,
    decreases rows.len() - k,
{
    if k == rows.len() {
        assert(rows.take(k) =~= rows);
    } else {
        assert(rows.take(k + 1).drop_last() =~= rows.take(k));
        lemma_rows_fail_from_prefix(rows, k + 1);
    }
}

/// Law: a table that describes lessons describes exactly one per row.
pub proof fn law_one_lesson_per_row(rows: Seq<(Seq<char>, Seq<Seq<char>>)>)
    ensures
        lessons_of_rows(rows) matches Some(ls) ==> ls.len() == rows.len(),
    decreases rows.len(),
{
    if rows.len() > 0 {
        law_one_lesson_per_row(rows.drop_last());
    }
}

/// Law: a row marked with the gap marker whose period cell is a gap takes
/// the period of the row above, provided its gaps lie within the seven
/// columns of a lesson.
pub proof fn law_gap_row_repeats_period(
    row: (Seq<char>, Seq<Seq<char>>),
    above: Seq<SpecLesson>,
)
    requires
        has_infix(row.0, gap_marker()),
        above.len() > 0,
        row.1.len() >= 7,
        forall|i: int|
            0 <= i < row.1.len() && has_infix(trimmed(#[trigger] row.1[i]), gap_marker()) ==> i
                < 7,
        has_infix(trimmed(row.1[1]), gap_marker()),
    ensures
        row_lesson(row, above) matches Some(l) && l.time == above.last().time,
{
    let cells = row.1.map_values(|c: Seq<char>| trimmed(c));
    let texts = lesson_texts(above.last());
    assert forall|i: int|
        0 <= i < cells.len() && has_infix(#[trigger] cells[i], gap_marker()) implies i
        < texts.len() by {
        assert(cells[i] == trimmed(row.1[i]));
    }
    let f = fill_gaps(cells, texts).unwrap();
    assert(cells[1] == trimmed(row.1[1]));
    assert(f[1] == decimal(above.last().time as int));
    crate::text::law_decimal_parses_back(above.last().time);
}

/// The lessons of a table describe the lessons of each of its first rows.
proof fn lemma_rows_prefix(rows: Seq<(Seq<char>, Seq<Seq<char>>)>, ls: Seq<SpecLesson>, k: int)
    requires
        lessons_of_rows(rows) == Some(ls),
        0 <= k <= rows.len(),
    ensures
        ls.len() == rows.len(),
        lessons_of_rows(rows.take(k)) == Some(ls.take(k)),
    decreases rows.len(),
{
    law_one_lesson_per_row(rows);
    if k == rows.len() {
        assert(rows.take(k) =~= rows);
        assert(ls.take(k) =~= ls);
    } else {
        let d = rows.drop_last();
        let above = lessons_of_rows(d).unwrap();
        assert(ls =~= above.push(ls.last()));
        lemma_rows_prefix(d, above, k);
        assert(d.take(k) =~= rows.take(k));
        assert(above.take(k) =~= ls.take(k));
    }
}

/// Law: how each row of a table is read. Where the rows describe lessons
/// `ls`, row `i` has at least seven cells, and lesson `i` takes, for each of
/// the columns class, subject, room, teacher, kind and message: where the
/// row holds the gap marker and that (trimmed) cell does too, the same column
/// of lesson `i - 1`, the lesson read just before it (and then `i > 0`);
/// otherwise the trimmed cell. Its period is likewise the period of lesson
/// `i - 1`, or the number that the trimmed period cell holds before any
/// trailing dots.
pub proof fn law_row_reading(rows: Seq<(Seq<char>, Seq<Seq<char>>)>, ls: Seq<SpecLesson>, i: int)
    requires
        lessons_of_rows(rows) == Some(ls),
        0 <= i < rows.len(),
    ensures
        ls.len() == rows.len(),
        rows[i].1.len() >= 7,
        has_infix(rows[i].0, gap_marker()) ==> i > 0,
        forall|j: int|
            0 <= j < 7 && j != 1 ==> #[trigger] lesson_texts(ls[i])[j] == (if has_infix(
                rows[i].0,
                gap_marker(),
            ) && has_infix(trimmed(rows[i].1[j]), gap_marker()) {
                lesson_texts(ls[i - 1])[j]
            } else {
                trimmed(rows[i].1[j])
            }),
        if has_infix(rows[i].0, gap_marker()) && has_infix(trimmed(rows[i].1[1]), gap_marker()) {
            ls[i].time == ls[i - 1].time
        } else {
            parse_i64_spec(trim_end_char(trimmed(rows[i].1[1]), '.')) == Some(ls[i].time)
        },
{
    lemma_rows_prefix(rows, ls, i + 1);
    lemma_rows_prefix(rows, ls, i);
    let pre = rows.take(i + 1);
    assert(pre.drop_last() =~= rows.take(i));
    assert(pre.last() == rows[i]);
    let above = ls.take(i);
    assert(lessons_of_rows(pre.drop_last()) == Some(above));
    assert(lessons_of_rows(pre) == Some(ls.take(i + 1)));
    let l = row_lesson(rows[i], above);
    assert(l is Some);
    assert(above.push(l.unwrap()) == ls.take(i + 1));
    assert(above.push(l.unwrap())[i] == ls[i]);
    assert(row_lesson(rows[i], above) == Some(ls[i]));
    let row = rows[i];
    let cells = row.1.map_values(|c: Seq<char>| trimmed(c));
    if has_infix(row.0, gap_marker()) {
        assert(above.len() > 0);
        assert(above.last() == ls[i - 1]);
        let f = fill_gaps(cells, lesson_texts(ls[i - 1])).unwrap();
        assert(lesson_of_cells(f) == Some(ls[i]));
        assert(f.len() == cells.len());
        assert(f.len() >= 7);
        assert forall|j: int| 0 <= j < 7 && j != 1 implies #[trigger] lesson_texts(ls[i])[j] == (
        if has_infix(trimmed(row.1[j]), gap_marker()) {
            lesson_texts(ls[i - 1])[j]
        } else {
            trimmed(row.1[j])
        }) by {
            assert(cells[j] == trimmed(row.1[j]));
        }
        assert(cells[1] == trimmed(row.1[1]));
        if has_infix(trimmed(row.1[1]), gap_marker()) {
            crate::text::law_decimal_parses_back(ls[i - 1].time);
        }
    } else {
        assert(lesson_of_cells(cells) == Some(ls[i]));
        assert forall|j: int| 0 <= j < 7 && j != 1 implies #[trigger] lesson_texts(ls[i])[j]
            == trimmed(row.1[j]) by {
            assert(cells[j] == trimmed(row.1[j]));
        }
        assert(cells[1] == trimmed(row.1[1]));
    }
}

/// Whether row number `i` of a table can be read, the rows above it being
/// read: it has at least the seven cells of a lesson; where it holds the gap
/// marker, a row stands above it and its (trimmed) gap cells lie within the
/// seven columns; and its trimmed period cell, without trailing dots, is a
/// number, unless that cell is a gap of a marked row.
pub open spec fn row_readable(row: (Seq<char>, Seq<Seq<char>>), i: int) -> bool {
    &&& row.1.len() >= 7
    &&& has_infix(row.0, gap_marker()) ==> i > 0 && forall|j: int|
        0 <= j < row.1.len() && has_infix(trimmed(#[trigger] row.1[j]), gap_marker()) ==> j < 7
    &&& (has_infix(row.0, gap_marker()) && has_infix(trimmed(row.1[1]), gap_marker()))
        || parse_i64_spec(trim_end_char(trimmed(row.1[1]), '.')) is Some
}

/// A row describes a lesson, below the lessons `above`, exactly when it is
/// readable at its position.
proof fn lemma_row_lesson_readable(row: (Seq<char>, Seq<Seq<char>>), above: Seq<SpecLesson>)
    ensures
        row_lesson(row, above) is Some <==> row_readable(row, above.len() as int),
{
    let cells = row.1.map_values(|c: Seq<char>| trimmed(c));
    assert forall|j: int| 0 <= j < row.1.len() implies #[trigger] cells[j] == trimmed(row.1[j]) by {
    }
    if has_infix(row.0, gap_marker()) && above.len() > 0 {
        let texts = lesson_texts(above.last());
        if forall|j: int|
            0 <= j < row.1.len() && has_infix(trimmed(#[trigger] row.1[j]), gap_marker()) ==> j < 7 {
            assert forall|j: int|
                0 <= j < cells.len() && has_infix(#[trigger] cells[j], gap_marker()) implies j
                < texts.len() by {
                assert(cells[j] == trimmed(row.1[j]));
            }
            let f = fill_gaps(cells, texts).unwrap();
            if row.1.len() >= 7 {
                if has_infix(trimmed(row.1[1]), gap_marker()) {
                    assert(f[1] == decimal(above.last().time as int));
                    crate::text::law_decimal_parses_back(above.last().time);
                } else {
                    assert(f[1] == trimmed(row.1[1]));
                }
            }
        } else {
            let j = choose|j: int|
                0 <= j < row.1.len() && has_infix(trimmed(#[trigger] row.1[j]), gap_marker()) && !(j
                    < 7);
            assert(has_infix(cells[j], gap_marker()));
            assert(fill_gaps(cells, texts) is None);
        }
    }
}

/// Law: when a table can be read. Its rows describe lessons exactly when
/// every row is readable at its position: at least seven cells, a row above
/// every row marked with the gap marker, gaps only within the seven columns,
/// and a number for the period where the period is no gap of a marked row.
pub proof fn law_rows_readable(rows: Seq<(Seq<char>, Seq<Seq<char>>)>)
    ensures
        lessons_of_rows(rows) is Some <==> forall|i: int|
            0 <= i < rows.len() ==> row_readable(#[trigger] rows[i], i),
    decreases rows.len(),
{
    if rows.len() > 0 {
        let d = rows.drop_last();
        law_rows_readable(d);
        law_one_lesson_per_row(d);
        assert forall|i: int| 0 <= i < d.len() implies #[trigger] d[i] == rows[i] by {}
        match lessons_of_rows(d) {
            Some(above) => {
                lemma_row_lesson_readable(rows.last(), above);
                assert(above.len() == d.len());
                assert(rows.last() == rows[rows.len() - 1]);
                if forall|i: int| 0 <= i < rows.len() ==> row_readable(#[trigger] rows[i], i) {
                    assert forall|i: int| 0 <= i < d.len() implies row_readable(#[trigger] d[i], i) by {
                        assert(row_readable(rows[i], i));
                    }
                    assert(row_readable(rows[rows.len() - 1], rows.len() - 1));
                }
                if lessons_of_rows(rows) is Some {
                    assert forall|i: int| 0 <= i < rows.len() implies row_readable(
                        #[trigger] rows[i],
                        i,
                    ) by {
                        if i < d.len() {
                            assert(row_readable(d[i], i));
                        }
                    }
                }
            },
            None => {
                let i = choose|i: int| 0 <= i < d.len() && !row_readable(#[trigger] d[i], i);
                assert(!row_readable(rows[i], i));
            },
        }
    }
}

// ---------------------------------------------------------------------------
// Building a day from a page
// ---------------------------------------------------------------------------

impl Lesson {
    /// The texts of this lesson in the order of the table's columns.
    pub fn to_vec(&self) -> (r: Vec<String>)
        ensures
            strings_view(r) == lesson_texts(self@),
    {
        let mut r: Vec<String> = Vec::new();
        r.push(self.class.clone());
        r.push(format_i64(self.time));
        r.push(self.subject.clone());
        r.push(self.room.clone());
        r.push(self.teacher.clone());
        r.push(self.vtype.clone());
        r.push(self.message.clone());
        assert(strings_view(r) =~= lesson_texts(self@));
        r
    }
}

/// The cells, each trimmed.
fn trimmed_cells(cells: &Vec<String>) -> (r: Vec<String>)
    ensures
        strings_view(r) == strings_view(*cells).map_values(|c: Seq<char>| trimmed(c)),
{
    let mut r: Vec<String> = Vec::new();
    for i in 0..cells.len()
        invariant
            strings_view(r) =~= strings_view(*cells).take(i as int).map_values(
                |c: Seq<char>| trimmed(c),
            ),
    {
        let t = trim(cells[i].as_str());
        let ghost before = strings_view(r);
        let ghost tv = t@;
        r.push(t);
        assert(strings_view(r) =~= before.push(tv));
        assert(strings_view(*cells).take(i + 1) =~= strings_view(*cells).take(i as int).push(
            strings_view(*cells)[i as int],
        ));
    }
    assert(strings_view(*cells).take(cells@.len() as int) =~= strings_view(*cells));
    r
}

/// The cells with the gaps filled from `above` (see [`fill_gaps`]).
fn fill_gaps_from(cells: &Vec<String>, above: &Vec<String>) -> (r: Option<Vec<String>>)
    ensures
        match r {
            Some(v) => fill_gaps(strings_view(*cells), strings_view(*above)) == Some(
                strings_view(v),
            ),
            None => fill_gaps(strings_view(*cells), strings_view(*above)) is None,
        },
{
    let ghost cs = strings_view(*cells);
    let ghost ab = strings_view(*above);
    let mut out: Vec<String> = Vec::new();
    for i in 0..cells.len()
        invariant
            cs == strings_view(*cells),
            ab == strings_view(*above),
            out@.len() == i,
            forall|j: int|
                0 <= j < i ==> #[trigger] strings_view(out)[j] == (if has_infix(
                    cs[j],
                    gap_marker(),
                ) {
                    ab[j]
                } else {
                    cs[j]
                }),
            forall|j: int| 0 <= j < i && has_infix(#[trigger] cs[j], gap_marker()) ==> j < ab.len(),
    {
        let ghost before = strings_view(out);
        if contains(cells[i].as_str(), "&nbsp;") {
            if i >= above.len() {
                assert(has_infix(cs[i as int], gap_marker()));
                return None;
            }
            let x = above[i].clone();
            let ghost xv = x@;
            out.push(x);
            assert(strings_view(out) =~= before.push(xv));
        } else {
            let x = cells[i].clone();
            let ghost xv = x@;
            out.push(x);
            assert(strings_view(out) =~= before.push(xv));
        }
    }
    assert(strings_view(out) =~= fill_gaps(cs, ab).unwrap());
    Some(out)
}

/// The lesson that the cells describe (see [`lesson_of_cells`]).
pub fn lesson_from_cells(c: &Vec<String>) -> (r: Option<Lesson>)
    ensures
        opt_lesson_view(r) == lesson_of_cells(strings_view(*c)),
{
    if c.len() < 7 {
        return None;
    }
    let time_text = trim_end_matches_char(c[1].as_str(), '.');
    match parse_i64(time_text.as_str()) {
        Some(t) => Some(
            Lesson {
                class: c[0].clone(),
                time: t,
                subject: c[2].clone(),
                room: c[3].clone(),
                teacher: c[4].clone(),
                vtype: c[5].clone(),
                message: c[6].clone(),
            },
        ),
        None => None,
    }
}

/// The lesson of a row below the lessons `above` (see [`row_lesson`]).
pub fn lesson_of_row(row: &ScrapedRow, above: &Vec<Lesson>) -> (r: Option<Lesson>)
    ensures
        opt_lesson_view(r) == row_lesson(scraped_row_view(*row), lessons_view(*above)),
{
    let cells = trimmed_cells(&row.cells);
    if contains(row.html.as_str(), "&nbsp;") {
        if above.len() == 0 {
            return None;
        }
        let last = above[above.len() - 1].to_vec();
        assert(lessons_view(*above).last() == above@[above@.len() - 1]@);
        match fill_gaps_from(&cells, &last) {
            Some(filled) => lesson_from_cells(&filled),
            None => None,
        }
    } else {
        lesson_from_cells(&cells)
    }
}

/// The lessons of the rows of a table (see [`lessons_of_rows`]).
pub fn lessons_from_rows(rows: &Vec<ScrapedRow>) -> (r: Option<Vec<Lesson>>)
    ensures
        opt_lessons_view(r) == lessons_of_rows(scraped_rows_view(*rows)),
{
    let ghost all = scraped_rows_view(*rows);
    let mut done: Vec<Lesson> = Vec::new();
    assert(all.take(0) =~= Seq::<(Seq<char>, Seq<Seq<char>>)>::empty());
    assert(lessons_view(done) =~= Seq::<SpecLesson>::empty());
    for i in 0..rows.len()
        invariant
            all == scraped_rows_view(*rows),
            lessons_of_rows(all.take(i as int)) == Some(lessons_view(done)),
    {
        assert(all.take(i + 1).drop_last() =~= all.take(i as int));
        assert(all.take(i + 1).last() == scraped_row_view(rows@[i as int]));
        match lesson_of_row(&rows[i], &done) {
            Some(l) => {
                let ghost before = lessons_view(done);
                let ghost lv = l@;
                done.push(l);
                assert(lessons_view(done) =~= before.push(lv));
            },
            None => {
                proof {
                    lemma_rows_fail_from_prefix(all, i + 1);
                }
                return None;
            },
        }
    }
    assert(all.take(rows@.len() as int) =~= all);
    Some(done)
}

/// The substitution day of a scraped caption and table.
pub fn vday_from_scraped(caption: &String, rows: &Vec<ScrapedRow>) -> (r: VDay)
    requires
        lessons_of_rows(scraped_rows_view(*rows)) is Some,
    ensures
        r@ == (SpecVDay {
            date: trimmed(caption@),
            lessons: lessons_of_rows(scraped_rows_view(*rows)).unwrap(),
        }),
{
    let date = trim(caption.as_str());
    let lessons = lessons_from_rows(rows);
    match lessons {
        Some(ls) => VDay(date, ls),
        None => VDay(date, Vec::new()),
    }
}

/// The substitution day that the HTML page `text` shows.
pub fn get_vday(text: &String) -> (r: VDay)
    requires
        page_vday(text@) is Some,
    ensures
        r@ == page_vday(text@).unwrap(),
{
    let caption = first_inner_html(text.as_str(), "h1[class=\"list-table-caption\"]");
    let rows = nested_inner_html(text.as_str(), "tbody", "tr", "td");
    match (caption, rows) {
        (Some(c), Some(r)) => vday_from_scraped(&c, &r),
        _ => VDay(String::new(), Vec::new()),
    }
}

/// The substitution day that the HTML page `text` shows, or `None` where the
/// page has no caption or table, or a row of its table describes no lesson.
pub fn try_get_vday(text: &String) -> (r: Option<VDay>)
    ensures
        opt_vday_view(r) == page_vday(text@),
{
    let caption = first_inner_html(text.as_str(), "h1[class=\"list-table-caption\"]");
    let rows = nested_inner_html(text.as_str(), "tbody", "tr", "td");
    match (caption, rows) {
        (Some(_), Some(r)) => {
            match lessons_from_rows(&r) {
                Some(_) => Some(get_vday(text)),
                None => None,
            }
        },
        _ => None,
    }
}

} // verus!
