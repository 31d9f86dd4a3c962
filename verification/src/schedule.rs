//! Merging a published substitution day with a pupil's regular plan.
//!
//! The substitution entries that concern the pupil (their class contains the
//! pupil's class and their subject contains one of the pupil's subjects) go
//! into the slot of their period; every even slot that stays empty is filled
//! from the regular plan of the weekday, according to the A/B week.

use crate::calendar::{caption_date, read_caption_date, week_number, week_of};
use crate::model::{
    plan_lesson_as_lesson, strings_view, Day, Lesson, Plan, PlanDay, SpecDay, SpecLesson,
    SpecPlan, SpecPlanDay, SpecPlanLesson, SpecVDay, SpecWeekOption, VDay, WeekOption,
};
use crate::text::{contains, first_two_words, has_infix, words};
use vstd::prelude::*;

verus! {

// ---------------------------------------------------------------------------
// Specifications
// ---------------------------------------------------------------------------

/// Some string of `list` occurs in `s`.
pub open spec fn in_any(s: Seq<char>, list: Seq<Seq<char>>) -> bool {
    exists|i: int| 0 <= i < list.len() && has_infix(s, #[trigger] list[i])
}

/// A substitution entry concerns the pupil of `plan`: its class contains the
/// pupil's class and its subject contains one of the pupil's subjects.
pub open spec fn is_relevant(l: SpecLesson, plan: SpecPlan) -> bool {
    has_infix(l.class, plan.class_name) && in_any(l.subject, plan.subjects)
}

/// The entries of `ls` that concern the pupil and fall in slot `k`
/// (period `k + 1`), in order.
pub open spec fn slot_lessons(ls: Seq<SpecLesson>, plan: SpecPlan, k: int) -> Seq<SpecLesson>
    decreases ls.len(),
{
    if ls.len() == 0 {
        seq![]
    } else {
        let prev = slot_lessons(ls.drop_last(), plan, k);
        let l = ls.last();
        if is_relevant(l, plan) && l.time - 1 == k {
            prev.push(l)
        } else {
            prev
        }
    }
}

/// Every entry that concerns the pupil has a period from 1 to 10.
pub open spec fn times_in_range(ls: Seq<SpecLesson>, plan: SpecPlan) -> bool {
    forall|i: int|
        0 <= i < ls.len() && is_relevant(#[trigger] ls[i], plan) ==> 1 <= ls[i].time <= 10
}

/// `i` is the first weekday of `days` whose name contains `name`.
pub open spec fn is_first_day(days: Seq<SpecPlanDay>, name: Seq<char>, i: int) -> bool {
    &&& 0 <= i < days.len()
    &&& has_infix(days[i].day, name)
    &&& forall|j: int| 0 <= j < i ==> !has_infix(#[trigger] days[j].day, name)
}

/// Some weekday of `days` has a name that contains `name`.
pub open spec fn has_day(days: Seq<SpecPlanDay>, name: Seq<char>) -> bool {
    exists|i: int| 0 <= i < days.len() && has_infix(#[trigger] days[i].day, name)
}

/// The first weekday of `days` whose name contains `name`.
pub open spec fn first_day(days: Seq<SpecPlanDay>, name: Seq<char>) -> int {
    choose|i: int| is_first_day(days, name, i)
}

/// The regular lesson that a double period holds in week `week`: in A weeks
/// (`week == 1`) the A lesson, in B weeks (`week == 2`) the B lesson, and for
/// an A-or-B period the A lesson when `week == 1` and the B lesson otherwise.
pub open spec fn week_choice(o: SpecWeekOption, week: int) -> Option<SpecPlanLesson> {
    match o {
        SpecWeekOption::NoLesson => None,
        SpecWeekOption::AandB(l) => Some(l),
        SpecWeekOption::A(l) => if week == 1 {
            Some(l)
        } else {
            None
        },
        SpecWeekOption::B(l) => if week == 2 {
            Some(l)
        } else {
            None
        },
        SpecWeekOption::AorB(l1, l2) => if week == 1 {
            Some(l1)
        } else {
            Some(l2)
        },
    }
}

/// Slot `k` of the pupil's day: the entries of that period that concern the
/// pupil; an even slot without any holds the regular lesson of its double
/// period, if the week has one.
pub open spec fn day_slot(
    ls: Seq<SpecLesson>,
    plan: SpecPlan,
    pday: SpecPlanDay,
    week: int,
    k: int,
) -> Seq<SpecLesson> {
    let s = slot_lessons(ls, plan, k);
    if k % 2 == 0 && s.len() == 0 {
        match week_choice(pday.lessons[k / 2], week) {
            Some(p) => seq![plan_lesson_as_lesson(p)],
            None => s,
        }
    } else {
        s
    }
}

/// The pupil's day for the substitution day `v`, the weekday `day_name` of
/// the plan and the week number `week`.
pub open spec fn day_for_week_spec(v: SpecVDay, plan: SpecPlan, day_name: Seq<char>, week: int) -> SpecDay {
    let pday = plan.days[first_day(plan.days, day_name)];
    SpecDay {
        day: v.date,
        lessons: Seq::new(10, |k: int| day_slot(v.lessons, plan, pday, week, k)),
    }
}

/// The day can be built for the weekday `day_name`: the relevant entries
/// have periods from 1 to 10, and the plan has that weekday.
pub open spec fn can_build_day(v: SpecVDay, plan: SpecPlan, day_name: Seq<char>) -> bool {
    times_in_range(v.lessons, plan) && has_day(plan.days, day_name)
}

/// The caption of `v` names a weekday and a date that chrono reads, and the
/// day can be built for that weekday.
pub open spec fn day_ready(v: SpecVDay, plan: SpecPlan) -> bool {
    let w = words(v.date);
    &&& w.len() >= 2
    &&& caption_date(w[1]) is Some
    &&& can_build_day(v, plan, w[0])
}

/// The pupil's day for the substitution day `v`: the weekday is the first
/// word of the caption, the week follows from the date in its second word.
pub open spec fn day_of(v: SpecVDay, plan: SpecPlan) -> SpecDay {
    let w = words(v.date);
    day_for_week_spec(v, plan, w[0], week_of(caption_date(w[1]).unwrap()))
}

/// The view of an optional day.
pub open spec fn opt_day_view(o: Option<Day>) -> Option<SpecDay> {
    match o {
        Some(d) => Some(d@),
        None => None,
    }
}

// ---------------------------------------------------------------------------
// Lemmas
// ---------------------------------------------------------------------------

proof fn lemma_first_day_unique(days: Seq<SpecPlanDay>, name: Seq<char>, i: int)
    requires
        is_first_day(days, name, i),
    ensures
        first_day(days, name) == i,
{
    let j = first_day(days, name);
    assert(is_first_day(days, name, j));
    if j < i {
        assert(!has_infix(days[j].day, name));
    } else if i < j {
        assert(!has_infix(days[i].day, name));
    }
}

/// The entries of a slot are entries of the day that concern the pupil and
/// fall in that slot's period.
proof fn lemma_slot_members(ls: Seq<SpecLesson>, plan: SpecPlan, k: int)
    ensures
        forall|j: int|
            0 <= j < slot_lessons(ls, plan, k).len() ==> {
                let x = #[trigger] slot_lessons(ls, plan, k)[j];
                &&& ls.contains(x)
                &&& is_relevant(x, plan)
                &&& x.time - 1 == k
            },
    decreases ls.len(),
{
    if ls.len() > 0 {
        let d = ls.drop_last();
        lemma_slot_members(d, plan, k);
        let prev = slot_lessons(d, plan, k);
        assert forall|j: int| 0 <= j < prev.len() implies ls.contains(#[trigger] prev[j]) by {
            let m = choose|m: int| 0 <= m < d.len() && d[m] == prev[j];
            assert(ls[m] == d[m]);
        }
        assert(ls[ls.len() - 1] == ls.last());
    }
}

/// An entry that concerns the pupil lands in the slot of its period.
proof fn lemma_slot_contains(ls: Seq<SpecLesson>, plan: SpecPlan, i: int)
    requires
        0 <= i < ls.len(),
        is_relevant(ls[i], plan),
    ensures
        slot_lessons(ls, plan, ls[i].time - 1).contains(ls[i]),
    decreases ls.len(),
{
    let k = ls[i].time - 1;
    if i == ls.len() - 1 {
        let prev = slot_lessons(ls.drop_last(), plan, k);
        assert(prev.push(ls[i])[prev.len() as int] == ls[i]);
    } else {
        let d = ls.drop_last();
        assert(d[i] == ls[i]);
        lemma_slot_contains(d, plan, i);
        let prev = slot_lessons(d, plan, k);
        let m = choose|m: int| 0 <= m < prev.len() && prev[m] == ls[i];
        if is_relevant(ls.last(), plan) && ls.last().time - 1 == k {
            assert(prev.push(ls.last())[m] == ls[i]);
        }
    }
}

/// Law: every substitution entry that concerns the pupil appears in the
/// pupil's day, in the slot of its period.
pub proof fn law_relevant_entries_are_kept(
    v: SpecVDay,
    plan: SpecPlan,
    day_name: Seq<char>,
    week: int,
    i: int,
)
    requires
        can_build_day(v, plan, day_name),
        0 <= i < v.lessons.len(),
        is_relevant(v.lessons[i], plan),
    ensures
        1 <= v.lessons[i].time <= 10,
        day_for_week_spec(v, plan, day_name, week).lessons[v.lessons[i].time - 1].contains(
            v.lessons[i],
        ),
{
    let ls = v.lessons;
    let k = ls[i].time - 1;
    assert(is_relevant(ls[i], plan));
    lemma_slot_contains(ls, plan, i);
    let pday = plan.days[first_day(plan.days, day_name)];
    assert(slot_lessons(ls, plan, k).len() > 0);
    assert(day_for_week_spec(v, plan, day_name, week).lessons[k] == day_slot(
        ls,
        plan,
        pday,
        week,
        k,
    ));
}

/// Law: every lesson of the pupil's day is either a substitution entry of
/// the day that concerns the pupil and has the slot's period, or, in an even
/// slot without such entries, the single regular lesson of that double
/// period for the week.
pub proof fn law_slot_contents(
    v: SpecVDay,
    plan: SpecPlan,
    day_name: Seq<char>,
    week: int,
    k: int,
    j: int,
)
    requires
        0 <= k < 10,
        0 <= j < day_for_week_spec(v, plan, day_name, week).lessons[k].len(),
    ensures
        ({
            let pday = plan.days[first_day(plan.days, day_name)];
            let slot = day_for_week_spec(v, plan, day_name, week).lessons[k];
            let x = slot[j];
            ||| v.lessons.contains(x) && is_relevant(x, plan) && x.time == k + 1
            ||| {
                &&& k % 2 == 0
                &&& slot.len() == 1
                &&& week_choice(pday.lessons[k / 2], week) is Some
                &&& x == plan_lesson_as_lesson(week_choice(pday.lessons[k / 2], week).unwrap())
            }
        }),
{
    let pday = plan.days[first_day(plan.days, day_name)];
    lemma_slot_members(v.lessons, plan, k);
    assert(day_for_week_spec(v, plan, day_name, week).lessons[k] == day_slot(
        v.lessons,
        plan,
        pday,
        week,
        k,
    ));
    let s = slot_lessons(v.lessons, plan, k);
    if k % 2 == 0 && s.len() == 0 {
    } else {
        let x = s[j];
        assert(x.time - 1 == k);
    }
}

/// No entry of `ls` concerns the pupil and falls in slot `k` (period `k + 1`).
pub open spec fn no_entry_for_slot(ls: Seq<SpecLesson>, plan: SpecPlan, k: int) -> bool {
    forall|i: int| 0 <= i < ls.len() ==> !(is_relevant(#[trigger] ls[i], plan) && ls[i].time == k + 1)
}

/// `x` is the lesson that stands for the regular plan lesson `p`: the plan's
/// time, subject, room and teacher, and no class, kind or message.
pub open spec fn stands_for(x: SpecLesson, p: SpecPlanLesson) -> bool {
    &&& x.class.len() == 0
    &&& x.time == p.time
    &&& x.subject == p.subject
    &&& x.room == p.room
    &&& x.teacher == p.teacher
    &&& x.vtype.len() == 0
    &&& x.message.len() == 0
}

/// A slot holds no entry exactly when no entry concerns it.
proof fn lemma_slot_empty(ls: Seq<SpecLesson>, plan: SpecPlan, k: int)
    ensures
        (slot_lessons(ls, plan, k).len() == 0) == no_entry_for_slot(ls, plan, k),
{
    lemma_slot_members(ls, plan, k);
    if slot_lessons(ls, plan, k).len() > 0 {
        let x = slot_lessons(ls, plan, k)[0];
        let i = choose|i: int| 0 <= i < ls.len() && ls[i] == x;
        assert(is_relevant(ls[i], plan) && ls[i].time == k + 1);
    }
    if !no_entry_for_slot(ls, plan, k) {
        let i = choose|i: int| 0 <= i < ls.len() && is_relevant(#[trigger] ls[i], plan) && ls[i].time
            == k + 1;
        lemma_slot_contains(ls, plan, i);
    }
}

/// Law: a period without any substitution entry for the pupil is filled
/// from the regular plan of the weekday as follows, for every week number
/// `week`: an odd slot stays empty; an even slot takes the lesson of its
/// double period that is given for every week; the A-only lesson exactly
/// when `week == 1`; the B-only lesson exactly when `week == 2`; of an A-or-B
/// period the A lesson when `week == 1` and the B lesson otherwise; and
/// nothing for a free double period.
pub proof fn law_free_period_from_plan(
    v: SpecVDay,
    plan: SpecPlan,
    day_name: Seq<char>,
    week: int,
    k: int,
)
    requires
        0 <= k < 10,
        no_entry_for_slot(v.lessons, plan, k),
    ensures
        ({
            let slot = day_for_week_spec(v, plan, day_name, week).lessons[k];
            let o = plan.days[first_day(plan.days, day_name)].lessons[k / 2];
            if k % 2 == 1 {
                slot.len() == 0
            } else {
                match o {
                    SpecWeekOption::NoLesson => slot.len() == 0,
                    SpecWeekOption::AandB(p) => slot.len() == 1 && stands_for(slot[0], p),
                    SpecWeekOption::A(p) => if week == 1 {
                        slot.len() == 1 && stands_for(slot[0], p)
                    } else {
                        slot.len() == 0
                    },
                    SpecWeekOption::B(p) => if week == 2 {
                        slot.len() == 1 && stands_for(slot[0], p)
                    } else {
                        slot.len() == 0
                    },
                    SpecWeekOption::AorB(p1, p2) => if week == 1 {
                        slot.len() == 1 && stands_for(slot[0], p1)
                    } else {
                        slot.len() == 1 && stands_for(slot[0], p2)
                    },
                }
            }
        }),
{
    lemma_slot_empty(v.lessons, plan, k);
}

/// Law: a regular lesson given for B weeks only never enters a day built
/// from a caption date, since the week number of a date is never 2.
pub proof fn law_b_week_lessons_stay_out(v: SpecVDay, plan: SpecPlan, k: int)
    requires
        day_ready(v, plan),
        0 <= k < 10,
        k % 2 == 0,
        plan.days[first_day(plan.days, words(v.date)[0])].lessons[k / 2] is B,
        slot_lessons(v.lessons, plan, k).len() == 0,
    ensures
        day_of(v, plan).lessons[k].len() == 0,
{
    let w = words(v.date);
    crate::calendar::law_week_number_is_small(caption_date(w[1]).unwrap());
}

/// The entries of `ls` that concern the pupil, in order.
pub open spec fn relevant_entries(ls: Seq<SpecLesson>, plan: SpecPlan) -> Seq<SpecLesson>
    decreases ls.len(),
{
    if ls.len() == 0 {
        seq![]
    } else {
        let prev = relevant_entries(ls.drop_last(), plan);
        if is_relevant(ls.last(), plan) {
            prev.push(ls.last())
        } else {
            prev
        }
    }
}

/// The slots depend on the entries that concern the pupil alone.
proof fn lemma_slot_of_relevant(ls: Seq<SpecLesson>, plan: SpecPlan, k: int)
    ensures
        slot_lessons(ls, plan, k) == slot_lessons(relevant_entries(ls, plan), plan, k),
    decreases ls.len(),
{
    if ls.len() > 0 {
        let d = ls.drop_last();
        lemma_slot_of_relevant(d, plan, k);
        let r = relevant_entries(ls, plan);
        if is_relevant(ls.last(), plan) {
            assert(r.drop_last() =~= relevant_entries(d, plan));
            assert(r.last() == ls.last());
        }
    }
}

/// `times_in_range` of a nonempty sequence, one entry at a time.
proof fn lemma_times_step(ls: Seq<SpecLesson>, plan: SpecPlan)
    requires
        ls.len() > 0,
    ensures
        times_in_range(ls, plan) == (times_in_range(ls.drop_last(), plan) && (is_relevant(
            ls.last(),
            plan,
        ) ==> 1 <= ls.last().time <= 10)),
{
    let d = ls.drop_last();
    if times_in_range(ls, plan) {
        assert forall|i: int| 0 <= i < d.len() && is_relevant(#[trigger] d[i], plan) implies 1
            <= d[i].time <= 10 by {
            assert(d[i] == ls[i]);
        }
        assert(ls[ls.len() - 1] == ls.last());
    }
    if times_in_range(d, plan) && (is_relevant(ls.last(), plan) ==> 1 <= ls.last().time <= 10) {
        assert forall|i: int| 0 <= i < ls.len() && is_relevant(#[trigger] ls[i], plan) implies 1
            <= ls[i].time <= 10 by {
            if i < d.len() {
                assert(d[i] == ls[i]);
            }
        }
    }
}

/// Whether the periods fit depends on the entries that concern the pupil
/// alone.
proof fn lemma_times_of_relevant(ls: Seq<SpecLesson>, plan: SpecPlan)
    ensures
        times_in_range(ls, plan) == times_in_range(relevant_entries(ls, plan), plan),
    decreases ls.len(),
{
    if ls.len() > 0 {
        let d = ls.drop_last();
        lemma_times_of_relevant(d, plan);
        lemma_times_step(ls, plan);
        let r = relevant_entries(ls, plan);
        if is_relevant(ls.last(), plan) {
            assert(r.drop_last() =~= relevant_entries(d, plan));
            assert(r.last() == ls.last());
            lemma_times_step(r, plan);
        }
    }
}

/// Law: entries for other classes or subjects never change the pupil's day.
/// Two substitution days with the same caption whose entries that concern
/// the pupil are the same, in the same order (for instance one day and the
/// same day with entries for other classes or subjects inserted anywhere),
/// can both be built or both not, and give the same day.
pub proof fn law_other_entries_do_not_matter(v: SpecVDay, v2: SpecVDay, plan: SpecPlan)
    requires
        v2.date == v.date,
        relevant_entries(v2.lessons, plan) == relevant_entries(v.lessons, plan),
    ensures
        day_ready(v2, plan) == day_ready(v, plan),
        day_ready(v, plan) ==> day_of(v2, plan) == day_of(v, plan),
{
    lemma_times_of_relevant(v.lessons, plan);
    lemma_times_of_relevant(v2.lessons, plan);
    assert forall|k: int| #![trigger slot_lessons(v.lessons, plan, k)]
        slot_lessons(v2.lessons, plan, k) == slot_lessons(v.lessons, plan, k) by {
        lemma_slot_of_relevant(v.lessons, plan, k);
        lemma_slot_of_relevant(v2.lessons, plan, k);
    }
    if day_ready(v, plan) {
        assert(day_of(v2, plan).lessons =~= day_of(v, plan).lessons);
    }
}

// ---------------------------------------------------------------------------
// Executable functions
// ---------------------------------------------------------------------------

/// Whether one of the strings of `vec` occurs in `string`.
pub fn is_in(string: &str, vec: &Vec<String>) -> (r: bool)
    ensures
        r == in_any(string@, strings_view(*vec)),
{
    let ghost list = strings_view(*vec);
    for i in 0..vec.len()
        invariant
            list == strings_view(*vec),
            forall|j: int| 0 <= j < i ==> !has_infix(string@, #[trigger] list[j]),
    {
        if contains(string, vec[i].as_str()) {
            assert(has_infix(string@, list[i as int]));
            return true;
        }
    }
    false
}

/// Whether the entry concerns the pupil of `plan`.
fn concerns(l: &Lesson, plan: &Plan) -> (r: bool)
    ensures
        r == is_relevant(l@, plan@),
{
    contains(l.class.as_str(), plan.class_name.as_str()) && is_in(l.subject.as_str(), &plan.subjects)
}

/// The index of the first weekday of `days` whose name contains `name`.
fn find_plan_day(days: &Vec<PlanDay>, name: &str) -> (r: Option<usize>)
    ensures
        match r {
            Some(i) => is_first_day(days@.map_values(|d: PlanDay| d@), name@, i as int),
            None => !has_day(days@.map_values(|d: PlanDay| d@), name@),
        },
{
    let ghost dv = days@.map_values(|d: PlanDay| d@);
    for i in 0..days.len()
        invariant
            dv == days@.map_values(|d: PlanDay| d@),
            forall|j: int| 0 <= j < i ==> !has_infix(#[trigger] dv[j].day, name@),
    {
        if contains(days[i].day.as_str(), name) {
            return Some(i);
        }
    }
    None
}

/// Whether every entry of `vday` that concerns the pupil has a period from 1
/// to 10.
fn times_fit(vday: &VDay, plan: &Plan) -> (r: bool)
    ensures
        r == times_in_range(vday@.lessons, plan@),
{
    let ghost ls = vday@.lessons;
    for i in 0..vday.1.len()
        invariant
            ls == vday@.lessons,
            forall|j: int|
                0 <= j < i && is_relevant(#[trigger] ls[j], plan@) ==> 1 <= ls[j].time <= 10,
    {
        let l = &vday.1[i];
        if concerns(l, plan) && (l.time < 1 || l.time > 10) {
            assert(is_relevant(ls[i as int], plan@));
            return false;
        }
    }
    true
}

/// The pupil's day for the substitution day `vday`, the weekday `day_name`
/// of the plan and the week number `week`.
pub fn day_for_week(vday: &VDay, plan: &Plan, day_name: &str, week: i64) -> (r: Day)
    requires
        can_build_day(vday@, plan@, day_name@),
    ensures
        r@ == day_for_week_spec(vday@, plan@, day_name@, week as int),
{
    let ghost ls = vday@.lessons;
    let ghost pv = plan@;
    let mut res = Day::new(vday.0.as_str());
    for i in 0..vday.1.len()
        invariant
            ls == vday@.lessons,
            pv == plan@,
            times_in_range(ls, pv),
            res@.day == vday@.date,
            res@.lessons.len() == 10,
            forall|k: int| 0 <= k < 10 ==> #[trigger] res@.lessons[k] == slot_lessons(ls.take(i as int), pv, k),
    {
        let l = &vday.1[i];
        assert(ls.take(i + 1).drop_last() =~= ls.take(i as int));
        assert(ls.take(i + 1).last() == l@);
        if concerns(l, plan) {
            assert(is_relevant(ls[i as int], pv));
            let k = (l.time - 1) as usize;
            res.push_lesson(k, l.duplicate());
        }
        assert forall|k: int| 0 <= k < 10 implies #[trigger] res@.lessons[k] == slot_lessons(
            ls.take(i + 1),
            pv,
            k,
        ) by {}
    }
    assert(ls.take(vday@.lessons.len() as int) =~= ls);
    let found = find_plan_day(&plan.days, day_name);
    let idx = match found {
        Some(i) => i,
        None => 0,
    };
    proof {
        lemma_first_day_unique(pv.days, day_name@, idx as int);
    }
    let pday = &plan.days[idx];
    let ghost pdv = pday@;
    assert(pdv == pv.days[first_day(pv.days, day_name@)]);
    let ghost target = Seq::new(10, |k: int| day_slot(ls, pv, pdv, week as int, k));
    for k in 0..10usize
        invariant
            ls == vday@.lessons,
            pv == plan@,
            pdv == pday@,
            target == Seq::new(10, |k: int| day_slot(ls, pv, pdv, week as int, k)),
            res@.day == vday@.date,
            res@.lessons.len() == 10,
            forall|j: int| 0 <= j < k ==> #[trigger] res@.lessons[j] == target[j],
            forall|j: int| k <= j < 10 ==> #[trigger] res@.lessons[j] == slot_lessons(ls, pv, j),
    {
        if k % 2 == 0 && res.lessons[k].len() == 0 {
            assert(pdv.lessons[(k / 2) as int] == pday.lessons@[(k / 2) as int]@);
            match &pday.lessons[k / 2] {
                WeekOption::NoLesson => {},
                WeekOption::AandB(l) => {
                    res.push_lesson(k, l.to_lesson());
                },
                WeekOption::A(l) => {
                    if week == 1 {
                        res.push_lesson(k, l.to_lesson());
                    }
                },
                WeekOption::B(l) => {
                    if week == 2 {
                        res.push_lesson(k, l.to_lesson());
                    }
                },
                WeekOption::AorB(l1, l2) => {
                    if week == 1 {
                        res.push_lesson(k, l1.to_lesson());
                    } else {
                        res.push_lesson(k, l2.to_lesson());
                    }
                },
            }
        }
        assert(res@.lessons[k as int] == target[k as int]);
    }
    assert(res@.lessons =~= target);
    res
}

/// The pupil's day for the substitution day `vday`: the weekday is the first
/// word of its caption, the A/B week follows from the date in the second.
pub fn get_day(vday: &VDay, plan: &Plan) -> (r: Day)
    requires
        day_ready(vday@, plan@),
    ensures
        r@ == day_of(vday@, plan@),
{
    match first_two_words(vday.0.as_str()) {
        Some((day_name, date_text)) => {
            match read_caption_date(date_text.as_str()) {
                Some(date) => {
                    let week = week_number(date);
                    day_for_week(vday, plan, day_name.as_str(), week)
                },
                None => Day::new(vday.0.as_str()),
            }
        },
        None => Day::new(vday.0.as_str()),
    }
}

/// The pupil's day for the substitution day `vday`, or `None` where its
/// caption has no weekday and date that chrono reads, an entry that concerns
/// the pupil has a period outside 1 to 10, or the plan lacks the weekday.
pub fn try_get_day(vday: &VDay, plan: &Plan) -> (r: Option<Day>)
    ensures
        match r {
            Some(d) => day_ready(vday@, plan@) && d@ == day_of(vday@, plan@),
            None => !day_ready(vday@, plan@),
        },
{
    match first_two_words(vday.0.as_str()) {
        Some((day_name, date_text)) => {
            match read_caption_date(date_text.as_str()) {
                Some(_) => {
                    if times_fit(vday, plan) && find_plan_day(&plan.days, day_name.as_str()).is_some() {
                        Some(get_day(vday, plan))
                    } else {
                        None
                    }
                },
                None => None,
            }
        },
        None => None,
    }
}

} // verus!
