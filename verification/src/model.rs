//! The data of the timetable: lessons, a pupil's regular plan, a published
//! substitution day, and the merged day that is sent to the pupil.
//!
//! Each type has a view (`@`) made of sequences of characters and integers,
//! over which the contracts of the library are stated.

use vstd::prelude::*;

verus! {

/// One lesson of a day: either a substitution entry of the published plan
/// or a regular lesson of the pupil's own plan.
#[derive(Debug, Clone)]
pub struct Lesson {
    pub class: String,
    pub time: i64,
    pub subject: String,
    pub room: String,
    pub teacher: String,
    pub vtype: String,
    pub message: String,
}

/// The view of a [`Lesson`].
pub struct SpecLesson {
    pub class: Seq<char>,
    pub time: i64,
    pub subject: Seq<char>,
    pub room: Seq<char>,
    pub teacher: Seq<char>,
    pub vtype: Seq<char>,
    pub message: Seq<char>,
}

impl View for Lesson {
    type V = SpecLesson;

    open spec fn view(&self) -> SpecLesson {
        SpecLesson {
            class: self.class@,
            time: self.time,
            subject: self.subject@,
            room: self.room@,
            teacher: self.teacher@,
            vtype: self.vtype@,
            message: self.message@,
        }
    }
}

/// A lesson of the pupil's regular plan.
#[derive(Debug, Clone)]
pub struct PlanLesson {
    pub time: i64,
    pub subject: String,
    pub room: String,
    pub teacher: String,
}

/// The view of a [`PlanLesson`].
pub struct SpecPlanLesson {
    pub time: i64,
    pub subject: Seq<char>,
    pub room: Seq<char>,
    pub teacher: Seq<char>,
}

impl View for PlanLesson {
    type V = SpecPlanLesson;

    open spec fn view(&self) -> SpecPlanLesson {
        SpecPlanLesson {
            time: self.time,
            subject: self.subject@,
            room: self.room@,
            teacher: self.teacher@,
        }
    }
}

/// Which lesson a double period of the regular plan holds, by week:
/// every week, only in A weeks, only in B weeks, or one lesson in A weeks
/// and another in B weeks.
#[derive(Debug, Clone, Default)]
pub enum WeekOption {
    #[default]
    NoLesson,
    AandB(PlanLesson),
    A(PlanLesson),
    B(PlanLesson),
    AorB(PlanLesson, PlanLesson),
}

/// The view of a [`WeekOption`].
pub enum SpecWeekOption {
    NoLesson,
    AandB(SpecPlanLesson),
    A(SpecPlanLesson),
    B(SpecPlanLesson),
    AorB(SpecPlanLesson, SpecPlanLesson),
}

impl View for WeekOption {
    type V = SpecWeekOption;

    open spec fn view(&self) -> SpecWeekOption {
        match self {
            WeekOption::NoLesson => SpecWeekOption::NoLesson,
            WeekOption::AandB(l) => SpecWeekOption::AandB(l@),
            WeekOption::A(l) => SpecWeekOption::A(l@),
            WeekOption::B(l) => SpecWeekOption::B(l@),
            WeekOption::AorB(l1, l2) => SpecWeekOption::AorB(l1@, l2@),
        }
    }
}

/// One weekday of the regular plan: its name and its five double periods.
#[derive(Debug, Clone, Default)]
pub struct PlanDay {
    pub day: String,
    pub lessons: [WeekOption; 5],
}

/// The view of a [`PlanDay`].
pub struct SpecPlanDay {
    pub day: Seq<char>,
    pub lessons: Seq<SpecWeekOption>,
}

impl View for PlanDay {
    type V = SpecPlanDay;

    open spec fn view(&self) -> SpecPlanDay {
        SpecPlanDay { day: self.day@, lessons: self.lessons@.map_values(|o: WeekOption| o@) }
    }
}

/// A pupil's regular plan: the class, the weekdays, and the subjects the
/// pupil takes.
#[derive(Debug, Clone)]
pub struct Plan {
    pub class_name: String,
    pub days: Vec<PlanDay>,
    pub subjects: Vec<String>,
}

/// The view of a [`Plan`].
pub struct SpecPlan {
    pub class_name: Seq<char>,
    pub days: Seq<SpecPlanDay>,
    pub subjects: Seq<Seq<char>>,
}

impl View for Plan {
    type V = SpecPlan;

    open spec fn view(&self) -> SpecPlan {
        SpecPlan {
            class_name: self.class_name@,
            days: self.days@.map_values(|d: PlanDay| d@),
            subjects: self.subjects@.map_values(|s: String| s@),
        }
    }
}

/// One published substitution day: its caption (weekday and date) and its
/// substitution entries, in the order of the page.
#[derive(Debug, Clone)]
pub struct VDay(pub String, pub Vec<Lesson>);

/// The view of a [`VDay`].
pub struct SpecVDay {
    pub date: Seq<char>,
    pub lessons: Seq<SpecLesson>,
}

impl View for VDay {
    type V = SpecVDay;

    open spec fn view(&self) -> SpecVDay {
        SpecVDay { date: self.0@, lessons: self.1@.map_values(|l: Lesson| l@) }
    }
}

/// A pupil's day: its caption and ten lesson slots, slot `k` holding the
/// lessons of period `k + 1`.
#[derive(Debug, Clone)]
pub struct Day {
    pub day: String,
    pub lessons: [Vec<Lesson>; 10],
}

/// The view of a [`Day`].
pub struct SpecDay {
    pub day: Seq<char>,
    pub lessons: Seq<Seq<SpecLesson>>,
}

/// The view of one slot of a [`Day`].
pub open spec fn slot_view(v: Vec<Lesson>) -> Seq<SpecLesson> {
    v@.map_values(|l: Lesson| l@)
}

impl View for Day {
    type V = SpecDay;

    open spec fn view(&self) -> SpecDay {
        SpecDay { day: self.day@, lessons: self.lessons@.map_values(|v: Vec<Lesson>| slot_view(v)) }
    }
}

/// The views of a vector of strings.
pub open spec fn strings_view(v: Vec<String>) -> Seq<Seq<char>> {
    v@.map_values(|s: String| s@)
}

/// The views of a vector of lessons.
pub open spec fn lessons_view(v: Vec<Lesson>) -> Seq<SpecLesson> {
    v@.map_values(|l: Lesson| l@)
}

/// The lesson that a regular plan lesson stands for on a day: no class,
/// kind or message, and the plan's time, subject, room and teacher.
pub open spec fn plan_lesson_as_lesson(p: SpecPlanLesson) -> SpecLesson {
    SpecLesson {
        class: seq![],
        time: p.time,
        subject: p.subject,
        room: p.room,
        teacher: p.teacher,
        vtype: seq![],
        message: seq![],
    }
}

impl Lesson {
    /// A lesson with the given time, subject, room and teacher, and no class,
    /// kind or message.
    pub fn new(time: i64, subject: &str, room: &str, teacher: &str) -> (r: Lesson)
        ensures
            r@ == (SpecLesson {
                class: seq![],
                time: time,
                subject: subject@,
                room: room@,
                teacher: teacher@,
                vtype: seq![],
                message: seq![],
            }),
    {
        Lesson {
            class: String::new(),
            time: time,
            subject: String::from_str(subject),
            room: String::from_str(room),
            teacher: String::from_str(teacher),
            vtype: String::new(),
            message: String::new(),
        }
    }

    /// A copy of this lesson.
    pub fn duplicate(&self) -> (r: Lesson)
        ensures
            r@ == self@,
    {
        Lesson {
            class: self.class.clone(),
            time: self.time,
            subject: self.subject.clone(),
            room: self.room.clone(),
            teacher: self.teacher.clone(),
            vtype: self.vtype.clone(),
            message: self.message.clone(),
        }
    }
}

impl PlanLesson {
    /// The lesson that this regular plan lesson stands for on a day.
    pub fn to_lesson(&self) -> (r: Lesson)
        ensures
            r@ == plan_lesson_as_lesson(self@),
    {
        Lesson::new(self.time, self.subject.as_str(), self.room.as_str(), self.teacher.as_str())
    }
}

impl Day {
    /// A day with the given caption and ten empty lesson slots.
    pub fn new(day: &str) -> (r: Day)
        ensures
            r@.day == day@,
            r@.lessons.len() == 10,
            forall|k: int| 0 <= k < 10 ==> (#[trigger] r@.lessons[k]).len() == 0,
    {
        let r = Day {
            day: String::from_str(day),
            lessons: [
                Vec::new(),
                Vec::new(),
                Vec::new(),
                Vec::new(),
                Vec::new(),
                Vec::new(),
                Vec::new(),
                Vec::new(),
                Vec::new(),
                Vec::new(),
            ],
        };
        r
    }

    /// Appends `l` to slot `k`.
    pub fn push_lesson(&mut self, k: usize, l: Lesson)
        requires
            k < 10,
        ensures
            final(self)@.day == old(self)@.day,
            final(self)@.lessons == old(self)@.lessons.update(
                k as int,
                old(self)@.lessons[k as int].push(l@),
            ),
    {
        let ghost before = self@.lessons;
        let ghost lv = l@;
        self.lessons[k].push(l);
        assert(slot_view(self.lessons[k as int]) =~= before[k as int].push(lv));
        assert(self@.lessons =~= before.update(k as int, before[k as int].push(lv)));
    }
}

} // verus!
