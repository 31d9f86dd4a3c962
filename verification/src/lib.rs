//! Substitution-plan handling for a school timetable bot: scraping the
//! published substitution pages, merging them with a pupil's own timetable,
//! and rendering the result as a table or as message embeds.

pub mod calendar;
pub mod model;
pub mod page;
pub mod poll;
pub mod render;
pub mod schedule;
pub mod text;
