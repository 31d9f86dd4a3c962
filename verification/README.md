# vertretung

A verified library for a school-timetable chat bot. It reads the published
substitution pages of a school, merges a day's substitutions with a pupil's
regular plan (with A/B weeks), and renders the pupil's day as a text table or
as message embeds.

- `src/` — the library, verified with Verus:
  - `text` — trimming, substring search, word splitting, decimal numbers;
  - `model` — lessons, plans, substitution days and pupil days, with views;
  - `calendar` — caption dates (read with chrono) and the A/B week number;
  - `page` — reading a substitution page (queried with scraper);
  - `schedule` — merging a substitution day with a plan;
  - `render` — the day as a prettytable table, as text and as embeds;
  - `poll` — page addresses, change detection, and the polling round.
- `app/` — the bot around it: Discord commands (serenity), HTTP (reqwest),
  the user database (sqlx), and the JSON form of plans (serde).
- `tests/` — tests of the library on concrete pages, plans and days.
