# cufe_course

The schedule logic of the CUFE-COURSE timetable app, verified with Verus.

- `src/` is the library: reading the teaching system's course and exam
  lists, week and period texts, schedule comparison and merging, the
  semester calendar, settings migration, version comparison, the session
  check as a state machine, and the home-screen widget data. Every function
  carries a contract over mathematical models (`Seq`, `Map`, views) and is
  proved; the laws of the library stand as public proof functions named
  `law_*`. Calls into `chrono`, `serde_json` and `base64` go through small
  trusted wrappers whose contracts name what those crates compute.
- `app/` is the application around it: storage and network access, the
  serialisable copies of the library's types, and the commands the front
  end calls.
- `tests/` runs the library on concrete values.
