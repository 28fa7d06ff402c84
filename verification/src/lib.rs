//! Course-timetable logic of the CUFE course app: parsing of the teaching
//! system's week and period notation, schedule comparison, semester
//! calendars, version comparison and the data shown by the home-screen widget.
pub mod text;
pub mod numbers;
pub mod models;
pub mod weeks;
pub mod diff;
pub mod versions;
pub mod json;
pub mod courses;
pub mod dates;
pub mod exams;
pub mod calendar;
pub mod widget;
pub mod crypto;
pub mod session;
pub mod config;
pub mod schedules;
