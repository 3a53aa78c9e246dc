//! Task-list logic of HodoQ, a local personal task manager: tasks and their due
//! dates, filtering, ordering, saved views, selection, edit history and backups.
pub mod calendar;
pub mod text;
pub mod seqs;
pub mod ids;
pub mod task;
pub mod due;
pub mod query;
pub mod ordering;
pub mod sorting;
pub mod views;
pub mod history;
pub mod catalog;
pub mod listing;
pub mod selection;
pub mod editing;
pub mod backups;
pub mod filters;
pub mod startup;
pub mod layouts;
pub mod closing;
pub mod steps;
pub mod roundtrip;
