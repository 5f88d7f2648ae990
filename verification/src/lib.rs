//! Verified core of the house-rental service: the request rules, the
//! booking and calendar decisions, error mapping, and the planning logic of
//! the data seeder and the load generator.

pub mod text;
pub mod errors;
pub mod models;
pub mod calendar;
pub mod booking;
pub mod stored;
pub mod fixtures;
pub mod seeding;
pub mod chance;
pub mod stays;
pub mod seed_rows;
pub mod validation;
pub mod rules;
pub mod config;
