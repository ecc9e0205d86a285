//! Verified core of a dashboard for Firefly III: dates and period keys,
//! journal classification, exclusions, cache keys and category grouping.

pub mod text;
pub mod config;
pub mod numfmt;
pub mod calendar;
pub mod periods;
pub mod ranges;
pub mod order;
pub mod exclusions;
pub mod journal;
pub mod charts;
pub mod flows;
pub mod catalog;
pub mod cache;
pub mod params;
pub mod numparse;
pub mod models;
pub mod monthly;
pub mod ranking;
pub mod paydown;
pub mod quarterly;
pub mod avgcost;
pub mod queries;
pub mod routes;
