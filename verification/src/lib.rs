//! Cron: schedules, crontabs, time zones and the decisions of the daemon.

pub mod allow;
pub mod bits;
pub mod calendar;
pub mod cli;
pub mod clock;
pub mod command;
pub mod config;
pub mod crontab;
pub mod daemon;
pub mod database;
pub mod job;
pub mod lines;
pub mod logging;
pub mod mail;
pub mod notation;
pub mod path_map;
pub mod posix_tz;
pub mod raw;
pub mod schedule;
pub mod startup;
pub mod text;
pub mod times;
pub mod tz_notation;
pub mod tzif;
pub mod zone;
pub mod zone_cache;

pub use crontab::{Crontab, Entry, Format};
pub use schedule::Schedule;
