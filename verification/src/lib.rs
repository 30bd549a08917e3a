//! Free/busy interval computation for scheduling coffee-chat invitations.
//!
//! Given a calendar's busy periods and a search window, the library computes
//! the complementary free time: it pads each busy period with a buffer,
//! subtracts the padded periods from the window, splits the resulting free
//! intervals at local midnight, trims them to configured business hours, and
//! finally merges contiguous same-day slots into human-readable summaries.
//!
//! All instants are absolute UTC timestamps in whole seconds; the viewer's
//! timezone enters only as an explicit fixed offset from UTC, so every stage
//! is a pure, deterministic function of its arguments.

pub mod calendar;
pub mod civil;
pub mod config;
pub mod day_split;
pub mod free_windows;
pub mod hours_filter;
pub mod interval;
pub mod render;
pub mod sort;
pub mod summarize;
