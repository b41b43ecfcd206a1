//! Everything that turns fetched bytes into something to show.

pub mod html;
