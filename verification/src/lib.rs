//! kbism: the deterministic core of a nation-building kabaddi simulation.

pub mod calendar;
pub mod clock;
pub mod ids;
pub mod order;
pub mod text;
pub mod news;
pub mod events;
pub mod world;
pub mod defs;
pub mod policy;
pub mod cup;
pub mod hash;
pub mod save;
pub mod rng;
pub mod targets;
