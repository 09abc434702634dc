pub mod blink;
pub mod button;
pub mod flash;
pub mod geometry;
pub mod letters;
pub mod level;
pub mod mover;
pub mod setup;
