//! Gear ratio calculator: two meshed gears, their tooth counts and the
//! transmission ratio between them, with one of the three quantities locked.

pub mod column;
pub mod decimal;
pub mod gears;
pub mod round;
pub mod spinner;
