//! The easing families: Bounce, Cubic and Expo, each in an In, Out and
//! In-Out variant.

pub mod bounce;
pub mod cubic;
pub mod expo;
