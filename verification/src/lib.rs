//! An interpolation (tweening) engine over a fixed-point scalar.
//!
//! Given a start/end value range and a total duration, a tween computes the
//! interpolated value for an elapsed time along a named easing curve.  Three
//! easing families are provided -- Bounce, Cubic and Expo -- each in an In,
//! Out and In-Out variant.  All arithmetic is exact fixed-point arithmetic on
//! the [`fixed::Fx`] scalar, so every evaluation is specified bit for bit and
//! proved against that specification.

pub mod fixed;
pub mod tweens;

pub use crate::fixed::Fx;
pub use crate::tweens::bounce::{BounceIn, BounceInOut, BounceOut};
pub use crate::tweens::cubic::{CubicIn, CubicInOut, CubicOut};
pub use crate::tweens::expo::{ExpoIn, ExpoInOut, ExpoOut};
