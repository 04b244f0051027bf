//! Gradient boosting over decision stumps, with exact rational arithmetic.
//!
//! The library trains an additive ensemble regressor by functional gradient
//! descent: each boosting round fits a single-split decision stump to the
//! residuals of the ensemble built so far. All numbers are exact rationals,
//! so every training and prediction result is a fully determined function of
//! the inputs; arithmetic that would leave the representable range is
//! reported instead of silently losing precision.

pub mod rat;
pub mod regressor;
pub mod stump;
