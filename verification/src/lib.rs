//! Vision-transformer front-end over fixed-point arithmetic: bicubic image
//! resampling, per-channel normalization, patch embedding, rotary position
//! encoding, a pre-norm transformer encoder layer, patch dropout, and a
//! gated-linear-unit output projection.
//!
//! Every scalar is a signed 64-bit fixed-point number with 16 fractional
//! bits; every stage states the exact value of each output element.

pub mod fixed;
pub mod glu_projection;
pub mod matrix;
pub mod patch_dropout;
pub mod patch_embed;
pub mod processor;
pub mod rope;
pub mod sampling;
pub mod transformer;
