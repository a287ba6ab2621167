//! What holds of connecting and disconnecting as a whole.

pub mod carried;
pub mod collecting;
pub mod confirmation;
pub mod failure;
pub mod keeping;
pub mod life;
pub mod orders;
pub mod outputs;
pub mod pending;
pub mod round_trip;
pub mod sequence;
pub mod spending;
pub mod submission;
pub mod undoing;
pub mod views;
pub mod whole;
pub mod withdrawals;
