//! The addition gadget of the bit-level AIRs: the one of `gadgets::add`.
pub use crate::gadgets::add::AddGadget;
