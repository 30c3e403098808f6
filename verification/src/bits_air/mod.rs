pub mod add_air;
pub mod xor_air;
pub mod rotr_air;
pub mod sr_air;
pub mod maj_air;
pub mod ch_air;
pub mod big_sig_air;
pub mod small_sig_air;
