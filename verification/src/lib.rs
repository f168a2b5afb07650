pub mod field;
pub mod rng;
pub mod utils;
pub mod poseidon;
pub mod transcript;
pub mod merkle;
pub mod deep_ali;
pub mod mle;
pub mod fri;
pub mod channel;
