pub mod engine;
pub mod layout;
pub mod point;
pub mod rng;
pub mod slug;
