pub mod clock;
pub mod errors;
pub mod picker;
pub mod store;
pub mod timestamp;
