pub mod message;
pub mod python;
