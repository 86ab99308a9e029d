pub mod general;
pub mod user;
