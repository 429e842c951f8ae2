pub mod cascade;
pub mod dom;
pub mod layout;
pub mod render;
pub mod values;
