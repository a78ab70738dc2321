pub mod csv;
pub mod json;
pub mod command;
pub mod layout;
