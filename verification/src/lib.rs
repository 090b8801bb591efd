pub mod catalog;
pub mod matcher;
