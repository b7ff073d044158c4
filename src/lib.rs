pub mod tree;
pub mod locator;
pub mod scope;
pub mod text;
pub mod render;
pub mod source;
pub mod alert;
pub mod report;
pub mod grammar;
