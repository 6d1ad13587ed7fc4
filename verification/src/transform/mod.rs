pub mod csv;
pub mod json;
pub mod json_parse;
pub mod disable;
