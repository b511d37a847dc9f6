pub mod json;
pub mod money;
pub mod number;
pub mod present;
pub mod strutil;
pub mod tools;
pub mod types;
pub mod zapper;
