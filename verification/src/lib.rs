pub mod breaks;
pub mod errors;
pub mod parsers;
pub mod project;
pub mod records;
pub mod repository;
pub mod session;
pub mod session_service;
pub mod time;
pub mod validators;
