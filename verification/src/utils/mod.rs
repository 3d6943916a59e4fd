pub mod file_handler;
pub mod logger;
pub mod text;
