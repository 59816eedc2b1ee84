pub mod text;
pub mod license_db;
pub mod spdx_parser;
pub mod cargo_parser;
pub mod dependency_scanner;
pub mod compatibility_checker;
pub mod report_generator;
