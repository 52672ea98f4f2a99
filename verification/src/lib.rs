//! Subdomain enumeration: the verified core of a subdomain discovery tool.

pub mod text;
pub mod sorted_set;
pub mod pattern;
pub mod http_operations;
pub mod address;
pub mod session_manager;
pub mod report;
