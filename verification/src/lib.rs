//! Help-desk ticketing: session keyring, password hashing, account and
//! ticket records, and the decisions behind each web endpoint.

pub mod authentication;
pub mod db;
pub mod pages;
