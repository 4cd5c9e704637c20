//! Core of a multi-user task-list service: credential storage and
//! verification, bearer-token issuance and validation, and per-user task
//! operations that never read or mutate another user's rows.
pub mod gate;
pub mod service;
pub mod store;
pub mod subject;
pub mod text;
pub mod token;
pub mod username;
