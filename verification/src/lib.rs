//! A registry that hands network devices exclusive port numbers from one
//! shared pool and renders the resulting device-to-port mapping as a routing
//! document for a reverse proxy.
//!
//! Every public function carries a contract over the mathematical model of
//! its arguments, and the contracts are proved. The one thing that is taken
//! on trust is how `db::failure` reads a failure of the relational store.

pub mod allocation;
pub mod authorize_key;
pub mod db;
pub mod errors;
pub mod registration;
pub mod routes;
pub mod text;
pub mod types;
