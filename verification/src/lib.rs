pub mod text;
pub mod path;
pub mod registry;
pub mod stats;
pub mod walk;
pub mod ring;
pub mod silos;
pub mod date;
pub mod uri;
pub mod args;
pub mod service;
pub mod transfer;
pub mod response;
pub mod db;
pub mod laws;
pub mod calls;
