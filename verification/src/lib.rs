pub mod controllers;
pub mod models;
pub mod pagination;
pub mod registry;
pub mod repository;
pub mod responses;
pub mod services;
pub mod sql;
pub mod text;
pub mod write_path;
