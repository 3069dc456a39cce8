pub mod database_utils;
pub mod defaults_for_models;
pub mod field_map;
pub mod laws;
pub mod pool_config;
pub mod standardized_error;
pub mod text;
