pub mod compiled;
pub mod yaml;
