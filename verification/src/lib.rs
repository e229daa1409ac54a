pub mod cli;
pub mod convert;
pub mod laws;
pub mod model;
pub mod results;
pub mod text;
