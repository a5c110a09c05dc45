pub mod text;
pub mod front_matter;
pub mod config;
pub mod paths;
pub mod engine;
pub mod translator;
pub mod drafts;
pub mod session;
pub mod names;
