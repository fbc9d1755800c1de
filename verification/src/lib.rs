pub mod text;
pub mod endpoint;
pub mod uri;
pub mod config;
pub mod error;
pub mod tailwind;
pub mod templates;
pub mod routing;
pub mod scripts;
pub mod watch;
