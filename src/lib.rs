//! Build-time API surface compiler: reads handler functions out of source
//! files and synthesizes server route wiring and client type bindings.
//! Also holds the example handlers it is run against and the token data types.

pub mod api;
pub mod binding;
pub mod endpoint;
pub mod extract;
pub mod generate;
pub mod jwt;
pub mod route;
pub mod template;
pub mod text;
pub mod typemap;
