//! A small HTTP request-dispatch core: a radix-tree router with positional
//! path parameters, request framing and response serialization.
pub mod text;
pub mod text_map;
pub mod request;
pub mod route_model;
pub mod route_laws;
pub mod radix_tree;
pub mod response;
pub mod router;
pub mod server;
pub mod compression;
