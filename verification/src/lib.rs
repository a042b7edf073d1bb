//! Compiles an OpenAPI description into a command tree and plans the HTTP
//! requests that the tree's operations stand for.

pub mod command_tree;
pub mod document;
pub mod merge;
pub mod naming;
pub mod openapi;
pub mod output;
pub mod params;
pub mod request;
pub mod slug;
pub mod text;
pub mod version;
pub mod yaml;
