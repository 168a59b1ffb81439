/// User configuration: per-service authentication and format overrides.
pub mod config;
/// The library's error kinds.
pub mod error;
/// Requests, responses and correlation of a fetched batch.
pub mod fetch;
/// Parsed URLs and registrable root domains.
pub mod link;
/// The text scanner: URL tokens out of free-form prose.
pub mod parse;
/// Template rendering against variables or a JSON body.
pub mod render;
/// Path patterns and the variables they bind.
pub mod route;
/// The routing table, request builder and response formatter.
pub mod service;
/// Small string helpers.
pub mod strutil;
/// The pipeline over one document: scan, resolve, fetch, format, emit.
pub mod unfurl;
