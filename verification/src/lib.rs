//! A verified load-balancing core and the domain logic of the services
//! around it: the target pool with its round-robin, skip-unhealthy
//! selection policy; the health monitors' classification and
//! transition reporting; the file server's HTTP request and response
//! model; the URL-shortener's configuration, domain service and HTTP
//! edge; and a JSON tokenizer and parser. All I/O — sockets, probes,
//! files, the process environment — lives outside this crate and hands
//! the library plain values.

pub mod config;
pub mod handlers;
pub mod healthchecker;
pub mod healthchecks;
pub mod http_request;
pub mod http_response;
pub mod lexer;
pub mod models;
pub mod parser;
pub mod server;
pub mod service;
pub mod short_url;
pub mod startup;
pub mod targets;
pub mod text;
