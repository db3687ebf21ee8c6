//! A DNS server that forwards, filters and rewrites: what it decides and
//! computes. Sockets, files, downloads and the DNS messages themselves are
//! left to the program around it.
pub mod address_laws;
pub mod answer_laws;
pub mod authority;
pub mod chain;
pub mod compiled;
pub mod domain;
pub mod fetch;
pub mod filtering;
pub mod ip;
pub mod laws;
pub mod lifecycle;
pub mod list_laws;
pub mod name;
pub mod number;
pub mod overrides;
pub mod rule;
pub mod rule_laws;
pub mod rule_sets;
pub mod run_laws;
pub mod server;
pub mod serving_laws;
pub mod settings;
pub mod startup;
pub mod text;
pub mod text_laws;
pub mod upstream_laws;
pub mod value_laws;
