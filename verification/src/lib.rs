pub mod api;
pub mod args;
pub mod argument_laws;
pub mod auth;
pub mod batch;
pub mod checkpoint;
pub mod checkpoint_laws;
pub mod cli;
pub mod command_sandbox;
pub mod command_laws;
pub mod commands;
pub mod compact;
pub mod compact_laws;
pub mod config;
pub mod config_laws;
pub mod content;
pub mod context;
pub mod cost;
pub mod db;
pub mod defaults;
pub mod diff;
pub mod doctor;
pub mod document;
pub mod fingerprint_laws;
pub mod health_laws;
pub mod image_input;
pub mod image_laws;
pub mod json;
pub mod login_laws;
pub mod model;
pub mod model_catalog;
pub mod onboarding;
pub mod order;
pub mod output;
pub mod pairing;
pub mod path_laws;
pub mod path_map;
pub mod paths;
pub mod permission_laws;
pub mod permissions;
pub mod plugin;
pub mod plugin_laws;
pub mod profile_laws;
pub mod prompt_laws;
pub mod query;
pub mod repl;
pub mod repl_laws;
pub mod repl_loop;
pub mod sandbox;
pub mod session;
pub mod session_laws;
pub mod shutdown;
pub mod startup;
pub mod table;
pub mod text;
pub mod text_laws;
pub mod theme;
pub mod tokenizer_fingerprint;
pub mod trust;
pub mod turn_laws;
pub mod turn_loop;
