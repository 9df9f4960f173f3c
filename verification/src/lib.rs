pub mod text;
pub mod types;
pub mod paths;
pub mod pathiter;
pub mod listing;
pub mod config;
pub mod remote;
pub mod app;
pub mod navigate;
pub mod event;
pub mod download;
pub mod search;
pub mod control;
pub mod view;
pub mod errlog;
