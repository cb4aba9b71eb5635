[package]
name = "r_json_event_parser"
version = "0.1.0"
edition = "2021"

[dependencies]
clap = "2.34.0"
