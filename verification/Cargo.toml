[package]
name = "async_state_machine_example"
version = "0.1.0"
edition = "2021"
publish = false

[dependencies]
futures = "0.3"
crossbeam = "0.8"
