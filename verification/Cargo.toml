[package]
name = "horse_betting"
version = "0.1.0"
edition = "2021"
publish = false
