[package]
name = "cells"
version = "0.1.0"
edition = "2021"
publish = false

[dependencies]
nannou = "0.18"
nannou_core = "0.18"
rand = "0.8"
log = "0.4"
env_logger = "*"
geo = "*"
