[package]
name = "ec2_skim"
version = "0.1.0"
edition = "2021"
publish = false

[dependencies]
clap = "2"
rusoto_core = { version = "0.42", default-features = false, features = ["rustls"] }
rusoto_ec2 = { version = "0.42", default-features = false, features = ["rustls"] }
skim = "0.6"
