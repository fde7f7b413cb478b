[package]
name = "git-repo-language-trends"
version = "0.1.0"
edition = "2021"
publish = false

[dependencies]
chrono = "0.4"
git2 = { version = "0.13", default-features = false }
indicatif = "0.15"
structopt = "0.3"
