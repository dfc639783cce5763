[package]
name = "wt"
version = "0.1.0"
edition = "2021"
publish = false

[dependencies]
anyhow = "*"
clap = { version = "*", features = ["derive"] }
colored = "*"
console = "*"
dialoguer = "*"
git2 = { version = "*", default-features = false }
inquire = "*"
is-terminal = "*"
owo-colors = "*"
serde = { version = "*", features = ["derive"] }
tokio = { version = "*", features = ["macros", "rt-multi-thread", "process", "fs"] }
