[package]
name = "auto_commit"
version = "0.1.0"
edition = "2021"
publish = false

[dependencies]
async-openai = { version = "=0.42.1", features = ["chat-completion"] }
clap = { version = "=4.6.7", features = ["derive"] }
clap-verbosity-flag = "=3.0.4"
env_logger = "=0.11.11"
log = "=0.4.34"
question = "=0.2.2"
rand = "=0.10.3"
serde_json = "=1.0.151"
spinners = "=4.2.0"
tokio = { version = "=1.53.2", features = ["macros", "rt-multi-thread"] }
