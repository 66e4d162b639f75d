[package]
name = "sv2_roles_logic"
version = "0.1.0"
edition = "2021"
publish = false

[dependencies]
bitcoin = "0.27"
binary_sv2 = "0.1"
mining_sv2 = "0.1"
template_distribution_sv2 = "0.1"
sv1_api = "*"
tracing = "0.1"

[dev-dependencies]
rand = "0.8"
