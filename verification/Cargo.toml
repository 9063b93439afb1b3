[package]
name = "arch_builder"
version = "0.1.0"
edition = "2021"
publish = false

[dependencies]
anyhow = "=1.0.104"
lsp-types = "=0.97.0"
ruff_python_ast = "=0.0.3"
ruff_text_size = "=0.0.3"
tracing = "=0.1.44"
url = "=2.5.8"
weak-table = "=0.3.2"
