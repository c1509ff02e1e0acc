[package]
name = "css_module_lexer"
version = "0.1.0"
edition = "2021"
publish = false

[dependencies]
smallvec = "1"
