[package]
name = "halberd"
version = "0.1.0"
edition = "2021"
publish = false

[dependencies]
chumsky = "*"
ariadne = "*"
num-bigint = "0.4"
num-rational = "0.4"
num-traits = "0.2"
enumset = "1"
unwrap-infallible = "*"
