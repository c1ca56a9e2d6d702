[package]
name = "packet_buffer"
version = "0.1.0"
edition = "2021"
publish = false

[dependencies]
encoding_rs = "=0.8.42"
memchr = "=2.8.3"
num-bigint = "=0.4.8"
proc-macro2 = "1"
quote = "1"
syn = "1"
