[package]
name = "dkim_prover_input"
version = "0.1.0"
edition = "2021"
publish = false

[dependencies]
base64 = "=0.23.1"
eml-parser = "=0.1.5"
noir-bignum-paramgen = "=0.1.5"
num-bigint-dig = "=0.8.6"
rsa = "=0.9.10"
trust-dns-resolver = "=0.23.2"
