[package]
name = "seqbox"
version = "0.1.0"
edition = "2021"
publish = false

[dependencies]
reed-solomon-erasure = "*"
sha1 = "*"
sha2 = "*"
blake2 = "*"
num_cpus = "*"
clap = "*"
rand = "*"
smallvec = "*"
