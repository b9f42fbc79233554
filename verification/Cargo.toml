[package]
name = "cubek-einsum"
version = "0.1.0"
edition = "2021"
publish = false

[dependencies]
hashbrown = "=0.17.1"
thiserror = "=2.0.21"
cubecl = { version = "=0.9.0", default-features = false, features = ["std", "stdlib"] }
cubek-matmul = { version = "=0.1.1", default-features = false }
cubek-reduce = { version = "=0.1.1", default-features = false }
