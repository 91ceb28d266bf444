[package]
name = "eu4save"
version = "0.1.0"
edition = "2021"
publish = false

[dependencies]
jomini = { version = "*", features = ["derive"] }
rawzip = "*"
flate2 = "*"
miniz_oxide = "*"
serde = { version = "1", features = ["derive"] }
thiserror = "*"
once_cell = "*"
smallvec = "*"
