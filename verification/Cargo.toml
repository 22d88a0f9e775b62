[package]
name = "onesaves"
version = "0.1.0"
edition = "2021"
publish = false

[dependencies]
crc32fast = "=1.5.4"
md-5 = "=0.11.0"
sha1 = "=0.11.0"
sha2 = "=0.11.1"
encoding_rs = "=0.8.44"
png = "=0.18.1"
zip = { version = "=9.2.2", default-features = false, features = ["deflate"] }
unicode-width = "=0.2.3"
datary = "*"
