[package]
name = "almanac"
version = "0.1.0"
edition = "2021"
publish = false

[dependencies]
hifitime = "=4.2.6"
indexmap = "=2.14.2"
log = "0.4"
snafu = "0.8"

[dev-dependencies]
rayon = "1"
