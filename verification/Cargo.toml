[package]
name = "htknow"
version = "0.1.0"
edition = "2021"
publish = false

[dependencies]
base64 = "=0.23.1"
serde_json = "=1.0.154"
zip = "=9.2.2"
tar = "=0.4.46"
flate2 = "=1.1.10"
bzip2 = "=0.6.1"
xz2 = "=0.1.7"
regex = "=1.13.1"
aho-corasick = "=1.1.5"
sha2 = "=0.11.1"
