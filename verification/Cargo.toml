[package]
name = "phpbb_pwhash"
version = "0.1.0"
edition = "2021"

[dependencies]
base64 = "0.13"
md5 = "0.7"
