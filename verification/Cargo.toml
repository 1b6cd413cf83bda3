[package]
name = "fanotify_fid"
version = "0.8.0"
edition = "2021"
publish = false

[dependencies]
libc = "=0.2.191"
smallvec = { version = "=1.16.4", features = ["const_generics"] }
