[package]
name = "bevy_luau"
version = "0.1.0"
edition = "2021"
publish = false

[dependencies]
bevy = { version = "=0.17.3", default-features = false, features = ["bevy_asset"] }
lasso = "=0.7.3"
smallvec = "=1.16.4"
fixedbitset = "=0.5.7"
bumpalo = "=3.20.3"
serde = { version = "=1.0.229", features = ["derive"] }
thiserror = "=2.0.21"
