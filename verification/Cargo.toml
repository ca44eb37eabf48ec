[package]
name = "draco_gltf"
version = "0.1.0"
edition = "2021"
publish = false

[dependencies]
gltf = { version = "*", features = ["extensions", "import"] }
draco_decoder = "*"
serde_json = "*"
thiserror = "*"
