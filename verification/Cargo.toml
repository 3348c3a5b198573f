[package]
name = "sprite_atlas"
version = "0.1.0"
edition = "2021"
publish = false

[dependencies]
anyhow = "=1.0.104"
bpaf = { version = "=0.7.10", features = ["derive"] }
globwalk = "=0.8.1"
rayon = "=1.12.0"
resvg = "=0.29.0"
serde_json = "=1.0.154"
svgtypes = "=0.16.1"
xmltree = "=0.10.3"
