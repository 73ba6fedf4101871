[package]
name = "rb"
version = "0.1.0"
edition = "2021"
publish = false

[dependencies]
serde_json = "*"
swc = "*"
swc_atoms = "*"
swc_common = "*"
swc_ecma_ast = "*"
swc_ecma_parser = "*"
swc_ecma_transforms = "*"
swc_ecma_visit = "*"
oxc_resolver = "*"
