[package]
name = "diorama"
version = "0.1.0"
edition = "2021"
publish = false

[dependencies]
fastnoise-lite = "1"
minifb = "*"
nalgebra-glm = "*"
once_cell = "1"
rand = "0.8"
tobj = "4"
