[package]
name = "astro_robots"
version = "0.1.0"
edition = "2021"
publish = false

[dependencies]
nanorand = "*"
pathfinding = "*"
clap = "*"
termion = "*"
