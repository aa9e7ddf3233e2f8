[package]
name = "spooky_maze"
version = "0.1.0"
edition = "2021"
publish = false

[dependencies]
rand = "=0.9.5"
rand_chacha = "=0.9.0"
petgraph = "=0.8.3"
getrandom = "=0.2.17"
bevy_ecs = "=0.17.3"
embedded-graphics = "=0.8.2"
embedded-graphics-framebuf = "=0.5.0"
tinybmp = "=0.7.0"
embedded-hal = "=1.0.0"
log = "=0.4.35"
byte-slice-cast = "1"
display-interface = "0.5"
