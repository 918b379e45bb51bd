[package]
name = "masterblaster"
version = "0.1.0"
edition = "2021"
publish = false

[dependencies]
arrayvec = "0.7"
slotmap = "1"
libm = "0.2"
ringbuf = "0.4"
assert_no_alloc = "1"
cpal = "0.15"
