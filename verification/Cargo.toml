[package]
name = "audio_recorder"
version = "0.1.0"
edition = "2021"
publish = false

[dependencies]
anyhow = "=1.0.104"
audioadapter-buffers = "=2.0.0"
cpal = "=0.17.3"
crossbeam-channel = "=0.5.17"
ctrlc = "=3.5.2"
hound = "=3.5.1"
ringbuf = "=0.4.8"
rubato = "=1.0.1"
