[package]
name = "ass_editor"
version = "0.1.0"
edition = "2021"
publish = false

[dependencies]
iced = { version = "=0.14.0", default-features = false, features = ["tiny-skia", "x11", "thread-pool"] }
rfd = { version = "=0.17.2", default-features = false, features = ["xdg-portal"] }
glium = { version = "=0.36.0", default-features = false }

[dev-dependencies]
regex = "=1.13.1"
