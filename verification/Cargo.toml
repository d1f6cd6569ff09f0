[package]
name = "automouse"
version = "0.1.0"
edition = "2021"
publish = false

[dependencies]
windows-sys = { version = "0.59", features = ["Win32_Foundation", "Win32_Media", "Win32_UI_Input_KeyboardAndMouse", "Win32_UI_WindowsAndMessaging"] }
eframe = { version = "0.31", default-features = false, features = ["default_fonts", "glow", "x11"] }
