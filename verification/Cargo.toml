[package]
name = "rigela"
version = "0.1.0"
edition = "2021"
publish = false

[dependencies]
arc-swap = "=1.9.3"
async-trait = "=0.1.92"
chrono = "=0.4.45"
log = "=0.4.34"
native-windows-derive = "=1.0.5"
native-windows-gui = "=1.0.13"
scintilla-sys = "=5.5.7"
serde = { version = "=1.0.229", features = ["derive"] }
tokio = { version = "=1.54.1", features = ["fs", "io-util", "macros", "process", "rt-multi-thread", "sync", "time"] }
toml = "=0.8.23"
windows = { version = "=0.52.0", features = ["Win32_Foundation", "Win32_Globalization", "Win32_System_Com", "Win32_System_Diagnostics_Debug", "Win32_System_LibraryLoader", "Win32_System_Memory", "Win32_System_Performance", "Win32_System_Threading", "Win32_UI_Accessibility", "Win32_UI_Input_Ime", "Win32_UI_Input_KeyboardAndMouse", "Win32_UI_WindowsAndMessaging"] }
