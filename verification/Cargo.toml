[package]
name = "anglerkit"
version = "0.1.0"
edition = "2021"
publish = false

[dependencies]
talc = { version = "=4.4.3", default-features = false }
region = "=3.0.2"
closure-ffi = { version = "=5.1.2", default-features = false, features = ["std", "default_jit_alloc", "no_safe_jit"] }
spin = "=0.12.3"
lock_api = "=0.5.0"
parking_lot = "=0.13.0"
microseh = "*"
thiserror = "=2.0.21"
windows-sys = { version = "=0.61.2", features = ["Win32_Foundation", "Win32_System_Memory", "Win32_System_Kernel", "Win32_System_Diagnostics_Debug"] }

[dev-dependencies]
rand = "=0.10.3"
