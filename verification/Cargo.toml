[package]
name = "fl_convert"
version = "0.1.0"
edition = "2021"
publish = false

[dependencies]
bstr = "1"
regex = "1"
chrono = "0.4"
directories = "5"
native-windows-gui = "1"
native-windows-derive = "1"
