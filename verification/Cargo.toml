[package]
name = "bt_file_transfer"
version = "0.1.0"
edition = "2021"
publish = false

[dependencies]
sha2 = "0.10"
windows = { version = "0.58", features = ["Devices_Bluetooth_Rfcomm", "Foundation", "Networking_Sockets", "Storage_Streams"] }
