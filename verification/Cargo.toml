[package]
name = "netgauge"
version = "0.1.0"
edition = "2021"
publish = false

[dependencies]
snmp2 = "=0.5.2"
libc = "=0.2.190"
windows = { version = "=0.58.0", features = ["Win32_Foundation", "Win32_NetworkManagement_IpHelper", "Win32_NetworkManagement_Ndis"] }
