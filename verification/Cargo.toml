[package]
name = "symcache"
version = "0.1.0"
edition = "2021"
publish = false

[dependencies]
indexmap = "=2.14.2"
symbolic-common = "=13.9.0"
symbolic-debuginfo = "=13.9.0"
gimli = "=0.34.0"
object = "=0.40.0"
addr2line = "=0.27.1"
thiserror = "=2.0.21"
anyhow = "=1.0.104"
humansize = "=2.1.3"
memmap = "=0.7.0"
rand = "=0.10.3"
goblin = "=0.10.7"
uuid = "=1.29.0"
