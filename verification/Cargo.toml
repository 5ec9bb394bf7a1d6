[package]
name = "fast_check"
version = "0.1.0"
edition = "2021"
publish = false

[dependencies]
# The default module set minus the time module: with the clock excluded,
# every remaining module computes from the scanned bytes alone, so a scan's
# outcome is a function of the compiled rules and the data. The default
# build is also avoided because its proto code generation runs a build
# script that does not work here; the crate ships pre-generated code.
yara-x = { version = "=1.21.0", default-features = false, features = [
    "constant-folding",
    "exact-atoms",
    "fast-regexp",
    "console-module",
    "crx-module",
    "cuckoo-module",
    "dex-module",
    "dotnet-module",
    "elf-module",
    "hash-module",
    "lnk-module",
    "macho-module",
    "math-module",
    "pe-module",
    "string-module",
    "test_proto2-module",
    "test_proto3-module",
    "vt-module",
    "zip-module",
] }
tokio = { version = "=1.53.2", features = ["rt-multi-thread", "macros", "sync", "fs"] }
clap = "=4.6.7"
