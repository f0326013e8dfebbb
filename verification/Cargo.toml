[package]
name = "printer_link"
version = "0.1.0"
edition = "2021"
publish = false

[dependencies]
embedded-hal = "0.2"
embedded-sdmmc = "0.5"
embedded-svc = "0.26"
enumset = "1"
esp-idf-hal = "0.42"
esp-idf-svc = "0.47"
esp-idf-sys = "0.33"
log = "0.4"
nb = "1"
