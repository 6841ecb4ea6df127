[package]
name = "event_feed"
version = "0.1.0"
edition = "2021"
publish = false

[dependencies]
anyhow = "=1.0.104"
chrono = "=0.4.45"
chrono-tz = "=0.10.4"
icalendar = "=0.17.15"
reqwest = { version = "=0.11.27", default-features = false, features = ["rustls-tls"] }
rrule = { version = "=0.14.0", features = ["exrule"] }
serde = { version = "=1.0.229", features = ["derive"] }
serde_json = "=1.0.154"
tokio = { version = "=1.54.1", features = ["macros", "rt-multi-thread", "sync"] }
urlencoding = "=2.1.3"
warp = "=0.3.7"
