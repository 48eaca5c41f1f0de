[package]
name = "spine"
version = "0.1.0"
edition = "2021"
publish = false

[dependencies]
serde_json = "=1.0.151"
serde = { version = "=1.0.229", features = ["derive"] }
tokio = { version = "=1.53.2", features = ["full"] }
tokio-serial = "=5.5.0"
serialport = "=4.10.1"
sysfs_gpio = "=0.6.2"
linux-embedded-hal = { version = "=0.5.0", default-features = false, features = ["i2c"] }
pwm-pca9685 = "=1.0.0"
toml = "=1.1.7"
xdg = "=3.0.0"

[dev-dependencies]
postcard = { version = "=1.1.3", features = ["alloc"] }
