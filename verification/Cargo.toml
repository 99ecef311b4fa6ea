[package]
name = "noisy_clusters"
version = "0.1.0"
edition = "2021"
publish = false

[dependencies]
linfa = "0.7"
linfa-clustering = "0.7"
ndarray = "0.15"
plotters = "0.3"
rand = "0.8"
rand_distr = "0.4"
