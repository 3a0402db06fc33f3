//! Partition-based clustering over fixed-point coordinate vectors.
//!
//! The library implements the shared skeleton of K-Means, K-Medians,
//! K-Medoids, Mini-Batch K-Means and the CLARANS medoid search: seeding
//! strategies (random, k-means++ weighted sampling, precomputed), the
//! nearest-center assignment step, the per-cluster update rules (mean,
//! median, medoid, online mean) and the displacement-based convergence
//! protocol that ties them together.
//!
//! Coordinates are fixed-point values held in `i64`: callers choose the
//! scale. Every coordinate must lie within `COORD_LIMIT` and every point
//! within `DIM_LIMIT` dimensions so that squared-distance sums stay inside
//! the machine integer ranges the proofs account for.

pub mod point;
pub mod sort;
pub mod arith;
pub mod config;
pub mod distance;
pub mod engine;
pub mod update;
pub mod statistics;
pub mod random;
pub mod seeding;
pub mod kmeans;
pub mod kmedians;
pub mod kmedoids;
pub mod mini_batch_kmeans;
pub mod clarans;
pub mod inertia;
pub mod xmeans;
