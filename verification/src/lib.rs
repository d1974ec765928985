//! Load-balancing agent for a Kubernetes cluster: it scores the replicas of
//! each deployment from their resource metrics and writes an nginx
//! configuration that routes every application to its best replica.
//!
//! This crate holds the verified logic of the agent: text handling, the
//! JSON documents read from Redis and the metrics service, the matching of
//! containers to pods, the planning of the scoring requests, and the
//! generation of the nginx configuration.
pub mod balancer;
pub mod containers;
pub mod db;
pub mod endpoints;
pub mod index;
pub mod json;
pub mod nginx;
pub mod settings;
pub mod text;
