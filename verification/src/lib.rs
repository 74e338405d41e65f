pub mod config;
pub mod health;
pub mod icons;
pub mod k8s;
pub mod model;
pub mod observability;
pub mod store;
pub mod text;
pub mod web;
