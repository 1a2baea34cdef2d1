//! Middleware for HTTP requests.

pub mod propagation;
pub mod request;

pub use propagation::{PropagationLayer, PropagationService};
pub use request::CfRequestIdLayer;
