pub mod error;
pub mod event;
pub mod subscriber;
pub mod subscription;
pub mod transformer;
