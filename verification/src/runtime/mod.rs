pub mod executor;
pub mod reactor;
pub mod tcp;
