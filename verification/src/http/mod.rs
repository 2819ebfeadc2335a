pub mod status;
pub mod text;
pub mod headers;
pub mod request;
pub mod response;
