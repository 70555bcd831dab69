//! A small HTTP/1.1 request pipeline: parsing, routing and response encoding.

pub mod config;
pub mod decimal;
pub mod gzip;
pub mod headers;
pub mod request;
pub mod response;
pub mod router;
pub mod text;
pub mod theorems;
