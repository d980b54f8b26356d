pub mod config;
pub mod packet;
pub mod proxy;
pub mod roundtrip;
pub mod serializer;
pub mod text;
