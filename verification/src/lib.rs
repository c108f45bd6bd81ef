pub mod addr;
pub mod engine;
pub mod frame;
pub mod pool;
pub mod registry;
pub mod transport;
