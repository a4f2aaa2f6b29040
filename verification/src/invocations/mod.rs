pub mod invocation;
pub mod invoker;
pub mod laws;
