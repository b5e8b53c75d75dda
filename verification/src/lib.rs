//! Traffic generator, correctness oracle and worker decisions for testing a
//! duplex byte-stream transport.

pub mod descriptor;
pub mod generator;
pub mod laws;
pub mod worker;
