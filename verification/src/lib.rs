//! The decision core of a pool of forked worker processes.
//!
//! The library holds no socket, no runtime and no clock: it frames bytes, tracks
//! jobs, and says what has to be sent, answered or forked next. The code around it
//! performs those actions and reports back what happened.
pub mod codec;
pub mod dummy;
pub mod error;
pub mod history;
pub mod lok;
pub mod message;
pub mod pdfium;
pub mod pool;
pub mod router;
pub mod router_calls;
pub mod router_laws;
pub mod system;
pub mod text;
pub mod worker;
