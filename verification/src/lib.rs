//! The verified core of an operator that runs snapshots of machines on request.
//!
//! A request is routed and admitted ([`request`]). A run of a machine is logged, its outputs are
//! held against the root that the machine finished with, and the answer is built ([`classic`],
//! [`outputs_merkle`]). A request for a snapshot is answered from what is on disk ([`ensure`]),
//! and a snapshot that is missing is downloaded step by step ([`download`], [`directory`]).
//!
//! The library performs no input or output. Where the operator has to look at a disk or talk to
//! another host, a function of the library says what to do next, and the program around it hands
//! back what became of it.

pub mod classic;
pub mod config;
pub mod digest;
pub mod directory;
pub mod download;
pub mod ensure;
pub mod hexadecimal;
pub mod json;
pub mod outputs_merkle;
pub mod request;
pub mod response;
pub mod text;
