//! SpecMatrix: the verified core of a compatibility tester for observability
//! backends.

pub mod text;
pub mod template;
pub mod order;
pub mod query;
pub mod runner;
pub mod matrix;
pub mod json;
pub mod compare;
pub mod otlp;
pub mod es;
pub mod loki;
pub mod remote_write;
pub mod backend;
pub mod case;
pub mod docker;
pub mod encode;
pub mod stub;
pub mod report;
pub mod clock;
pub mod steps;
pub mod points;
pub mod laws;
