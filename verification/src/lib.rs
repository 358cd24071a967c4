//! Cache hierarchy of simulated SGLang engines, as replay needs it, with the
//! router settings and the latency reference of a replay and the splitting of
//! merged chat chunks.
//!
//! Each stateful type has a mathematical model with one operation per method; the
//! methods are proved to take the model's steps, and the laws speak of the
//! models.

pub mod chat_stream;
pub mod facts;
pub mod geometry;
pub mod hicache;
pub mod hicache_effects;
pub mod hicache_laws;
pub mod hicache_model;
pub mod ideal_l1;
pub mod ideal_l1_effects;
pub mod ideal_l1_laws;
pub mod l2_effects;
pub mod l2_laws;
pub mod l2_model;
pub mod l3_effects;
pub mod l3_laws;
pub mod l3_model;
pub mod prefetch_effects;
pub mod prefix;
pub mod protocols;
pub mod recency;
pub mod report_laws;
pub mod router_laws;
pub mod router_shared;
pub mod sequence;
pub mod shared_l3;
pub mod stop_split;
pub mod stop_split_effects;
pub mod stop_split_laws;
pub mod timestamp;
pub mod value_laws;
pub mod worker_l2;
