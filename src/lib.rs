//! A three-stage concurrent pipeline (generate, fan-out square, fan-in merge)
//! whose every decision is made by verified step functions: the message
//! protocol of each stage, the generator, the round-robin worker pool, the
//! distributor's stop rule, and a model of channels whose liveness is the
//! count of their send-ends.
pub mod channel;
pub mod distributor;
pub mod generator;
pub mod message;
pub mod pool;
pub mod run;
