//! Lock protocols, id generation, one-time initialisation and a small
//! pseudo-random generator, each stated over plain values and verified.
pub mod generator;
pub mod interleaving;
pub mod lazy;
pub mod mutex;
pub mod random;
pub mod threadpool;
