//! Cycle-approximate pipeline model of a block-structured core, together with
//! the commit-stream comparison used for co-simulation and a static ELF image
//! loader.

pub mod record;
pub mod seqmap;
pub mod text;
pub mod config;
pub mod model;
pub mod stages;
pub mod decode;
pub mod blocks;
pub mod checkpoint;
pub mod iq;
pub mod iq_state;
pub mod iq_wake;
pub mod lsu_queues;
pub mod select;
pub mod issue;
pub mod lsu;
pub mod owner;
pub mod recovery;
pub mod dispatch;
pub mod cosim;
pub mod elf;
pub mod trace;
pub mod commit;
pub mod engine;
pub mod sweep;
