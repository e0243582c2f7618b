//! Cordis: a runtime foundation for plugin applications.

pub mod chain;
pub mod cli;
pub mod cli_laws;
pub mod contained;
pub mod context;
pub mod converge;
pub mod deadline;
pub mod delivery;
pub mod deps;
pub mod dispatch;
pub mod dispose;
pub mod dotenv;
pub mod dotenv_laws;
pub mod drain;
pub mod effect;
pub mod era;
pub mod event;
pub mod event_store;
pub mod fiber;
pub mod frame;
pub mod handle;
pub mod ids;
pub mod inertia;
pub mod laws;
pub mod lifecycle;
pub mod logger;
pub mod logger_laws;
pub mod observation;
pub mod onion;
pub mod operate;
pub mod operations;
pub mod order;
pub mod owed;
pub mod pass;
pub mod plugin;
pub mod publish;
pub mod race;
pub mod reasons;
pub mod records;
pub mod registry;
pub mod replace;
pub mod requirements;
pub mod root;
pub mod scope;
pub mod seqs;
pub mod service;
pub mod settle;
pub mod snapshot;
pub mod sound;
pub mod spawn;
pub mod spawn_state;
pub mod state;
pub mod succession;
pub mod text;
pub mod transition;
pub mod update;
pub mod visibility;
pub mod waking;
pub mod waterfall;
pub mod worker;
pub mod worker_laws;
