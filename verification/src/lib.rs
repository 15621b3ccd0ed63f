//! The coordination logic of a compute cluster: a server that queues tasks and
//! hands them to worker nodes, the workers that carry them out, and the client
//! that submits them and reads the results.
pub mod api;
pub mod choice;
pub mod clock;
pub mod cluster;
pub mod executor;
pub mod ident;
pub mod job;
pub mod laws;
pub mod laws_of_choice;
pub mod laws_of_client;
pub mod laws_of_tasks;
pub mod laws_of_text;
pub mod laws_of_values;
pub mod laws_of_work;
pub mod message;
pub mod monitor;
pub mod node;
pub mod output;
pub mod registry;
pub mod rest;
pub mod round;
pub mod scheduler;
pub mod seqs;
pub mod session;
pub mod show;
pub mod state;
pub mod string_map;
pub mod submitter;
pub mod task;
pub mod text;
pub mod worker;
