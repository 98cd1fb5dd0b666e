//! Verified core of an evolutionary search over network architectures.

pub mod blob;
pub mod calendar;
pub mod child;
pub mod config;
pub mod endgame;
pub mod evolve;
pub mod gate;
pub mod generation;
pub mod history;
pub mod json;
pub mod labels;
pub mod net;
pub mod options;
pub mod population;
pub mod race;
pub mod ranking;
pub mod records;
pub mod report;
pub mod resume;
pub mod robustness;
pub mod roll;
pub mod run_loop;
pub mod run_spec;
pub mod saved;
pub mod score;
pub mod seeds;
pub mod smoothing;
pub mod standing;
pub mod step;
pub mod tensor_file;
pub mod text;
pub mod twins;
pub mod victims;
pub mod volume;
