//! Differential testing of a test suite: the same tests run under several
//! toolkits, and this library decides where the toolkits agree.
//!
//! A transcript of each run is parsed into records, one for each test; each
//! record gets a fingerprint of its result and output; the records of all
//! toolkits are voted on, test by test; and the outcome is rendered as text.

pub mod builder;
pub mod consensus;
pub mod consensus_map;
pub mod error;
pub mod fingerprint;
pub mod lines;
pub mod names;
pub mod output;
pub mod pattern;
pub mod record;
pub mod report;
pub mod results;
pub mod text;
pub mod transcript;
pub mod voting_laws;

pub use consensus::{get_consensus_hash, vote, Verdict};
pub use consensus_map::{generate_consensus_map, ConsensusMap};
pub use error::ReferendumError;
pub use fingerprint::fingerprint;
pub use record::{Consensus, Entry, Record, Test, VoteResult};
pub use report::{
    generate_test_output_output, generate_test_result_output, get_consensus_results,
    get_dissenting_results, get_no_consensus_results,
};
pub use lines::parse_test_output;
pub use names::{get_test_names, names_from_tokens};
pub use output::{get_test_output, output_block, LineKind};
pub use results::{get_test_result, result_from_lines};
pub use transcript::{get_tests, parse_transcript, HarnessRun};
