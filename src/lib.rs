//! Conda package metadata, version ordering, selectors and dependency resolution.
pub mod channel;
pub mod index;
pub mod match_spec;
pub mod platform;
pub mod repo_data;
pub mod solver;
pub mod string_matcher;
pub mod text;
pub mod version;
pub mod version_spec;

pub use channel::{empty_channel, Channel};
pub use index::PackageIndex;
pub use match_spec::{MatchSpec, ParseMatchSpecError};
pub use platform::{determine_subdir, ConvertSubdirError, Platform};
pub use repo_data::{ChannelInfo, IndexJson, NoArchType, PackageRecord, RepoData, RepoDataRecord};
pub use solver::{solve, Edge, Solution, SolveError};
pub use string_matcher::{ParseStringMatcherError, StringMatcher};
pub use version::{Component, ParseVersionError, Version};
pub use version_spec::{Op, ParseVersionSpecError, VersionSpec};
