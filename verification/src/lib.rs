pub mod assemble;
pub mod contributor;
pub mod kwc;
pub mod muncher;
pub mod processor;
pub mod report;
pub mod strset;
pub mod tech;
pub mod text;
pub mod vcs;
