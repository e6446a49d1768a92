//! Verified core logic of a set of MATLAB-compatible builtins: text
//! tokenising, version comparison, calendar arithmetic, binary formatting,
//! broadcasting concatenation, cell partitioning and descriptor metadata.

pub mod text;
pub mod value;
pub mod error;
pub mod descriptor;
pub mod strtok;
pub mod version;
pub mod ver_less_than;

pub mod digits;
pub mod datestr;
pub mod etime;
pub mod dec2bin;
pub mod display;
pub mod strncmpi;
pub mod sorting;
pub mod what;
pub mod seconds;
pub mod fields;
pub mod eps;
pub mod shape;
pub mod broadcast;
pub mod histc;
pub mod num2cell;
pub mod str2num;
pub mod normalize;
pub mod spdiags;
pub mod accumarray;
pub mod text_utils;
pub mod matches;
pub mod strmatch;
pub mod int2str;
pub mod saveas;
pub mod system;
pub mod speye;
pub mod full;
pub mod predicates;
pub mod append;
