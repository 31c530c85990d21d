//! Which Boolean functions a single clipped-ramp threshold unit can realize,
//! searched over a discretized weight/bias lattice with exact rational
//! arithmetic, together with the minimal AND/OR gate count of each function.
pub mod activation;
pub mod basin;
pub mod complexity;
pub mod encoding;
pub mod lattice;
pub mod report;
pub mod reverse;
pub mod search;
pub mod tables;
