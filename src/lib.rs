// Keeps a version number and a release suffix in a small state file, moves the
// version on with carries between its decimal fields, and builds the argument
// lists of the version-control calls that commit, push and push tags.

pub mod command;
pub mod number;
pub mod state;
pub mod text;
pub mod version;
