use vstd::prelude::*;

pub mod access;
pub mod alerts;
pub mod atoms;
pub mod authority;
pub mod boot;
pub mod bytes;
pub mod copytree;
pub mod deploy;
pub mod digest;
pub mod disconnect;
pub mod discovery;
pub mod display;
pub mod env;
pub mod fileops;
pub mod files;
pub mod framing;
pub mod handles;
pub mod holders;
pub mod io;
pub mod launch;
pub mod lists;
pub mod log;
pub mod lookups;
pub mod mappings;
pub mod names;
pub mod objects;
pub mod parallax;
pub mod paths;
pub mod pe;
pub mod pipes;
pub mod ports;
pub mod prefix;
pub mod protocol;
pub mod registry;
pub mod report;
pub mod saves;
pub mod select;
pub mod session;
pub mod settings;
pub mod side_tables;
pub mod state;
pub mod sync;
pub mod table;
pub mod text;
pub mod token;
pub mod wire;

verus! {

} // verus!
