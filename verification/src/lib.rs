//! Offsets and byte signatures for AnotherCrewLink, worked out from Among Us game files.

pub mod anchors;
pub mod decode;
pub mod dumpcs;
pub mod error;
pub mod gameinfo;
pub mod generate;
pub mod il2cpph;
pub mod json;
pub mod loader;
pub mod lookup;
pub mod masking;
pub mod numbers;
pub mod offsets;
pub mod passing;
pub mod pattern;
pub mod pe;
pub mod plausible;
pub mod publishing;
pub mod reading;
pub mod report;
pub mod run;
pub mod schema;
pub mod scriptjson;
pub mod sha256;
pub mod siggen;
pub mod sizes;
pub mod slots;
pub mod spelling;
pub mod text;
pub mod tools;
pub mod validate;
