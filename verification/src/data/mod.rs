//! Data layer: CDB constant database and IDM archive reader.

pub mod cdb;
pub mod idm;
