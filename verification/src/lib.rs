//! Finds the modules of a Puppetfile for which the Puppet Forge offers a newer
//! release, and grades each upgrade as major, minor or patch.

pub mod forge;
pub mod manifest;
pub mod order;
pub mod puppet_module;
pub mod text;
pub mod version;
