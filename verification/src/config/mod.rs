//! The configuration of a build flow: the content of the `zinoma.yml` files
//! (`yaml`) and the resolution of targets from it (`ir`).

pub mod yaml;
pub mod ir;
pub mod conversion;
pub mod projects;
pub mod single_file;
pub mod validation;
