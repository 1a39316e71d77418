//! A reader for ENDF-6 evaluated nuclear data files.

pub mod ace;
pub mod chain;
pub mod data;
pub mod depletion;
pub mod error;
pub mod function;
pub mod incident_neutron;
pub mod incident_photon;
pub mod material;
pub mod mf;
pub mod neutron_table;
pub mod njoy;
pub mod photon_data;
pub mod product;
pub mod radionuclide;
pub mod reaction;
pub mod records;
pub mod reduce;
pub mod text;
pub mod univariate;
