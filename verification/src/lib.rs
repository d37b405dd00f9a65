pub mod context;
pub mod creation;
pub mod data_containers;
pub mod global_properties;
pub mod groups;
pub mod observers;
pub mod partitions;
pub mod people;
pub mod person_properties;
pub mod random;
pub mod regions;
pub mod reports;
