//! The servers.
pub mod citrini_repplinger_vassoille;
pub mod registry;
pub mod registry_laws;
pub mod relay;
pub mod relay_laws;
pub mod routing_behaviour;
pub mod routing_laws;
pub mod sample;
pub mod sample_behaviour;
pub mod sample_laws;
