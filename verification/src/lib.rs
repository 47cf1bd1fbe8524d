pub mod text;
pub mod csv;
pub mod table;
pub mod clock;
pub mod profile;
pub mod registry;
pub mod orchestrator_config;
pub mod resource;
pub mod orchestrator;
pub mod hermes;
pub mod proxy;
pub mod folder;
pub mod bookmark;
pub mod extension;
pub mod auth;
pub mod session;
pub mod transfer;
pub mod cdp;

use vstd::prelude::*;

verus! {

/// What the application's commands and its control server share: the profiles, the browsers
/// running, and the orchestrator that decides what may open.
pub struct AppState {
    pub manager: profile::ProfileManager,
    pub registry: registry::ProfileRegistry,
    pub orchestrator: orchestrator::Orchestrator,
}

impl AppState {
    /// No profiles, no browsers running, and an orchestrator with `config`.
    pub fn new(config: orchestrator_config::OrchestratorConfig) -> (s: Self)
        ensures
            s.manager.wf(),
            s.manager.profiles().len() == 0,
            s.manager.groups().len() == 0,
            s.registry.wf(),
            s.registry.entries().len() == 0,
            s.orchestrator.wf(),
            s.orchestrator.config == config,
    {
        AppState {
            manager: profile::ProfileManager::new(),
            registry: registry::ProfileRegistry::new(),
            orchestrator: orchestrator::Orchestrator::new(config),
        }
    }
}

} // verus!
