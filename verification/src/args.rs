//! The command line of the collector.

use vstd::prelude::*;

verus! {

/// The options of a collection.
#[derive(Debug)]
pub struct ArgsCollector {
    pub command: Option<RessourcesCommand>,
    /// The source of collecting artifact.
    pub source: String,
    /// The destination of collecting artifact.
    pub destination: String,
    /// Ressources selection.
    pub ressources: Vec<String>,
    /// Path to artifact resources.
    pub path_ressources: String,
    /// Zip the output directory.
    pub zip: bool,
    /// Set zip password.
    pub pass: Option<String>,
    /// Collect from vss.
    pub vss: bool,
    /// Print log output in terminal.
    pub log: bool,
    /// Verbose log.
    pub verbose: bool,
}

/// The commands besides collecting.
#[derive(Debug)]
pub enum RessourcesCommand {
    /// Ressource list options.
    Ressources(RessourcesArgs),
}

/// The options of the resource listing.
#[derive(Debug)]
pub struct RessourcesArgs {
    pub command: ListRessources,
}

/// What to list.
#[derive(Debug, Clone, Copy, PartialEq, Eq, Structural)]
pub enum ListRessources {
    /// List all target names.
    Targets,
    /// List all group names.
    Groups,
    /// List all categories and their resource names.
    Categories,
}

} // verus!
