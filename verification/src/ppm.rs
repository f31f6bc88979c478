//! The earlier `ppm` command line: its commands and the manifest its `init` writes.
use crate::cli::Manifest;
use vstd::prelude::*;

verus! {

/// Protobuf Package Manager.
pub struct Cli {
    pub command: Commands,
}

/// A subcommand of `ppm`.
pub enum Commands {
    /// Initialize a new workspace.
    Init(Init),
    /// Installs a package.
    Install(Install),
    /// Uninstalls a package.
    Uninstall(Uninstall),
    /// Publishes a package.
    Publish(Publish),
    /// Saving login credentials for the registry.
    Login(Login),
}

pub struct Init {
    pub verbose: bool,
}

pub struct Login {
    pub verbose: bool,
}

pub struct Install {
    pub name: String,
    pub global: bool,
    pub verbose: bool,
}

pub struct Uninstall {
    pub name: String,
    pub verbose: bool,
}

pub struct Publish {
    pub path: String,
    pub verbose: bool,
}

/// Errors of `ppm`.
pub enum PpmError {
    InternalError,
}

/// The manifest that `ppm init` writes: version `0.0.1`, sources under `protos`.
pub fn ppm_manifest(project_name: String, license: String) -> (m: Manifest)
    ensures
        m.name@ == project_name@,
        m.license@ == license@,
        m.version@ == "0.0.1"@,
        m.description@ == "Awesome Protobuf Package"@,
        m.src_dir@ == "protos"@,
        m.exclude@.len() == 0,
        m.dependencies@.len() == 0,
{
    Manifest {
        name: project_name,
        version: String::from_str("0.0.1"),
        src_dir: String::from_str("protos"),
        description: String::from_str("Awesome Protobuf Package"),
        license,
        authors: Vec::new(),
        repository_url: String::new(),
        metadata: Vec::new(),
        dependencies: Vec::new(),
        exclude: Vec::new(),
    }
}

/// How far the progress bar of `ppm` moves at each tick, in bytes.
pub const PROGRESS_STEP: u64 = 223211;

/// One tick of the progress bar: the new position, a step further but never past
/// `total`, and the percentage done at it, rounded down.
pub fn progress_tick(downloaded: u64, total: u64) -> (r: (u64, u64))
    requires
        0 < total,
        downloaded <= total,
        total <= u64::MAX / 100,
    ensures
        r.0 == (if downloaded + PROGRESS_STEP < total { downloaded + PROGRESS_STEP } else { total as int }),
        r.1 == (100 * r.0) / (total as int),
        r.1 <= 100,
{
    let next = if total - downloaded > PROGRESS_STEP {
        downloaded + PROGRESS_STEP
    } else {
        total
    };
    assert(100 * next <= 100 * total) by (nonlinear_arith)
        requires
            next <= total,
    ;
    assert((100 * next) / (total as int) <= 100) by (nonlinear_arith)
        requires
            next <= total,
            total > 0,
    ;
    (next, 100 * next / total)
}

} // verus!
