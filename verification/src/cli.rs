//! The command line of the `deft` binary as plain data: the global flags,
//! the subcommands and their arguments. Parsing the process arguments into
//! these values is the binary's own job.
use vstd::prelude::*;

verus! {

/// The parsed command line.
#[derive(Debug, Clone)]
pub struct Cli {
    /// Verbosity level (`-v`, `-vv`).
    pub verbose: u8,
    /// Suppress non-essential output.
    pub quiet: bool,
    /// Emit machine-readable JSON instead of human-readable text (honored
    /// by `build` and `doctor`).
    pub json: bool,
    /// The subcommand to execute.
    pub command: Command,
}

/// All top-level subcommands deft understands.
#[derive(Debug, Clone)]
pub enum Command {
    /// Compile the current package and all of its dependencies.
    Build(BuildArgs),
    /// Build (if needed) and then run the resulting executable.
    Run(RunArgs),
    /// Create a new deft package in the given directory.
    Init(InitArgs),
    /// Re-resolve project dependencies and rewrite `deft.lock`; never
    /// touches the package index.
    Update(UpdateArgs),
    /// Diagnose the local toolchain and environment.
    Doctor,
    /// Refresh the local package index (`~/.deft/deft-libs`); never resolves
    /// dependencies.
    Sync,
    /// Generate a starter `deft.toml` from an existing build system's config.
    Migrate(MigrateArgs),
    /// Vendor every dependency in `deft.lock` into `third_party/`.
    Vendor(VendorArgs),
    /// Run Clang's static analyzer over the package's sources.
    Check(CheckArgs),
}

/// Arguments shared by `build` and (transitively) `run`.
#[derive(Debug, Clone)]
pub struct BuildArgs {
    pub release: bool,
    pub output: Option<String>,
    pub jobs: Option<usize>,
    pub manifest_path: Option<String>,
    pub features: Vec<String>,
    pub no_default_features: bool,
    pub trace: bool,
    pub target: Option<String>,
    pub from: Option<String>,
    pub ignore_warnings: bool,
}

/// Arguments for `deft check`: no artifact, so no `--release`, `-o` or
/// `--trace`.
#[derive(Debug, Clone)]
pub struct CheckArgs {
    pub manifest_path: Option<String>,
    pub jobs: Option<usize>,
    pub features: Vec<String>,
    pub no_default_features: bool,
    pub target: Option<String>,
}

/// Arguments for `deft run`.
#[derive(Debug, Clone)]
pub struct RunArgs {
    pub build: BuildArgs,
    /// Arguments forwarded verbatim to the executed binary (after `--`).
    pub bin_args: Vec<String>,
}

/// Arguments for `deft init`.
#[derive(Debug, Clone)]
pub struct InitArgs {
    pub path: String,
    pub name: Option<String>,
    pub lib: bool,
    pub bin: bool,
    pub c: bool,
}

/// Arguments for `deft update`.
#[derive(Debug, Clone)]
pub struct UpdateArgs {
    pub manifest_path: Option<String>,
    /// Only update this specific dependency (by package name).
    pub package: Option<String>,
}

/// Arguments for `deft vendor`.
#[derive(Debug, Clone)]
pub struct VendorArgs {
    pub manifest_path: Option<String>,
}

/// Arguments for `deft migrate`.
#[derive(Debug, Clone)]
pub struct MigrateArgs {
    /// The build system to migrate from (`cmake`).
    pub from: String,
    pub path: Option<String>,
}

} // verus!
