//! Run configuration: the parsed command-line arguments, the choice of what
//! a run does, and the configuration errors that are fatal before any
//! request is sent.

use vstd::prelude::*;

verus! {

/// The command-line arguments of one run, as plain values.
#[derive(Clone, Debug)]
pub struct Args {
    /// How many feature toggles should be generated.
    pub count: u32,
    /// How many strategies per feature toggle.
    pub strategies_per_feature: u32,
    /// Which (already existing) environment to create the strategies under.
    pub environment: String,
    /// Do not POST; only write the generated data to standard output.
    pub print_to_shell: bool,
    /// The service instance to generate data for.
    pub unleash_url: String,
    /// The project to generate features under.
    pub project_name: String,
    /// An admin API key or service-account token.
    pub api_key: Option<String>,
    /// Render the command-line help in markdown format and exit.
    pub markdown: bool,
}

/// A configuration error, detected before any network activity.
#[derive(Clone, Copy, Debug, PartialEq, Eq, Structural)]
pub enum ConfigError {
    /// The base URL does not parse as a URL.
    InvalidBaseUrl,
    /// Upload was requested (not print-only) but no API token was supplied.
    MissingApiKey,
}

/// What one run does: the modes are mutually exclusive.
#[derive(Clone, Copy, Debug, PartialEq, Eq, Structural)]
pub enum RunMode {
    /// Render the command-line help and exit.
    Markdown,
    /// Print the generated data; no network activity.
    Print,
    /// Upload the generated data to the target service.
    Upload,
}

/// Decides what a run does. Markdown rendering wins over everything,
/// printing wins over uploading, and a run that would upload without a
/// token is a configuration error rather than an attempt with an invalid
/// credential.
pub fn run_mode(args: &Args) -> (r: Result<RunMode, ConfigError>)
    ensures
        args.markdown ==> r == Result::<RunMode, ConfigError>::Ok(RunMode::Markdown),
        !args.markdown && args.print_to_shell ==> r == Result::<RunMode, ConfigError>::Ok(
            RunMode::Print,
        ),
        !args.markdown && !args.print_to_shell && args.api_key is Some ==> r == Result::<
            RunMode,
            ConfigError,
        >::Ok(RunMode::Upload),
        !args.markdown && !args.print_to_shell && args.api_key is None ==> r == Result::<
            RunMode,
            ConfigError,
        >::Err(ConfigError::MissingApiKey),
{
    if args.markdown {
        Ok(RunMode::Markdown)
    } else if args.print_to_shell {
        Ok(RunMode::Print)
    } else if args.api_key.is_some() {
        Ok(RunMode::Upload)
    } else {
        Err(ConfigError::MissingApiKey)
    }
}

} // verus!
