//! The single error type used throughout the library, and the structured
//! compiler diagnostic that a failed build carries.
use vstd::prelude::*;
use crate::text::{cat, cat3, push_str};

verus! {

/// The single error type used throughout deft. Paths and the causes of
/// operating-system failures are carried as text.
#[allow(inconsistent_fields)]
#[derive(Debug, Clone)]
pub enum RevolError {
    /// An underlying I/O failure, annotated with the path it concerned.
    Io { path: Option<String>, message: String },
    /// The manifest (`deft.toml`) could not be parsed.
    ManifestParse { path: String, message: String },
    /// The lockfile (`deft.lock`) could not be parsed.
    LockParse { path: String, message: String },
    /// Serialization back to TOML failed.
    Serialize(String),
    /// A required file or directory in the strict layout was missing.
    LayoutViolation(String),
    /// The repository does not adhere to the deft standard.
    NotDeftStandard { path: String, reason: String },
    /// A dependency could not be resolved.
    Resolution(String),
    /// An external command (`git`, `curl`, `clang`) failed to even start.
    CommandSpawn { program: String, message: String },
    /// An external command ran but exited non-zero.
    CommandFailed { program: String, code: Option<i32>, stderr: String },
    /// Compilation failed: the count of failed translation units and the
    /// structured diagnostics behind them.
    Compilation { failures: usize, diagnostics: Vec<CompileDiagnostic> },
    /// `deft check` failed: some source could not be analyzed.
    Analysis { failures: usize },
    /// A configuration value was invalid (e.g. unknown optimization level).
    Config(String),
    /// The user's environment is missing something required (e.g. HOME).
    Environment(String),
}

/// Convenience alias so signatures stay short.
pub type Result<T> = core::result::Result<T, RevolError>;

/// One structured compiler diagnostic, carried by
/// [`RevolError::Compilation`].
#[derive(Debug, Clone)]
pub struct CompileDiagnostic {
    pub file: String,
    pub line: usize,
    pub column: usize,
    pub severity: &'static str,
    pub message: String,
}

impl RevolError {
    /// This is a configuration error whose text is `msg`.
    pub open spec fn is_config(self, msg: Seq<char>) -> bool {
        self matches RevolError::Config(m) && m@ == msg
    }

    /// This is a layout violation whose text is `msg`.
    pub open spec fn is_layout(self, msg: Seq<char>) -> bool {
        self matches RevolError::LayoutViolation(m) && m@ == msg
    }
}

/// A configuration error with the text `msg`.
pub fn config(msg: String) -> (e: RevolError)
    ensures
        e.is_config(msg@),
{
    RevolError::Config(msg)
}

} // verus!

verus! {

impl RevolError {
    /// The one-line description of the error shown to the user.
    pub open spec fn message_spec(self) -> Seq<char> {
        match self {
            RevolError::Io { path, message } => match path {
                Some(p) => "I/O error at '"@ + p@ + "': "@ + message@,
                None => "I/O error: "@ + message@,
            },
            RevolError::ManifestParse { path, message } => "failed to parse manifest '"@ + path@ + "': "@ + message@,
            RevolError::LockParse { path, message } => "failed to parse lockfile '"@ + path@ + "': "@ + message@,
            RevolError::Serialize(m) => "failed to serialize: "@ + m@,
            RevolError::LayoutViolation(m) => "project layout violation: "@ + m@,
            RevolError::NotDeftStandard { path, reason } => "'"@ + path@ + "' does not follow the revol standard: "@ + reason@,
            RevolError::Resolution(m) => "dependency resolution failed: "@ + m@,
            RevolError::CommandSpawn { program, message } => "failed to launch '"@ + program@ + "': "@ + message@
                + " (is it installed and on PATH?)"@,
            RevolError::CommandFailed { program, code, stderr } => "'"@ + program@ + "' exited with status "@
                + match code {
                Some(c) => crate::text::signed_decimal(c as int),
                None => "signal"@,
            } + ":\n"@ + crate::text::trim(stderr@),
            RevolError::Compilation { failures, .. } => "build failed: "@ + crate::text::decimal(failures as nat)
                + " translation unit(s) did not compile"@,
            RevolError::Analysis { failures } => "check failed: "@ + crate::text::decimal(failures as nat)
                + " file(s) could not be analyzed"@,
            RevolError::Config(m) => "invalid configuration: "@ + m@,
            RevolError::Environment(m) => "environment error: "@ + m@,
        }
    }

    /// The one-line description of the error shown to the user.
    pub fn message(&self) -> (s: String)
        ensures
            s@ == self.message_spec(),
    {
        match self {
            RevolError::Io { path, message } => match path {
                Some(p) => {
                    let mut s = cat3("I/O error at '", p.as_str(), "': ");
                    push_str(&mut s, message.as_str());
                    s
                },
                None => cat("I/O error: ", message.as_str()),
            },
            RevolError::ManifestParse { path, message } => {
                let mut s = cat3("failed to parse manifest '", path.as_str(), "': ");
                push_str(&mut s, message.as_str());
                s
            },
            RevolError::LockParse { path, message } => {
                let mut s = cat3("failed to parse lockfile '", path.as_str(), "': ");
                push_str(&mut s, message.as_str());
                s
            },
            RevolError::Serialize(m) => cat("failed to serialize: ", m.as_str()),
            RevolError::LayoutViolation(m) => cat("project layout violation: ", m.as_str()),
            RevolError::NotDeftStandard { path, reason } => {
                let mut s = cat3("'", path.as_str(), "' does not follow the revol standard: ");
                push_str(&mut s, reason.as_str());
                s
            },
            RevolError::Resolution(m) => cat("dependency resolution failed: ", m.as_str()),
            RevolError::CommandSpawn { program, message } => {
                let mut s = cat3("failed to launch '", program.as_str(), "': ");
                push_str(&mut s, message.as_str());
                push_str(&mut s, " (is it installed and on PATH?)");
                s
            },
            RevolError::CommandFailed { program, code, stderr } => {
                let mut s = cat3("'", program.as_str(), "' exited with status ");
                match code {
                    Some(c) => {
                        let t = crate::text::i64_to_string(*c as i64);
                        push_str(&mut s, t.as_str());
                    },
                    None => push_str(&mut s, "signal"),
                }
                push_str(&mut s, ":\n");
                let t = crate::text::trim_str(stderr.as_str());
                push_str(&mut s, t.as_str());
                s
            },
            RevolError::Compilation { failures, .. } => {
                let n = crate::text::u64_to_string(*failures as u64);
                cat3("build failed: ", n.as_str(), " translation unit(s) did not compile")
            },
            RevolError::Analysis { failures } => {
                let n = crate::text::u64_to_string(*failures as u64);
                cat3("check failed: ", n.as_str(), " file(s) could not be analyzed")
            },
            RevolError::Config(m) => cat("invalid configuration: ", m.as_str()),
            RevolError::Environment(m) => cat("environment error: ", m.as_str()),
        }
    }
}

/// Attaching the path an I/O failure concerned. The failure is carried as
/// its text.
pub trait IoPathExt<T>: Sized {
    fn path_ctx(self, path: &str) -> Result<T>;
}

impl<T> IoPathExt<T> for core::result::Result<T, String> {
    /// The value, or an I/O error at `path` with the failure's text.
    fn path_ctx(self, path: &str) -> (r: Result<T>)
        ensures
            match self {
                Ok(v) => r == Ok::<T, RevolError>(v),
                Err(m) => {
                    &&& r matches Err(RevolError::Io { path: p, message })
                    &&& p matches Some(q)
                    &&& q@ == path@
                    &&& message@ == m@
                },
            },
    {
        match self {
            Ok(v) => Ok(v),
            Err(message) => Err(RevolError::Io { path: Some(String::from_str(path)), message }),
        }
    }
}

} // verus!
