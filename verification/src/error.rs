use vstd::prelude::*;
use vstd::string::StringExecFns;

verus! {

/// Why a build aborted. Every failure is fatal: the first one stops the
/// whole run, and no artifact is produced.
pub enum BundleError {
    /// The entry file or a dependency file could not be read.
    IoError { path: String },
    /// A source file was rejected as invalid syntax.
    ParseError { path: String },
    /// An import specifier resolved to no file; carries the specifier and
    /// the path of the importing file.
    ResolutionError { specifier: String, importer: String },
    /// The transformer rejected a file's syntax tree or the target
    /// configuration.
    TransformError { path: String },
    /// The output directory could not be created or the artifact could not
    /// be written.
    OutputError { path: String },
}

impl BundleError {
    /// The text of the failure report: the failing condition together with
    /// the file or specifier it struck.
    pub open spec fn message_text(self) -> Seq<char> {
        match self {
            BundleError::IoError { path } => "failed to load file: "@ + path@,
            BundleError::ParseError { path } => "failed to parse file: "@ + path@,
            BundleError::ResolutionError { specifier, importer } => "failed to resolve specifier: "@
                + specifier@ + " from "@ + importer@,
            BundleError::TransformError { path } => "failed to transform file: "@ + path@,
            BundleError::OutputError { path } => "failed to write bundle to: "@ + path@,
        }
    }

    /// Renders the failure report.
    pub fn message(&self) -> (r: String)
        ensures
            r@ == self.message_text(),
    {
        match self {
            BundleError::IoError { path } => {
                let mut s = "failed to load file: ".to_owned();
                s.append(path.as_str());
                s
            },
            BundleError::ParseError { path } => {
                let mut s = "failed to parse file: ".to_owned();
                s.append(path.as_str());
                s
            },
            BundleError::ResolutionError { specifier, importer } => {
                let mut s = "failed to resolve specifier: ".to_owned();
                s.append(specifier.as_str());
                s.append(" from ");
                s.append(importer.as_str());
                s
            },
            BundleError::TransformError { path } => {
                let mut s = "failed to transform file: ".to_owned();
                s.append(path.as_str());
                s
            },
            BundleError::OutputError { path } => {
                let mut s = "failed to write bundle to: ".to_owned();
                s.append(path.as_str());
                s
            },
        }
    }
}

} // verus!
