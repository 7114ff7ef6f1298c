//! The error types of the library.
//!
//! Errors that come from outside the library (I/O, YAML and TOML
//! (de)serialisation, dynamic loading) are carried as their message text.
use vstd::prelude::*;

verus! {

/// The library error type.
#[derive(Debug, Clone, PartialEq, Eq)]
pub enum PesError {
    /// Failure to convert from a str to a range
    ConvertToRangeFailure(String),
    /// Failure to deserialize YAML (message of the deserializer)
    SerdeYamlDeserializeError(String),
    /// Duplicate key exists in a map type
    DuplicateKey(String),
    /// General failure to parse
    ParsingFailure(String),
    /// A map is missing the provided key
    MissingKey(String),
    /// A manifest or lock file is missing the provided target
    MissingTarget(String),
    /// An environment variable is missing
    MissingEnvVar(String),
    /// Problem with a version specification
    InvalidVersion(String),
    /// Path does not exist
    MissingPath(String),
    /// Manifests do not exist for distributions
    MissingManifests(Vec<String>),
    /// A manifest was not found, searching from the given location
    ManifestNotFound(String),
    /// A path could not be converted to a string
    ConversionError(String),
    /// Distribution not found
    DistributionNotFound(String),
    /// The path associated with a distribution was not found
    DistributionPathNotFound(String),
    /// A target names, for inclusion, a target that does not exist
    MissingInclude {
        /// The target recipe
        target: String,
        /// The name of the missing target it names
        included: String,
    },
    /// Problem with a path
    InvalidPath(String),
    /// An I/O error (message of the error)
    IoError(String),
    /// Error parsing command line arguments
    CliArgError(String),
    /// Wraps an opaque error
    PesError(String),
    /// The solver found no solution
    NoSolution(String),
    /// No repositories found
    NoRepositories(String),
    /// A failure of the path grammar
    PesNomError(String),
    /// A failure loading a plugin (message of the loader)
    LibLoadingError(String),
    /// TOML deserialisation failure (message of the deserializer)
    TomlDeserializeError(String),
    /// TOML serialisation failure (message of the serializer)
    TomlSerializeError(String),
    /// A release type name that is not known
    UnknownReleaseType(String),
    /// A string that is not a semantic version
    InvalidSemanticVersion(String),
    /// A part of a semantic version that is not a `u32`
    ParseIntError {
        /// The semantic version that was being parsed.
        full_version: String,
        /// The version part where parsing failed.
        version_part: String,
        /// The reason the part could not be read as a `u32`.
        parse_error: String,
    },
}

/// What a parser expected where the grammar did not match.
#[derive(Debug, Copy, Clone, PartialEq, Eq, Structural)]
pub enum ErrorKind {
    /// A fixed text (`^`, `-`, `+<`, `@`, ...)
    Tag,
    /// A digit
    Digit,
    /// A letter (the start of a name)
    Alpha,
    /// The end of the input
    Eof,
}

impl ErrorKind {
    /// The name of the kind, as it is written in an error message.
    pub open spec fn name(self) -> Seq<char> {
        match self {
            ErrorKind::Tag => seq!['T', 'a', 'g'],
            ErrorKind::Digit => seq!['D', 'i', 'g', 'i', 't'],
            ErrorKind::Alpha => seq!['A', 'l', 'p', 'h', 'a'],
            ErrorKind::Eof => seq!['E', 'o', 'f'],
        }
    }

    /// The name of the kind, as it is written in an error message.
    pub fn name_text(&self) -> (r: &'static str)
        ensures
            r@ == self.name(),
    {
        proof {
            reveal_strlit("Tag");
            reveal_strlit("Digit");
            reveal_strlit("Alpha");
            reveal_strlit("Eof");
        }
        match self {
            ErrorKind::Tag => "Tag",
            ErrorKind::Digit => "Digit",
            ErrorKind::Alpha => "Alpha",
            ErrorKind::Eof => "Eof",
        }
    }
}

/// The error of the non-consuming parsers.
#[derive(Debug, Clone, PartialEq, Eq)]
pub enum PesNomError {
    /// A variable that the provider does not know
    InvalidKey(String),
    /// A library error raised while parsing
    PesError(String),
    /// The grammar does not match: the rest of the input where it failed, and
    /// what was expected there
    Nom(String, ErrorKind),
}

} // verus!
