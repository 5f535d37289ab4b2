use vstd::prelude::*;

verus! {

use vstd::string::StringExecFns;

/// The fatal configuration errors of the pipeline.  Failures while touching
/// the file system (reading a source file, creating the output directory or
/// a destination file) are raised by the callers that perform that work.
#[derive(Debug, Clone)]
pub enum FlattenError {
    /// The source directory does not exist.
    SourceMissing { source: String },
    /// The source path exists but is not a directory.
    SourceNotDirectory { source: String },
    /// An ignore-file line could not be parsed as a glob.
    InvalidIgnorePattern { pattern: String },
    /// The ignore patterns could not be compiled into a matcher.
    RuleCompilation,
}

/// The message of the missing-source error.
pub open spec fn missing_source_message(source: Seq<char>) -> Seq<char> {
    "Source directory does not exist: "@ + source
}

/// The message of the not-a-directory error.
pub open spec fn not_directory_message(source: Seq<char>) -> Seq<char> {
    "Source path is not a directory: "@ + source
}

/// The message of the invalid-pattern error.
pub open spec fn invalid_pattern_message(pattern: Seq<char>) -> Seq<char> {
    "Invalid ignore pattern: "@ + pattern
}

impl FlattenError {
    /// The human-readable message of this error.
    pub open spec fn spec_message(self) -> Seq<char> {
        match self {
            FlattenError::SourceMissing { source } => missing_source_message(source@),
            FlattenError::SourceNotDirectory { source } => not_directory_message(source@),
            FlattenError::InvalidIgnorePattern { pattern } => invalid_pattern_message(pattern@),
            FlattenError::RuleCompilation => "Failed to compile ignore patterns"@,
        }
    }

    /// Renders the human-readable message of this error.
    pub fn message(&self) -> (m: String)
        ensures
            m@ == self.spec_message(),
    {
        match self {
            FlattenError::SourceMissing { source } => {
                let mut s = "Source directory does not exist: ".to_owned();
                s.append(source.as_str());
                s
            },
            FlattenError::SourceNotDirectory { source } => {
                let mut s = "Source path is not a directory: ".to_owned();
                s.append(source.as_str());
                s
            },
            FlattenError::InvalidIgnorePattern { pattern } => {
                let mut s = "Invalid ignore pattern: ".to_owned();
                s.append(pattern.as_str());
                s
            },
            FlattenError::RuleCompilation => "Failed to compile ignore patterns".to_owned(),
        }
    }
}

/// One sequence of characters occurs inside another.
pub open spec fn contains_seq(hay: Seq<char>, needle: Seq<char>) -> bool {
    exists|k: int|
        0 <= k && k + needle.len() <= hay.len() && #[trigger] hay.subrange(k, k + needle.len())
            == needle
}

/// The missing-source error message always mentions that the directory does
/// not exist, whatever the source path was.
pub proof fn lemma_missing_source_message_names_cause(source: Seq<char>)
    ensures
        contains_seq(missing_source_message(source), "does not exist"@),
{
    reveal_strlit("Source directory does not exist: ");
    reveal_strlit("does not exist");
    let hay = missing_source_message(source);
    let needle = "does not exist"@;
    assert(hay.subrange(17, 17 + needle.len() as int) =~= needle);
}

/// Decides whether a source path may be flattened, from what the file system
/// said of it.  Returns the error whose message the caller reports before
/// any output is created.
pub fn check_source(source: &str, exists: bool, is_dir: bool) -> (r: Result<(), FlattenError>)
    ensures
        r is Ok <==> exists && is_dir,
        !exists ==> (r matches Err(e) && (e matches FlattenError::SourceMissing { source: s }
            && s@ == source@)),
        exists && !is_dir ==> (r matches Err(e) && (e matches FlattenError::SourceNotDirectory {
            source: s,
        } && s@ == source@)),
{
    if !exists {
        Err(FlattenError::SourceMissing { source: source.to_owned() })
    } else if !is_dir {
        Err(FlattenError::SourceNotDirectory { source: source.to_owned() })
    } else {
        Ok(())
    }
}

} // verus!
