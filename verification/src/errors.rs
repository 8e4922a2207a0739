use vstd::prelude::*;

verus! {

/// The closed failure taxonomy of the library.
///
/// The first four categories are fatal at startup: a compiled pattern set is
/// a precondition for processing. `Stream` is recoverable per source: a
/// failing input source is skipped while the remaining sources are processed.
#[derive(Clone, Copy, Debug, PartialEq, Eq, Structural)]
pub enum Error {
    /// No rules directory was given and none could be discovered.
    Config,
    /// An input file pattern matched zero files.
    Glob,
    /// A rule file could not be opened or read.
    RuleFile,
    /// The joined alternation failed to compile in the regex engine.
    PatternCompile,
    /// An input source could not be opened, or a line could not be read.
    Stream,
}

impl Error {
    /// A human-readable message for the category, for the error stream.
    pub fn describe(&self) -> (r: &'static str)
        ensures
            r@ == describe_spec(*self),
    {
        match self {
            Error::Config => "cannot discover the rules directory",
            Error::Glob => "an input file pattern matched nothing",
            Error::RuleFile => "cannot read a rule file",
            Error::PatternCompile => "cannot compile the rule pattern set",
            Error::Stream => "cannot process an input stream",
        }
    }
}

pub open spec fn describe_spec(e: Error) -> Seq<char> {
    match e {
        Error::Config => "cannot discover the rules directory"@,
        Error::Glob => "an input file pattern matched nothing"@,
        Error::RuleFile => "cannot read a rule file"@,
        Error::PatternCompile => "cannot compile the rule pattern set"@,
        Error::Stream => "cannot process an input stream"@,
    }
}

} // verus!
