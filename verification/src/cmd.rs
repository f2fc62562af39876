//! The configuration of one walk and the rule that selects files.

use crate::text::{ends_with, starts_with};
use vstd::prelude::*;

verus! {

/// Declares a compiled regular expression of the `regex` crate.
#[verifier::external_type_specification]
#[verifier::external_body]
pub struct ExRegex(regex::Regex);

/// Declares the error that `regex` reports for a pattern it cannot compile.
#[verifier::external_type_specification]
#[verifier::external_body]
pub struct ExRegexError(regex::Error);

/// Whether `regex::Regex::new` accepts `pattern`: it is a valid regular
/// expression, and its compiled form is within the size limit that `regex`
/// sets by default.
pub uninterp spec fn pattern_compiles(pattern: Seq<char>) -> bool;

/// Whether the regular expression `pattern` finds a match anywhere in `text`:
/// what `regex::Regex::is_match` returns for the compiled pattern.
pub uninterp spec fn pattern_matches(pattern: Seq<char>, text: Seq<char>) -> bool;

/// Why a configuration cannot be built.
#[derive(Clone, Debug, PartialEq, Eq)]
pub enum ConfigError {
    /// The regular expression does not compile.
    InvalidPattern { pattern: String },
}

/// A regular expression, compiled once when it is built.
///
/// The compiled form is kept beside the text it was compiled from. A value
/// is made by [`Pattern::new`] only, so the two always belong together.
#[derive(Debug)]
pub struct Pattern {
    source: String,
    compiled: regex::Regex,
}

impl View for Pattern {
    type V = Seq<char>;

    /// The text of the pattern.
    closed spec fn view(&self) -> Seq<char> {
        self.source@
    }
}

impl Pattern {
    /// Calls `regex::Regex::new`. It returns a compiled expression if the
    /// pattern is valid and within the default size limit, and an error
    /// otherwise; the value keeps the text it was compiled from.
    #[verifier::external_body]
    fn compile(source: &str) -> (r: Result<Pattern, regex::Error>)
        ensures
            r is Ok <==> pattern_compiles(source@),
            r matches Ok(p) ==> p@ == source@,
    {
        match regex::Regex::new(source) {
            Ok(compiled) => Ok(Pattern { source: source.to_string(), compiled }),
            Err(e) => Err(e),
        }
    }

    /// Calls `regex::Regex::is_match`: true if and only if the expression
    /// matches somewhere in `text`.
    #[verifier::external_body]
    fn is_match(&self, text: &str) -> (b: bool)
        ensures
            b == pattern_matches(self@, text@),
    {
        self.compiled.is_match(text)
    }

    /// Compiles `source`. Fails if and only if it is not a valid pattern.
    pub fn new(source: &str) -> (r: Result<Pattern, ConfigError>)
        ensures
            match r {
                Ok(p) => pattern_compiles(source@) && p@ == source@,
                Err(ConfigError::InvalidPattern { pattern }) => !pattern_compiles(source@)
                    && pattern@ == source@,
            },
    {
        match Pattern::compile(source) {
            Ok(p) => Ok(p),
            Err(_) => Err(ConfigError::InvalidPattern { pattern: source.to_owned() }),
        }
    }

    /// The text of the pattern.
    pub fn as_str(&self) -> (s: &str)
        ensures
            s@ == self@,
    {
        self.source.as_str()
    }
}

/// The rule as it is asked for: which kind, and its text.
#[derive(Clone, Debug, PartialEq, Eq)]
pub enum MatchSpec {
    /// Select names that end with `suffix`.
    Suffix { suffix: String },
    /// Select names that begin with `prefix`.
    Prefix { prefix: String },
    /// Select names in which the regular expression `regexp` matches.
    Regexp { regexp: String },
}

/// The rule that selects file names.
#[derive(Debug)]
pub enum Expr {
    /// Matches a name that ends with `suffix`, such as ".txt".
    Suffix { suffix: String },
    /// Matches a name that begins with `prefix`: "data_" matches
    /// "data_1.docx" and "data_2.bin".
    Prefix { prefix: String },
    /// Matches a name in which the pattern matches anywhere:
    /// `202\d_[a-z]{3}\.txt` matches "2023_abc.txt".
    Regexp { regexp: Pattern },
}

/// A rule as a mathematical value: its kind and its text.
pub enum Rule {
    /// Selects names that end with `suffix`.
    Suffix { suffix: Seq<char> },
    /// Selects names that begin with `prefix`.
    Prefix { prefix: Seq<char> },
    /// Selects names in which the regular expression `regexp` matches.
    Regexp { regexp: Seq<char> },
}

impl Rule {
    /// Whether the rule selects `name`.
    pub open spec fn matches(self, name: Seq<char>) -> bool {
        match self {
            Rule::Suffix { suffix } => suffix.is_suffix_of(name),
            Rule::Prefix { prefix } => prefix.is_prefix_of(name),
            Rule::Regexp { regexp } => pattern_matches(regexp, name),
        }
    }

    /// Whether the rule can be built: a regular expression has to compile.
    pub open spec fn compiles(self) -> bool {
        self matches Rule::Regexp { regexp } ==> pattern_compiles(regexp)
    }
}

impl View for MatchSpec {
    type V = Rule;

    open spec fn view(&self) -> Rule {
        match self {
            MatchSpec::Suffix { suffix } => Rule::Suffix { suffix: suffix@ },
            MatchSpec::Prefix { prefix } => Rule::Prefix { prefix: prefix@ },
            MatchSpec::Regexp { regexp } => Rule::Regexp { regexp: regexp@ },
        }
    }
}

impl View for Expr {
    type V = Rule;

    open spec fn view(&self) -> Rule {
        match self {
            Expr::Suffix { suffix } => Rule::Suffix { suffix: suffix@ },
            Expr::Prefix { prefix } => Rule::Prefix { prefix: prefix@ },
            Expr::Regexp { regexp } => Rule::Regexp { regexp: regexp@ },
        }
    }
}

impl Expr {
    /// Builds the rule that `spec` asks for, compiling a regular expression
    /// here and now. Fails if and only if the expression does not compile.
    pub fn new(spec: MatchSpec) -> (r: Result<Expr, ConfigError>)
        ensures
            match r {
                Ok(rule) => spec@.compiles() && rule@ == spec@,
                Err(ConfigError::InvalidPattern { pattern }) => spec@ matches Rule::Regexp {
                    regexp,
                } && !pattern_compiles(regexp) && pattern@ == regexp,
            },
    {
        match spec {
            MatchSpec::Suffix { suffix } => Ok(Expr::Suffix { suffix }),
            MatchSpec::Prefix { prefix } => Ok(Expr::Prefix { prefix }),
            MatchSpec::Regexp { regexp } => {
                match Pattern::new(regexp.as_str()) {
                    Ok(p) => Ok(Expr::Regexp { regexp: p }),
                    Err(e) => Err(e),
                }
            },
        }
    }

    /// Whether the rule selects the file name `target`.
    pub fn can_match(&self, target: &str) -> (b: bool)
        ensures
            b == self@.matches(target@),
    {
        match self {
            Expr::Suffix { suffix } => ends_with(target, suffix.as_str()),
            Expr::Prefix { prefix } => starts_with(target, prefix.as_str()),
            Expr::Regexp { regexp } => regexp.is_match(target),
        }
    }
}

/// Whether a walk enters subdirectories where nothing else is asked for.
pub const DEFAULT_RECURSIVE: bool = true;

/// How many units of work may run at the same time where nothing else is
/// asked for.
pub const DEFAULT_MAX_CONCURRENCY: usize = 32;

/// The configuration of one walk.
#[derive(Debug)]
pub struct ScanArgs {
    /// The directory at which the walk starts.
    pub dir: String,
    /// Whether subdirectories are entered.
    pub recursive: bool,
    /// The deepest level of subdirectories that is entered; `None` sets no
    /// limit. The starting directory is level 0.
    pub max_depth: Option<usize>,
    /// How many units of work may run at the same time.
    pub max_concurrency: usize,
    /// The rule that selects files.
    pub matcher: Expr,
}

/// Builds the configuration of a walk from the values that were asked for.
///
/// The match rule is built here, before any directory is read: the call
/// fails if and only if a regular expression does not compile, and then
/// names the pattern. All other values are taken as they are.
pub fn parse(
    dir: String,
    recursive: bool,
    max_depth: Option<usize>,
    max_concurrency: usize,
    matcher: MatchSpec,
) -> (r: Result<ScanArgs, ConfigError>)
    requires
        max_concurrency >= 1,
    ensures
        match r {
            Ok(args) => {
                &&& matcher@.compiles()
                &&& args.dir@ == dir@
                &&& args.recursive == recursive
                &&& args.max_depth == max_depth
                &&& args.max_concurrency == max_concurrency
                &&& args.matcher@ == matcher@
            },
            Err(ConfigError::InvalidPattern { pattern }) => matcher@ matches Rule::Regexp {
                regexp,
            } && !pattern_compiles(regexp) && pattern@ == regexp,
        },
{
    match Expr::new(matcher) {
        Ok(rule) => Ok(ScanArgs { dir, recursive, max_depth, max_concurrency, matcher: rule }),
        Err(e) => Err(e),
    }
}

} // verus!
