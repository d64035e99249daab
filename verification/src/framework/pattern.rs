//! Name patterns: regular expressions that compiled.

use vstd::prelude::*;

verus! {

/// Why a regular expression does not compile, as `regex::Regex::new` says
/// it; none when it compiles.
pub uninterp spec fn regex_error(pattern: Seq<char>) -> Option<Seq<char>>;

/// Whether a regular expression that compiles matches somewhere in a text,
/// as `regex::Regex::is_match` finds it.
pub uninterp spec fn regex_matches(pattern: Seq<char>, text: Seq<char>) -> bool;

/// `regex::Regex::new` on a pattern: its error message, or none.
#[verifier::external_body]
fn refusal_of(pattern: &str) -> (r: Option<String>)
    ensures
        r.deep_view() == regex_error(pattern@),
{
    match regex::Regex::new(pattern) {
        Ok(_) => None,
        Err(e) => Some(e.to_string()),
    }
}

/// `regex::Regex::is_match` of a compiled pattern on a text.
#[verifier::external_body]
fn compiled_match(pattern: &str, text: &str) -> (b: bool)
    requires
        regex_error(pattern@) is None,
    ensures
        b == regex_matches(pattern@, text@),
{
    match regex::Regex::new(pattern) {
        Ok(re) => re.is_match(text),
        Err(_) => false,
    }
}

/// A regular expression that compiled.
#[derive(Debug)]
pub struct Pattern {
    source: String,
}

impl View for Pattern {
    type V = Seq<char>;

    closed spec fn view(&self) -> Seq<char> {
        self.source@
    }
}

impl DeepView for Pattern {
    type V = Seq<char>;

    open spec fn deep_view(&self) -> Seq<char> {
        self@
    }
}

impl Pattern {
    #[verifier::type_invariant]
    spec fn compiled(self) -> bool {
        regex_error(self.source@) is None
    }

    /// Compiles a pattern; a malformed one gives the compiler's message.
    pub fn compile(source: &str) -> (r: std::result::Result<Self, String>)
        ensures
            match r {
                Ok(p) => regex_error(source@) is None && p@ == source@,
                Err(m) => regex_error(source@) == Some(m@),
            },
    {
        match refusal_of(source) {
            Some(m) => Err(m),
            None => Ok(Pattern { source: source.to_owned() }),
        }
    }

    /// Pattern text.
    pub fn as_str(&self) -> (s: &str)
        ensures
            s@ == self@,
    {
        self.source.as_str()
    }

    /// Whether the pattern matches somewhere in the text.
    pub fn is_match(&self, text: &str) -> (b: bool)
        ensures
            b == regex_matches(self@, text@),
    {
        proof {
            use_type_invariant(self);
        }
        compiled_match(self.source.as_str(), text)
    }
}

} // verus!
