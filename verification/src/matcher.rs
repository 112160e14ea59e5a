//! The match specification: a literal name comparison, or a pattern compiled
//! so that it must cover the entire entry name.

use vstd::prelude::*;

verus! {

#[verifier::external_type_specification]
#[verifier::external_body]
pub struct ExRegex(regex::Regex);

/// Whether the pattern source `src` compiles.
pub uninterp spec fn pattern_ok(src: Seq<char>) -> bool;

/// The pattern source a compiled pattern was built from.
pub uninterp spec fn regex_source(re: regex::Regex) -> Seq<char>;

/// Whether the pattern with source `src` matches somewhere in `text`.
pub uninterp spec fn regex_accepts(src: Seq<char>, text: Seq<char>) -> bool;

/// Relies on regex::Regex::new: whether compilation succeeds depends on the
/// pattern string alone (the size limit it also checks is a fixed default),
/// and the compiled value is determined by that string.
#[verifier::external_body]
fn compile_regex(src: &str) -> (r: Result<regex::Regex, String>)
    ensures
        r is Ok <==> pattern_ok(src@),
        r matches Ok(re) ==> regex_source(re) == src@,
{
    match regex::Regex::new(src) {
        Ok(re) => Ok(re),
        Err(e) => Err(format!("{}", e)),
    }
}

/// Relies on regex::Regex::is_match: the result depends on the pattern the
/// value was compiled from and on the haystack alone.
#[verifier::external_body]
fn regex_is_match(re: &regex::Regex, text: &str) -> (r: bool)
    ensures
        r == regex_accepts(regex_source(*re), text@),
{
    re.is_match(text)
}

/// How an entry name is tested: byte-for-byte equality against a stored
/// name, or an anchored pattern over the whole name.
pub enum MatchSpec {
    Exact(String),
    Pattern(regex::Regex),
}

/// The query wrapped in the two anchors, so that the pattern cannot match a
/// proper substring of a name.
pub open spec fn anchored(q: Seq<char>) -> Seq<char> {
    seq!['^'] + q + seq!['$']
}

impl MatchSpec {
    /// The names this specification accepts.
    pub open spec fn accepts(self, name: Seq<char>) -> bool {
        match self {
            MatchSpec::Exact(q) => name == q@,
            MatchSpec::Pattern(re) => regex_accepts(regex_source(re), name),
        }
    }

    /// True when `self` is what building from the query `q` in the given
    /// mode produces.
    pub open spec fn built_from(self, q: Seq<char>, use_pattern: bool) -> bool {
        match self {
            MatchSpec::Exact(s) => !use_pattern && s@ == q,
            MatchSpec::Pattern(re) => use_pattern && regex_source(re) == anchored(q),
        }
    }

    /// Builds the specification for a run.  Literal mode always succeeds;
    /// pattern mode succeeds exactly when the anchored pattern compiles, and
    /// fails before any traversal starts otherwise.
    pub fn build(query: &str, use_pattern: bool) -> (r: Result<MatchSpec, String>)
        ensures
            r matches Ok(m) ==> m.built_from(query@, use_pattern),
            !use_pattern ==> r is Ok,
            use_pattern ==> (r is Ok <==> pattern_ok(anchored(query@))),
    {
        if use_pattern {
            let mut src = "^".to_owned();
            src.append(query);
            src.append("$");
            proof {
                reveal_strlit("^");
                reveal_strlit("$");
                assert(src@ =~= anchored(query@));
            }
            match compile_regex(src.as_str()) {
                Ok(re) => Ok(MatchSpec::Pattern(re)),
                Err(e) => Err(e),
            }
        } else {
            Ok(MatchSpec::Exact(query.to_owned()))
        }
    }

    /// In literal mode an entry matches exactly when its name is the
    /// query, character for character.
    pub proof fn lemma_exact_mode(self, q: Seq<char>, name: Seq<char>)
        requires
            self.built_from(q, false),
        ensures
            self.accepts(name) <==> name == q,
    {
    }

    /// In pattern mode an entry matches exactly when the pattern, anchored
    /// at both ends, accepts the entire name: never a proper substring.
    pub proof fn lemma_pattern_mode(self, q: Seq<char>, name: Seq<char>)
        requires
            self.built_from(q, true),
        ensures
            self.accepts(name) <==> regex_accepts(anchored(q), name),
    {
    }

    /// Tests one entry name.  In literal mode this is equality with the
    /// stored name; in pattern mode the compiled anchored pattern must
    /// cover the whole name.
    pub fn matches_name(&self, name: &String) -> (r: bool)
        ensures
            r == self.accepts(name@),
    {
        match self {
            MatchSpec::Exact(q) => *q == *name,
            MatchSpec::Pattern(re) => regex_is_match(re, name.as_str()),
        }
    }
}

} // verus!
