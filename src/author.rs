use vstd::prelude::*;
use crate::error::AnalyzerError;

verus! {

#[verifier::external_type_specification]
#[verifier::external_body]
pub struct ExRegex(regex::Regex);

/// Whether a pattern text compiles as a regular expression.
pub uninterp spec fn regex_compiles(p: Seq<char>) -> bool;

/// Whether the regular expression `p` matches somewhere in `text`.
pub uninterp spec fn regex_finds(p: Seq<char>, text: Seq<char>) -> bool;

/// A compiled author pattern, with the text it was compiled from.
pub struct AuthorPattern {
    re: regex::Regex,
    source: Ghost<Seq<char>>,
}

impl AuthorPattern {
    pub closed spec fn source(&self) -> Seq<char> {
        self.source@
    }
}

/// Relies on `regex::Regex::new`: whether compiling succeeds depends on the
/// pattern text alone.
#[verifier::external_body]
fn compile(p: &str) -> (r: Result<AuthorPattern, regex::Error>)
    ensures
        r is Ok <==> regex_compiles(p@),
        r matches Ok(c) ==> c.source() == p@,
{
    match regex::Regex::new(p) {
        Ok(re) => Ok(AuthorPattern { re, source: Ghost(p@) }),
        Err(e) => Err(e),
    }
}

/// Relies on `regex::Regex::is_match`: whether the pattern matches anywhere in
/// the text.
#[verifier::external_body]
fn search(p: &AuthorPattern, text: &str) -> (r: bool)
    ensures
        r == regex_finds(p.source(), text@),
{
    p.re.is_match(text)
}

/// The author text of a commit: `Name <email>`, with an empty string for a
/// missing part.
pub open spec fn author_text(name: Option<Seq<char>>, email: Option<Seq<char>>) -> Seq<char> {
    let n = match name { Some(s) => s, None => Seq::empty() };
    let e = match email { Some(s) => s, None => Seq::empty() };
    n + " <"@ + e + ">"@
}

pub open spec fn opt_view(o: Option<String>) -> Option<Seq<char>> {
    match o {
        Some(s) => Some(s@),
        None => None,
    }
}

/// Builds the author text from a name and an email.
pub fn author_string(name: &Option<String>, email: &Option<String>) -> (r: String)
    ensures
        r@ == author_text(opt_view(*name), opt_view(*email)),
{
    let mut r = String::new();
    match name {
        Some(n) => r.append(n.as_str()),
        None => {},
    }
    r.append(" <");
    match email {
        Some(e) => r.append(e.as_str()),
        None => {},
    }
    r.append(">");
    r
}

/// The filter's rule: with no pattern every author passes; otherwise one
/// pattern must match.
pub open spec fn passes(matched: Seq<bool>) -> bool {
    matched.len() == 0 || exists|i: int| 0 <= i < matched.len() && matched[i]
}

/// Whether an author passes, given for each pattern whether it matched.
pub fn passes_given(matched: &Vec<bool>) -> (r: bool)
    ensures
        r == passes(matched@),
{
    if matched.len() == 0 {
        return true;
    }
    let mut i: usize = 0;
    while i < matched.len()
        invariant
            i <= matched@.len(),
            forall|j: int| 0 <= j < i ==> !matched@[j],
        decreases matched.len() - i,
    {
        if matched[i] {
            return true;
        }
        i = i + 1;
    }
    false
}

/// Whether an author text passes the patterns.
pub open spec fn author_passes(patterns: Seq<Seq<char>>, author: Seq<char>) -> bool {
    passes(Seq::new(patterns.len(), |i: int| regex_finds(patterns[i], author)))
}

/// Every pattern text compiles.
pub open spec fn all_compile(patterns: Seq<Seq<char>>) -> bool {
    forall|i: int| 0 <= i < patterns.len() ==> regex_compiles(#[trigger] patterns[i])
}

pub open spec fn strings_view(v: Seq<String>) -> Seq<Seq<char>> {
    v.map_values(|s: String| s@)
}

/// The compiled author patterns of one analysis.
pub struct AuthorFilter {
    patterns: Vec<AuthorPattern>,
}

impl AuthorFilter {
    pub closed spec fn sources(&self) -> Seq<Seq<char>> {
        self.patterns@.map_values(|p: AuthorPattern| p.source())
    }

    /// Compiles every pattern, failing on the first that does not compile.
    pub fn new(patterns: &Vec<String>) -> (r: Result<AuthorFilter, AnalyzerError>)
        ensures
            r is Ok <==> all_compile(strings_view(patterns@)),
            r matches Ok(f) ==> f.sources() == strings_view(patterns@),
            r matches Err(e) ==> e is RegexError,
    {
        let mut out: Vec<AuthorPattern> = Vec::new();
        let mut i: usize = 0;
        while i < patterns.len()
            invariant
                i <= patterns@.len(),
                out@.map_values(|p: AuthorPattern| p.source()) =~= strings_view(patterns@).take(i as int),
                all_compile(strings_view(patterns@).take(i as int)),
            decreases patterns.len() - i,
        {
            match compile(patterns[i].as_str()) {
                Ok(c) => {
                    out.push(c);
                    assert(strings_view(patterns@).take(i + 1) =~= strings_view(patterns@).take(
                        i as int,
                    ).push(patterns@[i as int]@));
                },
                Err(e) => {
                    assert(!regex_compiles(strings_view(patterns@)[i as int]));
                    return Err(AnalyzerError::RegexError(e));
                },
            }
            i = i + 1;
        }
        assert(strings_view(patterns@).take(i as int) =~= strings_view(patterns@));
        Ok(AuthorFilter { patterns: out })
    }

    /// Whether `author` passes: no patterns, or one that matches it.
    pub fn includes(&self, author: &str) -> (r: bool)
        ensures
            r == author_passes(self.sources(), author@),
    {
        let mut matched: Vec<bool> = Vec::new();
        let mut i: usize = 0;
        while i < self.patterns.len()
            invariant
                i <= self.patterns@.len(),
                matched@ =~= Seq::new(i as nat, |k: int| regex_finds(self.sources()[k], author@)),
            decreases self.patterns.len() - i,
        {
            let m = search(&self.patterns[i], author);
            matched.push(m);
            i = i + 1;
        }
        passes_given(&matched)
    }
}

} // verus!
