use vstd::prelude::*;

verus! {

/// Whether `pattern`, compiled by the regex crate, compiles and matches `haystack`.
pub uninterp spec fn regex_is_match(pattern: Seq<char>, haystack: Seq<char>) -> bool;

#[verifier::external_type_specification]
#[verifier::external_body]
pub struct ExRegex(regex::Regex);

/// A pattern compiled once, to be matched against single characters.
pub struct CompiledPattern {
    regex: regex::Regex,
    pattern: Ghost<Seq<char>>,
}

impl CompiledPattern {
    pub closed spec fn pattern(&self) -> Seq<char> {
        self.pattern@
    }
}

/// Compiles `pattern` with `regex::Regex::new`. The contract claims that the compiled form
/// remembers the pattern it came from, and that a pattern that does not compile matches
/// nothing (`regex_is_match` is false for it).
#[verifier::external_body]
fn compile(pattern: &str) -> (r: Option<CompiledPattern>)
    ensures
        r matches Some(c) ==> c.pattern() == pattern@,
        r is None ==> forall|h: Seq<char>| !#[trigger] regex_is_match(pattern@, h),
{
    match regex::Regex::new(pattern) {
        Ok(regex) => Some(CompiledPattern { regex, pattern: Ghost(pattern@) }),
        Err(_) => None,
    }
}

/// `Regex::is_match` on the one-character string `c`. The contract claims only that the
/// answer is a function of the pattern and the character.
#[verifier::external_body]
fn compiled_matches(compiled: &CompiledPattern, c: char) -> (r: bool)
    ensures
        r == regex_is_match(compiled.pattern(), seq![c]),
{
    compiled.regex.is_match(&c.to_string())
}

/// One Cyrillic or Latin character.
pub const LETTER_PATTERN: &'static str = "^[\\p{Script=Cyrillic}\\p{Script=Latin}]$";

/// One word character.
pub const WORD_CHAR_PATTERN: &'static str = "^\\w$";

/// Whether the one-character string `c` matches `pattern`.
pub open spec fn char_matches(pattern: Seq<char>, c: char) -> bool {
    regex_is_match(pattern, seq![c])
}

/// A letter of the Cyrillic or Latin script.
pub open spec fn is_letter(c: char) -> bool {
    char_matches(LETTER_PATTERN@, c)
}

/// A word character (`\w`).
pub open spec fn is_word_char(c: char) -> bool {
    char_matches(WORD_CHAR_PATTERN@, c)
}

/// A class of characters given by a one-character pattern.
pub struct CharClass {
    compiled: Option<CompiledPattern>,
    pattern: Ghost<Seq<char>>,
}

impl CharClass {
    pub closed spec fn pattern(&self) -> Seq<char> {
        self.pattern@
    }

    pub closed spec fn wf(&self) -> bool {
        match self.compiled {
            Some(c) => c.pattern() == self.pattern@,
            None => forall|h: Seq<char>| !#[trigger] regex_is_match(self.pattern@, h),
        }
    }

    pub fn new(pattern: &str) -> (r: Self)
        ensures
            r.pattern() == pattern@,
            r.wf(),
    {
        CharClass { compiled: compile(pattern), pattern: Ghost(pattern@) }
    }

    pub fn letters() -> (r: Self)
        ensures
            r.pattern() == LETTER_PATTERN@,
            r.wf(),
    {
        Self::new(LETTER_PATTERN)
    }

    pub fn word_chars() -> (r: Self)
        ensures
            r.pattern() == WORD_CHAR_PATTERN@,
            r.wf(),
    {
        Self::new(WORD_CHAR_PATTERN)
    }

    /// Whether the character is of the class.
    pub fn contains(&self, c: char) -> (r: bool)
        requires
            self.wf(),
        ensures
            r == char_matches(self.pattern(), c),
    {
        match &self.compiled {
            Some(compiled) => compiled_matches(compiled, c),
            None => false,
        }
    }
}

} // verus!
