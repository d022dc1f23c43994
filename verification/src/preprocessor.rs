use vstd::prelude::*;

verus! {

/// What `regex::Regex::new(pattern)` followed by
/// `Regex::replace_all(text, replacement)` gives: `None` where the pattern
/// does not compile, else the text with every match of the pattern, found
/// from left to right without overlap, replaced.
pub uninterp spec fn regex_replaced(
    pattern: Seq<char>,
    text: Seq<char>,
    replacement: Seq<char>,
) -> Option<Seq<char>>;

/// Compiles `pattern` with `regex::Regex::new` and replaces all its matches
/// in `text` with `Regex::replace_all`. The contract gives the result its
/// name and says nothing else of it: the two calls depend on their arguments
/// alone.
#[verifier::external_body]
fn replace_all(pattern: &str, text: &str, replacement: &str) -> (out: Option<String>)
    ensures
        match out {
            Some(replaced) => regex_replaced(pattern@, text@, replacement@) == Some(replaced@),
            None => regex_replaced(pattern@, text@, replacement@) is None,
        },
{
    match regex::Regex::new(pattern) {
        Ok(re) => Some(re.replace_all(text, replacement).into_owned()),
        Err(_) => None,
    }
}

/// The pattern of a comment: from `/*` to the nearest `*/`, or from `//` to
/// the end of the line.
pub open spec fn comment_pattern() -> Seq<char> {
    "(/\\*[\\s\\S]*?\\*/)|(//.*)"@
}

/// Removes the comments from a source text: every match of
/// [`comment_pattern`] is replaced by nothing. `None` comes back only if the
/// pattern does not compile.
pub fn remove_comments(input: &str) -> (out: Option<String>)
    ensures
        match out {
            Some(stripped) => regex_replaced(comment_pattern(), input@, Seq::empty()) == Some(
                stripped@,
            ),
            None => regex_replaced(comment_pattern(), input@, Seq::empty()) is None,
        },
{
    proof {
        reveal_strlit("");
        assert(""@ =~= Seq::<char>::empty());
    }
    replace_all("(/\\*[\\s\\S]*?\\*/)|(//.*)", input, "")
}

} // verus!
