//! Recognition of module import statements, by a regular expression.
use vstd::prelude::*;
use crate::json::opt_text;

verus! {

/// The groups of the first match of a regular expression in a text: the
/// whole match first, then each capture group, absent where it took no part.
/// `None` where the expression is not valid or matches nowhere.
pub uninterp spec fn regex_captures(pattern: Seq<char>, text: Seq<char>) -> Option<Seq<Option<Seq<char>>>>;

/// The texts held by a sequence of optional strings.
pub open spec fn group_texts(g: Seq<Option<String>>) -> Seq<Option<Seq<char>>> {
    Seq::new(g.len(), |i: int| opt_text(g[i]))
}

/// Searches `text` for the first match of `pattern`.
///
/// Trusted: compiles the expression with `regex::Regex::new`, searches with
/// `Regex::captures` and copies out the text of every group that
/// `Captures::iter` yields. Matching is a function of the expression and the
/// text alone; the outcome is named `regex_captures`.
#[verifier::external_body]
pub(crate) fn first_captures(pattern: &str, text: &str) -> (r: Option<Vec<Option<String>>>)
    ensures
        match r {
            Some(g) => regex_captures(pattern@, text@) == Some(group_texts(g@)),
            None => regex_captures(pattern@, text@) is None,
        },
{
    match regex::Regex::new(pattern) {
        Ok(re) => re.captures(text).map(|c| c.iter().map(|g| g.map(|m| m.as_str().to_string())).collect()),
        Err(_) => None,
    }
}

/// The expression that recognises an import statement at the start of a
/// line. The module name may stand in double quotes, in single quotes or
/// bare; it is captured by the second, third or fourth group accordingly.
pub const IMPORT_PATTERN: &'static str =
    r#"^(?i)Import-Module(?-i)\s+(?:-Force\s+)?(?:-Name\s+)?(?:(?:"([^-\s"]+)")|(?:'([^-\s']+)')|([^-\s'"]+))"#;

/// An import statement found in a line.
pub struct Import {
    /// The statement as written, from the keyword to the module name.
    pub whole: String,
    /// The module name as written, without quotes.
    pub name: String,
}

/// The first of three optional texts that is present.
pub open spec fn first_present(a: Option<Seq<char>>, b: Option<Seq<char>>, c: Option<Seq<char>>) -> Option<Seq<char>> {
    if a is Some {
        a
    } else if b is Some {
        b
    } else {
        c
    }
}

/// The statement and module name that the groups of a match stand for:
/// there must be four groups, the whole match and at least one name.
pub open spec fn import_in(g: Seq<Option<Seq<char>>>) -> Option<(Seq<char>, Seq<char>)> {
    if g.len() == 4 && g[0] is Some {
        match first_present(g[1], g[2], g[3]) {
            Some(name) => Some((g[0]->0, name)),
            None => None,
        }
    } else {
        None
    }
}

/// The import statement at the start of a line, if it has one.
pub open spec fn import_at(line: Seq<char>) -> Option<(Seq<char>, Seq<char>)> {
    match regex_captures(IMPORT_PATTERN@, line) {
        Some(g) => import_in(g),
        None => None,
    }
}

/// The view of an optional import.
pub open spec fn opt_import(o: Option<Import>) -> Option<(Seq<char>, Seq<char>)> {
    match o {
        Some(i) => Some((i.whole@, i.name@)),
        None => None,
    }
}

/// Reads the statement and the module name out of the groups of a match.
pub fn import_of(groups: &Vec<Option<String>>) -> (r: Option<Import>)
    ensures
        opt_import(r) == import_in(group_texts(groups@)),
{
    if groups.len() != 4 {
        return None;
    }
    let ghost g = group_texts(groups@);
    assert(g[0] == opt_text(groups@[0]));
    assert(g[1] == opt_text(groups@[1]));
    assert(g[2] == opt_text(groups@[2]));
    assert(g[3] == opt_text(groups@[3]));
    let whole = match &groups[0] {
        Some(w) => w,
        None => { return None; },
    };
    let name = match &groups[1] {
        Some(n) => n,
        None => match &groups[2] {
            Some(n) => n,
            None => match &groups[3] {
                Some(n) => n,
                None => { return None; },
            },
        },
    };
    Some(Import { whole: whole.clone(), name: name.clone() })
}

/// Finds the import statement at the start of a line.
pub fn find_import(line: &str) -> (r: Option<Import>)
    ensures
        opt_import(r) == import_at(line@),
{
    match first_captures(IMPORT_PATTERN, line) {
        Some(g) => import_of(&g),
        None => None,
    }
}

} // verus!
