//! Selection of the result that a finished script left in its working
//! directory.
use vstd::prelude::*;
use crate::json::{json_quoted, opt_text, quote};
use crate::text::{trim_text, trimmed};

verus! {

/// The value reported where a script left no result at all.
pub const NO_RESULT: &'static str = "No result.out, result2.out or result.json found";

/// The artifact that holds the result of a run.
#[derive(Clone, Copy, Debug, PartialEq, Eq, Structural)]
pub enum ResultSource {
    /// The structured result file.
    Structured,
    /// The plain text result file.
    PlainText,
    /// The capture of the last line of output.
    LastLine,
    /// None of them.
    Missing,
}

/// The artifact that wins, from the sizes of the two result files, absent
/// where a file does not exist, and from the existence of the capture file:
/// a result file counts only if it is not empty, the capture file whenever
/// it exists.
pub open spec fn selected(structured: Option<u64>, plain: Option<u64>, last_line: bool) -> ResultSource {
    if structured is Some && structured->0 > 0 {
        ResultSource::Structured
    } else if plain is Some && plain->0 > 0 {
        ResultSource::PlainText
    } else if last_line {
        ResultSource::LastLine
    } else {
        ResultSource::Missing
    }
}

/// The JSON text reported for the content of the winning artifact.
pub open spec fn rendered(source: ResultSource, content: Seq<char>) -> Seq<char> {
    match source {
        ResultSource::Structured => content,
        ResultSource::PlainText => json_quoted(content),
        ResultSource::LastLine => json_quoted(trimmed(content)),
        ResultSource::Missing => json_quoted(NO_RESULT@),
    }
}

/// Whether an artifact with this content counts as a result file.
pub open spec fn is_filled(content: Option<Seq<char>>) -> bool {
    content is Some && content->0.len() > 0
}

/// The JSON text reported for a run, from the contents of its three
/// artifacts, absent where a file does not exist.
pub open spec fn extracted(
    structured: Option<Seq<char>>,
    plain: Option<Seq<char>>,
    last_line: Option<Seq<char>>,
) -> Seq<char> {
    if is_filled(structured) {
        structured->0
    } else if is_filled(plain) {
        json_quoted(plain->0)
    } else if last_line is Some {
        json_quoted(trimmed(last_line->0))
    } else {
        json_quoted(NO_RESULT@)
    }
}

/// Picks the artifact to read.
pub fn select_result(structured: Option<u64>, plain: Option<u64>, last_line: bool) -> (r: ResultSource)
    ensures
        r == selected(structured, plain, last_line),
{
    match structured {
        Some(n) => if n > 0 {
            return ResultSource::Structured;
        },
        None => {},
    }
    match plain {
        Some(n) => if n > 0 {
            return ResultSource::PlainText;
        },
        None => {},
    }
    if last_line {
        ResultSource::LastLine
    } else {
        ResultSource::Missing
    }
}

/// Turns the content of the chosen artifact into the JSON text to report.
pub fn render_result(source: ResultSource, content: &str) -> (r: String)
    ensures
        r@ == rendered(source, content@),
{
    match source {
        ResultSource::Structured => String::from_str(content),
        ResultSource::PlainText => quote(content),
        ResultSource::LastLine => {
            let t = trim_text(content);
            quote(t.as_str())
        },
        ResultSource::Missing => quote(NO_RESULT),
    }
}

/// Reports the result of a run from the contents of its three artifacts.
pub fn extract_result(structured: Option<String>, plain: Option<String>, last_line: Option<String>) -> (r: String)
    ensures
        r@ == extracted(opt_text(structured), opt_text(plain), opt_text(last_line)),
{
    match structured {
        Some(s) => if s.as_str().unicode_len() > 0 {
            return s;
        },
        None => {},
    }
    match plain {
        Some(s) => if s.as_str().unicode_len() > 0 {
            return render_result(ResultSource::PlainText, s.as_str());
        },
        None => {},
    }
    match last_line {
        Some(s) => render_result(ResultSource::LastLine, s.as_str()),
        None => render_result(ResultSource::Missing, ""),
    }
}

/// The size, as it matters here, of an artifact with this content.
pub open spec fn size_fits(size: Option<u64>, content: Option<Seq<char>>) -> bool {
    &&& size is Some <==> content is Some
    &&& size is Some ==> (size->0 > 0 <==> content->0.len() > 0)
}

/// The content of the artifact that `source` names.
pub open spec fn content_of(
    source: ResultSource,
    structured: Option<Seq<char>>,
    plain: Option<Seq<char>>,
    last_line: Option<Seq<char>>,
) -> Seq<char> {
    match source {
        ResultSource::Structured => structured->0,
        ResultSource::PlainText => plain->0,
        ResultSource::LastLine => last_line->0,
        ResultSource::Missing => Seq::empty(),
    }
}

/// Picking an artifact by the sizes of the files and rendering its content
/// reports the same as reading all three: the order of precedence is fixed,
/// and a result is always reported.
pub proof fn lemma_select_then_render(
    sizes: (Option<u64>, Option<u64>),
    structured: Option<Seq<char>>,
    plain: Option<Seq<char>>,
    last_line: Option<Seq<char>>,
)
    requires
        size_fits(sizes.0, structured),
        size_fits(sizes.1, plain),
    ensures
        extracted(structured, plain, last_line) == rendered(
            selected(sizes.0, sizes.1, last_line is Some),
            content_of(selected(sizes.0, sizes.1, last_line is Some), structured, plain, last_line),
        ),
{
}

} // verus!
