use vstd::prelude::*;

use crate::text::first_occurrence;
use crate::text::lemma_first_occurrence_is;

verus! {

/// Width of the separator lines that frame a record.
pub open spec fn line_width() -> int {
    80
}

/// A separator line: `line_width` copies of one character.
pub open spec fn sep_line(c: char) -> Seq<char> {
    Seq::new(line_width() as nat, |i: int| c)
}

/// The header that opens a record: the path line and a line of dashes.
pub open spec fn record_header(path: Seq<char>) -> Seq<char> {
    "File: "@ + path + "\n"@ + sep_line('-') + "\n"@
}

/// The trailer that closes a record: a newline, a line of `=`, and a blank line.
pub open spec fn record_trailer() -> Seq<char> {
    "\n"@ + sep_line('=') + "\n"@ + "\n"@
}

/// One framed record of the output document: header, verbatim content, trailer.
pub open spec fn record_of(path: Seq<char>, content: Seq<char>) -> Seq<char> {
    record_header(path) + content + record_trailer()
}

/// Builds a line of `width` copies of the single character of `unit`.
fn repeat_str(unit: &str, width: usize) -> (r: String)
    requires
        unit@.len() == 1,
    ensures
        r@ == Seq::new(width as nat, |i: int| unit@[0]),
{
    let mut out = String::new();
    proof {
        assert(out@ =~= Seq::new(0, |k: int| unit@[0]));
    }
    let mut i: usize = 0;
    while i < width
        invariant
            unit@.len() == 1,
            i <= width,
            out@ == Seq::new(i as nat, |k: int| unit@[0]),
        decreases width - i,
    {
        out.append(unit);
        proof {
            assert(out@ =~= Seq::new((i + 1) as nat, |k: int| unit@[0]));
        }
        i += 1;
    }
    out
}

/// Renders one record: `File: <path>`, a dash line, the content verbatim, an
/// `=` line, and a blank line, each part ended by a newline.
pub fn render_record(path: &str, content: &str) -> (r: String)
    ensures
        r@ == record_of(path@, content@),
{
    proof {
        reveal_strlit("-");
        reveal_strlit("=");
    }
    let dashes = repeat_str("-", 80);
    let equals = repeat_str("=", 80);
    proof {
        assert(dashes@ =~= sep_line('-'));
        assert(equals@ =~= sep_line('='));
    }
    let mut out = String::new();
    out.append("File: ");
    out.append(path);
    out.append("\n");
    out.append(dashes.as_str());
    out.append("\n");
    out.append(content);
    out.append("\n");
    out.append(equals.as_str());
    out.append("\n");
    out.append("\n");
    proof {
        assert(out@ =~= record_of(path@, content@));
    }
    out
}

/// Reads one framed record back, the way a consumer of the document would:
/// the path is the header line past `File: `, and the content is what stands
/// between the dash line and the closing `=` frame at the end.
pub open spec fn parse_record(r: Seq<char>) -> Option<(Seq<char>, Seq<char>)> {
    match first_occurrence(r, '\n') {
        Some(j) => if {
            &&& j >= 6
            &&& r.len() >= j + 2 + 2 * line_width() + 3
            &&& r.subrange(0, 6) == "File: "@
            &&& r.subrange(j + 1, j + 1 + line_width()) == sep_line('-')
            &&& r[j + 1 + line_width()] == '\n'
            &&& r.subrange(r.len() - (line_width() + 3), r.len() as int) == record_trailer()
        } {
            Some((r.subrange(6, j), r.subrange(j + 2 + line_width(), r.len() - (line_width() + 3))))
        } else {
            None
        },
        None => None,
    }
}

/// Framing is lossless: a rendered record parses back to the same path and
/// the same verbatim content, whatever the content holds, as long as the
/// path itself spans no more than the header line.
pub proof fn lemma_parse_record_round_trip(path: Seq<char>, content: Seq<char>)
    requires
        !path.contains('\n'),
    ensures
        parse_record(record_of(path, content)) == Some((path, content)),
{
    reveal_strlit("File: ");
    reveal_strlit("\n");
    let r = record_of(path, content);
    let j = 6 + path.len() as int;
    assert(r[j] == '\n');
    assert(forall|k: int| 0 <= k < j ==> r[k] != '\n') by {
        assert(forall|k: int| 0 <= k < 6 ==> r[k] == "File: "@[k]);
        assert(forall|k: int| 6 <= k < j ==> r[k] == path[k - 6]);
    }
    lemma_first_occurrence_is(r, '\n', j);
    assert(r.subrange(0, 6) =~= "File: "@);
    assert(r.subrange(j + 1, j + 1 + line_width()) =~= sep_line('-'));
    assert(r[j + 1 + line_width()] == '\n');
    assert(r.subrange(r.len() - (line_width() + 3), r.len() as int) =~= record_trailer());
    assert(r.subrange(6, j) =~= path);
    assert(r.subrange(j + 2 + line_width(), r.len() - (line_width() + 3)) =~= content);
}

} // verus!
