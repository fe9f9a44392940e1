//! Where missing `match` case arms are inserted into a module's source, and how they are
//! indented.
use vstd::prelude::*;
use crate::declarations::string_views;
use crate::diagnostics::{Span, SpanView};
use crate::text::{owned, substring, str_trim, trim, trim_start, is_ws, char_is_whitespace, join_with, join_strings};

verus! {

/// A case arm of a `match` statement: its line, whether it has a guard, and its patterns.
#[derive(Debug)]
pub struct MatchCaseSite {
    pub line: usize,
    pub has_guard: bool,
    pub patterns: Vec<crate::semantic_types::MatchPattern>,
}

/// A `match` statement: its line and its case arms.
#[derive(Debug)]
pub struct MatchSite {
    pub line: usize,
    pub cases: Vec<MatchCaseSite>,
}

/// Where a left-to-right split of text into lines stands: the lines closed by a newline, and
/// the line being read.
pub struct LinesState {
    pub lines: Seq<Seq<char>>,
    pub current: Seq<char>,
}

/// A line closed by a newline loses a carriage return before it.
pub open spec fn strip_cr(l: Seq<char>) -> Seq<char> {
    if l.len() > 0 && l.last() == '\r' {
        l.drop_last()
    } else {
        l
    }
}

/// Reading the characters of `s`: a newline closes the current line.
pub open spec fn lines_run(s: Seq<char>) -> LinesState
    decreases s.len(),
{
    if s.len() == 0 {
        LinesState { lines: Seq::empty(), current: Seq::empty() }
    } else {
        let st = lines_run(s.drop_last());
        if s.last() == '\n' {
            LinesState { lines: st.lines.push(strip_cr(st.current)), current: Seq::empty() }
        } else {
            LinesState { lines: st.lines, current: st.current.push(s.last()) }
        }
    }
}

/// The lines of `s` as `str::lines` yields them: split at `\n` or `\r\n`, with no empty last
/// line after a final line ending.
pub open spec fn spec_lines(s: Seq<char>) -> Seq<Seq<char>> {
    let st = lines_run(s);
    if st.current.len() > 0 {
        st.lines.push(st.current)
    } else {
        st.lines
    }
}

/// The lines of a text.
pub fn source_lines(s: &str) -> (res: Vec<String>)
    ensures
        string_views(res@) == spec_lines(s@),
{
    let n = s.unicode_len();
    let mut lines: Vec<String> = Vec::new();
    let mut start: usize = 0;
    let mut i: usize = 0;
    assert(s@.take(0) =~= Seq::<char>::empty());
    while i < n
        invariant
            n == s@.len(),
            start <= i <= n,
            string_views(lines@) == lines_run(s@.take(i as int)).lines,
            s@.subrange(start as int, i as int) == lines_run(s@.take(i as int)).current,
        decreases n - i,
    {
        let c = s.get_char(i);
        assert(s@.take(i + 1).drop_last() =~= s@.take(i as int));
        assert(s@.take(i + 1).last() == c);
        if c == '\n' {
            let ghost cur = s@.subrange(start as int, i as int);
            let end = if i > start && s.get_char(i - 1) == '\r' {
                i - 1
            } else {
                i
            };
            let line = substring(s, start, end);
            assert(line@ == strip_cr(cur)) by {
                if i > start && s@[i - 1] == '\r' {
                    assert(cur.last() == s@[i - 1]);
                    assert(cur.drop_last() =~= s@.subrange(start as int, i - 1));
                }
            }
            let ghost before = string_views(lines@);
            lines.push(line);
            assert(string_views(lines@) =~= before.push(line@));
            start = i + 1;
            assert(s@.subrange(start as int, i + 1) =~= Seq::<char>::empty());
        } else {
            assert(s@.subrange(start as int, i + 1) =~= s@.subrange(start as int, i as int).push(c));
        }
        i = i + 1;
    }
    assert(s@.take(n as int) =~= s@);
    if start < n {
        let last = substring(s, start, n);
        let ghost before = string_views(lines@);
        lines.push(last);
        assert(string_views(lines@) =~= before.push(last@));
    }
    lines
}

/// The number of spaces at the start of a line.
pub open spec fn spec_leading_spaces(l: Seq<char>) -> nat
    decreases l.len(),
{
    if l.len() > 0 && l[0] == ' ' {
        1 + spec_leading_spaces(l.drop_first())
    } else {
        0
    }
}

proof fn lemma_leading_spaces(l: Seq<char>, n: nat)
    requires
        n <= l.len(),
        forall|i: int| 0 <= i < n ==> l[i] == ' ',
        n < l.len() ==> l[n as int] != ' ',
    ensures
        spec_leading_spaces(l) == n,
    decreases l.len(),
{
    if n > 0 {
        lemma_leading_spaces(l.drop_first(), (n - 1) as nat);
    }
}

proof fn lemma_leading_spaces_bound(l: Seq<char>)
    ensures
        spec_leading_spaces(l) <= l.len(),
    decreases l.len(),
{
    if l.len() > 0 && l[0] == ' ' {
        lemma_leading_spaces_bound(l.drop_first());
    }
}

pub(crate) fn indent_of(line: &str) -> (res: usize)
    ensures
        res == spec_leading_spaces(line@),
        res <= line@.len(),
{
    let n = crate::declarations::leading_space_count(line);
    proof {
        lemma_leading_spaces(line@, n as nat);
    }
    n
}

/// `n` spaces.
pub open spec fn spaces(n: nat) -> Seq<char> {
    Seq::new(n, |i: int| ' ')
}

pub(crate) fn spaces_string(n: usize) -> (res: String)
    ensures
        res@ == spaces(n as nat),
{
    let mut s = String::new();
    let mut k: usize = 0;
    assert(s@ =~= spaces(0));
    while k < n
        invariant
            k <= n,
            s@ == spaces(k as nat),
        decreases n - k,
    {
        s.append(" ");
        proof {
            reveal_strlit(" ");
        }
        assert(s@ =~= spaces((k + 1) as nat));
        k = k + 1;
    }
    s
}

proof fn lemma_trim_start_skip(s: Seq<char>, i: int)
    requires
        0 <= i < s.len(),
        is_ws(s[i]),
    ensures
        trim_start(s.skip(i)) == trim_start(s.skip(i + 1)),
{
    assert(s.skip(i).drop_first() =~= s.skip(i + 1));
}

fn str_trim_start(s: &str) -> (res: String)
    ensures
        res@ == trim_start(s@),
{
    let n = s.unicode_len();
    let mut start: usize = 0;
    assert(s@.skip(0) =~= s@);
    while start < n && char_is_whitespace(s.get_char(start))
        invariant
            n == s@.len(),
            start <= n,
            trim_start(s@) == trim_start(s@.skip(start as int)),
        decreases n - start,
    {
        proof {
            lemma_trim_start_skip(s@, start as int);
        }
        start = start + 1;
    }
    let ghost rest = s@.skip(start as int);
    assert(trim_start(s@) == rest) by {
        if rest.len() > 0 {
            assert(rest[0] == s@[start as int]);
        }
    }
    assert(rest =~= s@.subrange(start as int, n as int));
    substring(s, start, n)
}

/// The lines of a case arm indented: the first at `first`, the others at `rest`, each with its
/// own leading whitespace removed.
pub open spec fn spec_indent_lines(lines: Seq<Seq<char>>, first: nat, rest: nat) -> Seq<Seq<char>> {
    Seq::new(
        lines.len(),
        |i: int|
            spaces(
                if i == 0 {
                    first
                } else {
                    rest
                },
            ) + trim_start(lines[i]),
    )
}

/// A case arm rendered at the given indentation.
pub open spec fn spec_render_case(case: Seq<char>, first: nat, rest: nat) -> Seq<char> {
    join_with(spec_indent_lines(spec_lines(case), first, rest), "\n"@)
}

fn render_case(case: &str, first: usize, rest: usize) -> (res: String)
    ensures
        res@ == spec_render_case(case@, first as nat, rest as nat),
{
    let lines = source_lines(case);
    let ghost lv = string_views(lines@);
    let mut pieces: Vec<String> = Vec::new();
    let mut i: usize = 0;
    while i < lines.len()
        invariant
            i <= lines@.len(),
            lv == string_views(lines@),
            lv.len() == lines@.len(),
            string_views(pieces@) == spec_indent_lines(lv, first as nat, rest as nat).take(i as int),
        decreases lines@.len() - i,
    {
        let indent = if i == 0 {
            first
        } else {
            rest
        };
        let mut piece = spaces_string(indent);
        let body = str_trim_start(&lines[i]);
        piece.append(&body);
        assert(lv[i as int] == lines@[i as int]@);
        assert(piece@ == spec_indent_lines(lv, first as nat, rest as nat)[i as int]);
        let ghost before = string_views(pieces@);
        pieces.push(piece);
        assert(string_views(pieces@) =~= before.push(piece@));
        assert(string_views(pieces@) =~= spec_indent_lines(lv, first as nat, rest as nat).take(i + 1));
        i = i + 1;
    }
    assert(spec_indent_lines(lv, first as nat, rest as nat).take(lines@.len() as int) =~= spec_indent_lines(
        lv,
        first as nat,
        rest as nat,
    ));
    proof {
        reveal_strlit("\n");
    }
    join_strings(&pieces, "\n")
}

/// The case arms rendered at the given indentation.
pub open spec fn spec_render_cases(cases: Seq<Seq<char>>, first: nat, rest: nat) -> Seq<Seq<char>> {
    Seq::new(cases.len(), |i: int| spec_render_case(cases[i], first, rest))
}

/// The indentation of the case arms: that of the first existing case line indented deeper than
/// the `match`, else four spaces deeper than the `match`.
pub open spec fn spec_case_indent(lines: Seq<Seq<char>>, case_lines: Seq<usize>, match_indent: nat) -> nat
    decreases case_lines.len(),
{
    if case_lines.len() == 0 {
        match_indent + 4
    } else {
        let c = case_lines[0];
        if 1 <= c <= lines.len() && spec_leading_spaces(lines[c - 1]) > match_indent {
            spec_leading_spaces(lines[c - 1])
        } else {
            spec_case_indent(lines, case_lines.drop_first(), match_indent)
        }
    }
}

/// The first line from index `from` on that is not blank and not indented deeper than the
/// `match`, counted from one.
pub open spec fn spec_insertion_line(lines: Seq<Seq<char>>, from: int, match_indent: nat) -> Option<int>
    decreases lines.len() - from,
{
    if from >= lines.len() || from < 0 {
        None
    } else if trim(lines[from]).len() > 0 && spec_leading_spaces(lines[from]) <= match_indent {
        Some(from + 1)
    } else {
        spec_insertion_line(lines, from + 1, match_indent)
    }
}

/// The span of one position on both ends.
pub open spec fn point(path: Seq<char>, line: nat, column: nat) -> SpanView {
    SpanView { path, line, column, end_line: line, end_column: column }
}

/// The edit that inserts the missing case arms of the `match` on `match_line` of a source text:
/// before the first line after the `match` that leaves its block, or at the end of the text.
/// Nothing when there are no arms to insert, the text could not be read, or the `match` line is
/// not in it.
pub open spec fn spec_match_case_insertion_edit(
    source_path: Seq<char>,
    source: Option<Seq<char>>,
    match_line: nat,
    case_lines: Seq<usize>,
    rendered_cases: Seq<Seq<char>>,
) -> Option<(SpanView, Seq<char>)> {
    if rendered_cases.len() == 0 {
        None
    } else {
        match source {
            None => None,
            Some(src) => {
                let lines = spec_lines(src);
                if match_line == 0 || match_line > lines.len() {
                    None
                } else {
                    let mi = spec_leading_spaces(lines[match_line - 1]);
                    let ci = spec_case_indent(lines, case_lines, mi);
                    let rendered = join_with(spec_render_cases(rendered_cases, ci, ci + 4), "\n"@);
                    match spec_insertion_line(lines, match_line as int, mi) {
                        Some(il) => Some((point(source_path, il as nat, 1), rendered + "\n"@)),
                        None => {
                            let last_line: nat = if lines.len() > 0 {
                                lines.len()
                            } else {
                                1
                            };
                            let last_col: nat = if lines.len() > 0 {
                                lines.last().len() + 1
                            } else {
                                1
                            };
                            Some((point(source_path, last_line, last_col), "\n"@ + rendered + "\n"@))
                        },
                    }
                }
            },
        }
    }
}

proof fn lemma_lines_run_bounds(s: Seq<char>)
    ensures
        lines_run(s).current.len() + lines_run(s).lines.len() <= s.len(),
        forall|j: int| 0 <= j < lines_run(s).lines.len() ==> #[trigger] lines_run(s).lines[j].len() <= s.len(),
    decreases s.len(),
{
    if s.len() > 0 {
        lemma_lines_run_bounds(s.drop_last());
    }
}

proof fn lemma_lines_bounds(s: Seq<char>)
    ensures
        spec_lines(s).len() <= s.len(),
        forall|j: int| 0 <= j < spec_lines(s).len() ==> #[trigger] spec_lines(s)[j].len() <= s.len(),
{
    lemma_lines_run_bounds(s);
}

proof fn lemma_case_indent_bound(lines: Seq<Seq<char>>, case_lines: Seq<usize>, match_indent: nat, bound: nat)
    requires
        forall|j: int| 0 <= j < lines.len() ==> #[trigger] lines[j].len() <= bound,
        match_indent <= bound,
    ensures
        spec_case_indent(lines, case_lines, match_indent) <= bound + 4,
    decreases case_lines.len(),
{
    if case_lines.len() > 0 {
        let c = case_lines[0];
        if 1 <= c <= lines.len() {
            lemma_leading_spaces_bound(lines[c - 1]);
        }
        lemma_case_indent_bound(lines, case_lines.drop_first(), match_indent, bound);
    }
}

/// The edit that inserts the missing case arms of the `match` on `match_line`, given the text
/// of the module at `source_path` when it could be read, the lines of the existing case arms,
/// and the rendered missing arms.
pub fn match_case_insertion_edit(
    source_path: &str,
    source: Option<&str>,
    match_line: usize,
    case_lines: &Vec<usize>,
    rendered_cases: &Vec<String>,
) -> (res: Option<(Span, String)>)
    requires
        match source {
            Some(s) => s@.len() + 8 <= usize::MAX,
            None => true,
        },
    ensures
        match res {
            Some((span, text)) => spec_match_case_insertion_edit(
                source_path@,
                match source {
                    Some(s) => Some(s@),
                    None => None,
                },
                match_line as nat,
                case_lines@,
                string_views(rendered_cases@),
            ) == Some((span@, text@)),
            None => spec_match_case_insertion_edit(
                source_path@,
                match source {
                    Some(s) => Some(s@),
                    None => None,
                },
                match_line as nat,
                case_lines@,
                string_views(rendered_cases@),
            ) is None,
        },
{
    if rendered_cases.len() == 0 {
        return None;
    }
    let src = match source {
        Some(s) => s,
        None => return None,
    };
    let lines = source_lines(src);
    let ghost lv = string_views(lines@);
    proof {
        lemma_lines_bounds(src@);
    }
    if match_line == 0 || match_line > lines.len() {
        return None;
    }
    let match_indent = indent_of(&lines[match_line - 1]);
    assert(lv[match_line - 1] == lines@[match_line - 1]@);
    let mut case_indent = match_indent + 4;
    let mut found = false;
    let mut k: usize = 0;
    assert(case_lines@.skip(0) =~= case_lines@);
    while k < case_lines.len() && !found
        invariant
            k <= case_lines@.len(),
            lv == string_views(lines@),
            lv.len() == lines@.len(),
            forall|j: int| 0 <= j < lv.len() ==> #[trigger] lv[j].len() <= src@.len(),
            match_indent <= src@.len(),
            src@.len() + 8 <= usize::MAX,
            found ==> case_indent == spec_case_indent(lv, case_lines@, match_indent as nat),
            !found ==> spec_case_indent(lv, case_lines@, match_indent as nat) == spec_case_indent(
                lv,
                case_lines@.skip(k as int),
                match_indent as nat,
            ),
            !found ==> case_indent == match_indent + 4,
        decreases case_lines@.len() - k,
    {
        let c = case_lines[k];
        assert(case_lines@.skip(k as int)[0] == c);
        assert(case_lines@.skip(k as int).drop_first() =~= case_lines@.skip(k + 1));
        if c >= 1 && c <= lines.len() {
            let indent = indent_of(&lines[c - 1]);
            assert(lv[c - 1] == lines@[c - 1]@);
            if indent > match_indent {
                case_indent = indent;
                found = true;
            }
        }
        k = k + 1;
    }
    proof {
        if !found {
            assert(case_lines@.skip(k as int) =~= Seq::<usize>::empty());
        }
        lemma_case_indent_bound(lv, case_lines@, match_indent as nat, src@.len());
    }
    let body_indent = case_indent + 4;
    let mut rendered_parts: Vec<String> = Vec::new();
    let mut r: usize = 0;
    let ghost rv = string_views(rendered_cases@);
    while r < rendered_cases.len()
        invariant
            r <= rendered_cases@.len(),
            rv == string_views(rendered_cases@),
            body_indent == case_indent + 4,
            string_views(rendered_parts@) == spec_render_cases(rv, case_indent as nat, body_indent as nat).take(
                r as int,
            ),
        decreases rendered_cases@.len() - r,
    {
        let part = render_case(&rendered_cases[r], case_indent, body_indent);
        assert(rv[r as int] == rendered_cases@[r as int]@);
        let ghost before = string_views(rendered_parts@);
        rendered_parts.push(part);
        assert(string_views(rendered_parts@) =~= before.push(part@));
        assert(string_views(rendered_parts@) =~= spec_render_cases(
            rv,
            case_indent as nat,
            body_indent as nat,
        ).take(r + 1));
        r = r + 1;
    }
    assert(spec_render_cases(rv, case_indent as nat, body_indent as nat).take(rendered_cases@.len() as int)
        =~= spec_render_cases(rv, case_indent as nat, body_indent as nat));
    proof {
        reveal_strlit("\n");
    }
    let rendered = join_strings(&rendered_parts, "\n");
    let mut idx: usize = match_line;
    let mut insertion: Option<usize> = None;
    while idx < lines.len() && insertion.is_none()
        invariant
            match_line <= idx <= lines@.len(),
            lv == string_views(lines@),
            lv.len() == lines@.len(),
            insertion is None ==> spec_insertion_line(lv, match_line as int, match_indent as nat)
                == spec_insertion_line(lv, idx as int, match_indent as nat),
            insertion matches Some(il) ==> spec_insertion_line(lv, match_line as int, match_indent as nat)
                == Some(il as int),
            lv.len() <= src@.len(),
            src@.len() + 8 <= usize::MAX,
        decreases lines@.len() - idx,
    {
        let line = &lines[idx];
        assert(lv[idx as int] == line@);
        let t = str_trim(line);
        if t.unicode_len() > 0 && indent_of(line) <= match_indent {
            insertion = Some(idx + 1);
        }
        idx = idx + 1;
    }
    match insertion {
        Some(il) => {
            let mut text = rendered;
            text.append("\n");
            Some((Span::new(owned(source_path), il, 1, il, 1), text))
        },
        None => {
            let n = lines.len();
            let last_line = if n > 0 {
                n
            } else {
                1
            };
            let last_col = if n > 0 {
                assert(lv[n - 1] == lines@[n - 1]@);
                lines[n - 1].unicode_len() + 1
            } else {
                1
            };
            let mut text = owned("\n");
            text.append(&rendered);
            text.append("\n");
            Some((Span::new(owned(source_path), last_line, last_col, last_line, last_col), text))
        },
    }
}

} // verus!
