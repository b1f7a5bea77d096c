//! LaTeX document assembly for the external diagram compiler: hoisting
//! preamble-only lines out of the diagram body, wrapping bare drawing
//! commands in the diagram environment, and building both the regular and
//! the fallback documents.

use vstd::prelude::*;
use vstd::string::StrSliceExecFns;
use vstd::string::StringExecFns;
use crate::fence::string_views;
use crate::strutil::{
    push_char, spec_contains_seq, spec_starts_with, spec_trim, str_contains, str_starts_with,
    str_trim,
};

verus! {

/// A line with one trailing carriage return removed, as `str::lines` does.
pub open spec fn spec_strip_cr(l: Seq<char>) -> Seq<char> {
    if l.len() > 0 && l.last() == '\r' {
        l.drop_last()
    } else {
        l
    }
}

/// The lines of a text, split on `\n` with a trailing carriage return
/// stripped from each, and no final empty line after a trailing newline.
pub open spec fn spec_lines_acc(s: Seq<char>, cur: Seq<char>) -> Seq<Seq<char>>
    decreases s.len(),
{
    if s.len() == 0 {
        if cur.len() == 0 {
            Seq::<Seq<char>>::empty()
        } else {
            seq![spec_strip_cr(cur)]
        }
    } else if s[0] == '\n' {
        seq![spec_strip_cr(cur)] + spec_lines_acc(s.skip(1), Seq::empty())
    } else {
        spec_lines_acc(s.skip(1), cur.push(s[0]))
    }
}

/// The lines of a text.
pub open spec fn spec_lines(s: Seq<char>) -> Seq<Seq<char>> {
    spec_lines_acc(s, Seq::empty())
}

fn strip_cr(cur: &String) -> (r: String)
    ensures
        r@ == spec_strip_cr(cur@),
{
    let n: usize = cur.as_str().unicode_len();
    if n > 0 && cur.as_str().get_char(n - 1) == '\r' {
        let r = cur.as_str().substring_char(0, n - 1);
        proof {
            assert(cur@.subrange(0, n - 1) =~= cur@.drop_last());
        }
        String::from_str(r)
    } else {
        cur.clone()
    }
}

/// Splits a text into its lines.
pub fn split_into_lines(s: &str) -> (r: Vec<String>)
    ensures
        string_views(r@) == spec_lines(s@),
{
    let n: usize = s.unicode_len();
    let mut lines: Vec<String> = Vec::new();
    let mut cur = String::new();
    let mut i: usize = 0;
    proof {
        assert(s@.skip(0) =~= s@);
        assert(string_views(lines@) =~= Seq::<Seq<char>>::empty());
    }
    while i < n
        invariant
            0 <= i <= n,
            n == s@.len(),
            string_views(lines@) + spec_lines_acc(s@.skip(i as int), cur@) == spec_lines(s@),
        decreases n - i,
    {
        let ghost rem = s@.skip(i as int);
        let c = s.get_char(i);
        proof {
            assert(rem[0] == c);
            assert(rem.skip(1) =~= s@.skip(i + 1));
        }
        if c == '\n' {
            let ghost lv = string_views(lines@);
            let finished = strip_cr(&cur);
            lines.push(finished);
            proof {
                assert(string_views(lines@) =~= lv.push(spec_strip_cr(cur@)));
                assert(lv.push(spec_strip_cr(cur@)) + spec_lines_acc(rem.skip(1), Seq::empty())
                    =~= lv + (seq![spec_strip_cr(cur@)] + spec_lines_acc(
                    rem.skip(1),
                    Seq::empty(),
                )));
            }
            cur = String::new();
        } else {
            push_char(&mut cur, c);
        }
        i = i + 1;
    }
    proof {
        assert(s@.skip(n as int) =~= Seq::<char>::empty());
    }
    if cur.as_str().unicode_len() > 0 {
        let ghost lv = string_views(lines@);
        let finished = strip_cr(&cur);
        lines.push(finished);
        proof {
            assert(string_views(lines@) =~= lv.push(spec_strip_cr(cur@)));
            assert(lv.push(spec_strip_cr(cur@)) =~= lv + seq![spec_strip_cr(cur@)]);
        }
    } else {
        proof {
            assert(string_views(lines@) + Seq::<Seq<char>>::empty() =~= string_views(lines@));
        }
    }
    lines
}

/// How the preamble hoist treats one line of diagram source.
#[derive(Debug, Clone, Copy, PartialEq, Eq, Structural)]
pub enum LineClass {
    /// Stays in the drawing body.
    Body,
    /// A stray document begin/end marker, dropped entirely.
    Dropped,
    /// A preamble-only directive, hoisted above the document body.
    Preamble,
}

/// Classifies one line: blank lines stay in the body, document delimiters
/// are dropped, and lines carrying class/package/library directives are
/// hoisted into the preamble wherever they appear.
pub open spec fn spec_line_class(line: Seq<char>) -> LineClass {
    let t = spec_trim(line);
    if t.len() == 0 {
        LineClass::Body
    } else if spec_starts_with(t, "\\begin{document}"@) || spec_starts_with(
        t,
        "\\end{document}"@,
    ) {
        LineClass::Dropped
    } else if spec_contains_seq(t, "\\documentclass"@) || spec_contains_seq(t, "\\usepackage"@)
        || spec_contains_seq(t, "\\RequirePackage"@) || spec_contains_seq(
        t,
        "\\PassOptionsToPackage"@,
    ) || spec_contains_seq(t, "\\usetikzlibrary"@) {
        LineClass::Preamble
    } else {
        LineClass::Body
    }
}

fn classify_line(line: &str) -> (r: LineClass)
    ensures
        r == spec_line_class(line@),
{
    let t = str_trim(line);
    if t.as_str().unicode_len() == 0 {
        return LineClass::Body;
    }
    if str_starts_with(t.as_str(), "\\begin{document}") || str_starts_with(
        t.as_str(),
        "\\end{document}",
    ) {
        return LineClass::Dropped;
    }
    if str_contains(t.as_str(), "\\documentclass") || str_contains(t.as_str(), "\\usepackage")
        || str_contains(t.as_str(), "\\RequirePackage") || str_contains(
        t.as_str(),
        "\\PassOptionsToPackage",
    ) || str_contains(t.as_str(), "\\usetikzlibrary") {
        return LineClass::Preamble;
    }
    LineClass::Body
}

/// The sub-sequence of lines with a given class.
pub open spec fn spec_lines_of_class(lines: Seq<Seq<char>>, class: LineClass) -> Seq<Seq<char>> {
    lines.filter(|l: Seq<char>| spec_line_class(l) == class)
}

/// The lines joined with single newlines, none trailing.
pub open spec fn spec_join_nl(lines: Seq<Seq<char>>) -> Seq<char>
    decreases lines.len(),
{
    if lines.len() == 0 {
        Seq::<char>::empty()
    } else if lines.len() == 1 {
        lines[0]
    } else {
        spec_join_nl(lines.drop_last()) + seq!['\n'] + lines.last()
    }
}

/// The hoisted preamble of a diagram source: its preamble-class lines,
/// joined, with a final newline when non-empty.
pub open spec fn spec_extracted_preamble(diagram: Seq<char>) -> Seq<char> {
    let p = spec_join_nl(spec_lines_of_class(spec_lines(diagram), LineClass::Preamble));
    if p.len() > 0 && p.last() != '\n' {
        p.push('\n')
    } else {
        p
    }
}

/// The body of a diagram source: its body-class lines joined, wrapped in the
/// diagram environment when no explicit begin/end of it is present.
pub open spec fn spec_diagram_body(diagram: Seq<char>) -> Seq<char> {
    let b = spec_join_nl(spec_lines_of_class(spec_lines(diagram), LineClass::Body));
    let has_env = spec_contains_seq(b, "\\begin{tikzpicture}"@) || spec_contains_seq(
        b,
        "\\end{tikzpicture}"@,
    );
    if !has_env && spec_trim(b).len() > 0 {
        "\\begin{tikzpicture}\n"@ + b + "\n\\end{tikzpicture}\n"@
    } else {
        b
    }
}

fn join_lines(lines: &Vec<String>) -> (r: String)
    ensures
        r@ == spec_join_nl(string_views(lines@)),
{
    let n: usize = lines.len();
    let mut r = String::new();
    let mut i: usize = 0;
    while i < n
        invariant
            0 <= i <= n,
            n == lines@.len(),
            r@ == spec_join_nl(string_views(lines@).take(i as int)),
        decreases n - i,
    {
        if i > 0 {
            push_char(&mut r, '\n');
        }
        r.append(lines[i].as_str());
        proof {
            let vs = string_views(lines@);
            assert(vs.take(i + 1).drop_last() =~= vs.take(i as int));
            assert(vs.take(i + 1).last() == vs[i as int]);
            assert(vs[i as int] == lines@[i as int]@);
            if i == 0 {
                assert(vs.take(1).len() == 1);
            }
        }
        i = i + 1;
    }
    proof {
        assert(string_views(lines@).take(n as int) =~= string_views(lines@));
    }
    r
}

/// Splits a diagram source into the preamble lines to hoist and the drawing
/// body, dropping stray document delimiters and wrapping a bare body in the
/// diagram environment.
pub fn split_tikz_preamble_from_body(diagram: &str) -> (r: (String, String))
    ensures
        r.0@ == spec_extracted_preamble(diagram@),
        r.1@ == spec_diagram_body(diagram@),
{
    let lines = split_into_lines(diagram);
    let mut preamble_lines: Vec<String> = Vec::new();
    let mut body_lines: Vec<String> = Vec::new();
    let n: usize = lines.len();
    let mut i: usize = 0;
    proof {
        assert(string_views(lines@).take(0) =~= Seq::<Seq<char>>::empty());
        assert(Seq::<Seq<char>>::empty().filter(
            |l: Seq<char>| spec_line_class(l) == LineClass::Preamble,
        ) =~= Seq::<Seq<char>>::empty());
        assert(Seq::<Seq<char>>::empty().filter(
            |l: Seq<char>| spec_line_class(l) == LineClass::Body,
        ) =~= Seq::<Seq<char>>::empty());
        assert(string_views(preamble_lines@) =~= Seq::<Seq<char>>::empty());
        assert(string_views(body_lines@) =~= Seq::<Seq<char>>::empty());
    }
    while i < n
        invariant
            0 <= i <= n,
            n == lines@.len(),
            string_views(preamble_lines@) == spec_lines_of_class(
                string_views(lines@).take(i as int),
                LineClass::Preamble,
            ),
            string_views(body_lines@) == spec_lines_of_class(
                string_views(lines@).take(i as int),
                LineClass::Body,
            ),
        decreases n - i,
    {
        let ghost vs = string_views(lines@);
        let class = classify_line(lines[i].as_str());
        proof {
            assert(vs.take(i + 1).drop_last() =~= vs.take(i as int));
            assert(vs.take(i + 1).last() == vs[i as int]);
            reveal(Seq::filter);
        }
        match class {
            LineClass::Preamble => {
                let ghost pv = string_views(preamble_lines@);
                preamble_lines.push(lines[i].clone());
                proof {
                    assert(string_views(preamble_lines@) =~= pv.push(vs[i as int]));
                    assert(vs.take(i + 1).filter(
                        |l: Seq<char>| spec_line_class(l) == LineClass::Preamble,
                    ) =~= pv.push(vs[i as int]));
                    assert(vs.take(i + 1).filter(
                        |l: Seq<char>| spec_line_class(l) == LineClass::Body,
                    ) =~= string_views(body_lines@));
                }
            },
            LineClass::Body => {
                let ghost bv = string_views(body_lines@);
                body_lines.push(lines[i].clone());
                proof {
                    assert(string_views(body_lines@) =~= bv.push(vs[i as int]));
                    assert(vs.take(i + 1).filter(
                        |l: Seq<char>| spec_line_class(l) == LineClass::Body,
                    ) =~= bv.push(vs[i as int]));
                    assert(vs.take(i + 1).filter(
                        |l: Seq<char>| spec_line_class(l) == LineClass::Preamble,
                    ) =~= string_views(preamble_lines@));
                }
            },
            LineClass::Dropped => {
                proof {
                    assert(vs.take(i + 1).filter(
                        |l: Seq<char>| spec_line_class(l) == LineClass::Preamble,
                    ) =~= string_views(preamble_lines@));
                    assert(vs.take(i + 1).filter(
                        |l: Seq<char>| spec_line_class(l) == LineClass::Body,
                    ) =~= string_views(body_lines@));
                }
            },
        }
        i = i + 1;
    }
    proof {
        assert(string_views(lines@).take(n as int) =~= string_views(lines@));
    }
    let mut preamble = join_lines(&preamble_lines);
    let pn: usize = preamble.as_str().unicode_len();
    if pn > 0 && preamble.as_str().get_char(pn - 1) != '\n' {
        push_char(&mut preamble, '\n');
    }
    let mut body = join_lines(&body_lines);
    let has_env = str_contains(body.as_str(), "\\begin{tikzpicture}") || str_contains(
        body.as_str(),
        "\\end{tikzpicture}",
    );
    if !has_env {
        let bt = str_trim(body.as_str());
        if bt.as_str().unicode_len() > 0 {
            let mut wrapped = String::from_str("\\begin{tikzpicture}\n");
            wrapped.append(body.as_str());
            wrapped.append("\n\\end{tikzpicture}\n");
            proof {
                assert(wrapped@ =~= spec_diagram_body(diagram@));
            }
            body = wrapped;
        }
    }
    (preamble, body)
}

/// The compilable document around one diagram block: a minimal fixed
/// preamble, the user's preamble option, the hoisted preamble lines, then
/// the body between document delimiters; each part newline-terminated.
pub open spec fn spec_diagram_document(diagram: Seq<char>, user_preamble: Option<Seq<char>>) -> Seq<
    char,
> {
    let up: Seq<char> = match user_preamble {
        Some(p) => if p.len() > 0 && p.last() != '\n' {
            p.push('\n')
        } else {
            p
        },
        None => Seq::<char>::empty(),
    };
    let body = spec_diagram_body(diagram);
    "\\documentclass[border=2pt]{standalone}\n\\usepackage{tikz}\n"@ + up
        + spec_extracted_preamble(diagram) + "\\begin{document}\n"@ + (if body.len() > 0
        && body.last() != '\n' {
        body.push('\n')
    } else {
        body
    }) + "\\end{document}\n"@
}

/// Builds the full LaTeX document for one diagram block.
pub fn build_diagram_document(diagram: &str, user_preamble: Option<&str>) -> (r: String)
    ensures
        r@ == spec_diagram_document(diagram@, match user_preamble {
            Some(p) => Some(p@),
            None => None,
        }),
{
    let mut doc = String::from_str("\\documentclass[border=2pt]{standalone}\n\\usepackage{tikz}\n");
    match user_preamble {
        Some(p) => {
            doc.append(p);
            let pl: usize = p.unicode_len();
            if pl > 0 && p.get_char(pl - 1) != '\n' {
                push_char(&mut doc, '\n');
            }
        },
        None => {},
    }
    let parts = split_tikz_preamble_from_body(diagram);
    doc.append(parts.0.as_str());
    doc.append("\\begin{document}\n");
    doc.append(parts.1.as_str());
    let bl: usize = parts.1.as_str().unicode_len();
    if bl > 0 && parts.1.as_str().get_char(bl - 1) != '\n' {
        push_char(&mut doc, '\n');
    }
    doc.append("\\end{document}\n");
    proof {
        assert(doc@ =~= spec_diagram_document(diagram@, match user_preamble {
            Some(p) => Some(p@),
            None => None,
        }));
    }
    doc
}

/// The escaped form of one character of an error message placed into LaTeX
/// text.
pub open spec fn spec_latex_escape_char(c: char) -> Seq<char> {
    if c == '\\' {
        "\\textbackslash{}"@
    } else if c == '{' {
        "\\{"@
    } else if c == '}' {
        "\\}"@
    } else if c == '%' {
        "\\%"@
    } else if c == '$' {
        "\\$"@
    } else if c == '#' {
        "\\#"@
    } else if c == '_' {
        "\\_"@
    } else if c == '&' {
        "\\&"@
    } else if c == '^' {
        "\\^{}"@
    } else if c == '~' {
        "\\~{}"@
    } else {
        seq![c]
    }
}

/// The LaTeX-escaped form of a text.
pub open spec fn spec_escape_latex(s: Seq<char>) -> Seq<char>
    decreases s.len(),
{
    if s.len() == 0 {
        Seq::<char>::empty()
    } else {
        spec_escape_latex(s.drop_last()) + spec_latex_escape_char(s.last())
    }
}

/// Escapes an error message so it can stand inside LaTeX text.
pub fn escape_latex_text(input: &str) -> (r: String)
    ensures
        r@ == spec_escape_latex(input@),
{
    let n: usize = input.unicode_len();
    let mut r = String::new();
    let mut i: usize = 0;
    while i < n
        invariant
            0 <= i <= n,
            n == input@.len(),
            r@ == spec_escape_latex(input@.take(i as int)),
        decreases n - i,
    {
        let c = input.get_char(i);
        if c == '\\' {
            r.append("\\textbackslash{}");
        } else if c == '{' {
            r.append("\\{");
        } else if c == '}' {
            r.append("\\}");
        } else if c == '%' {
            r.append("\\%");
        } else if c == '$' {
            r.append("\\$");
        } else if c == '#' {
            r.append("\\#");
        } else if c == '_' {
            r.append("\\_");
        } else if c == '&' {
            r.append("\\&");
        } else if c == '^' {
            r.append("\\^{}");
        } else if c == '~' {
            r.append("\\~{}");
        } else {
            push_char(&mut r, c);
        }
        proof {
            assert(input@.take(i + 1).drop_last() =~= input@.take(i as int));
            assert(input@.take(i + 1).last() == input@[i as int]);
            assert(r@ =~= spec_escape_latex(input@.take(i as int)) + spec_latex_escape_char(
                input@[i as int],
            ));
        }
        i = i + 1;
    }
    proof {
        assert(input@.take(n as int) =~= input@);
    }
    r
}

/// The newline-flattened message: trimmed, newlines replaced by spaces.
pub open spec fn spec_flatten_message(m: Seq<char>) -> Seq<char> {
    spec_trim(m).map_values(
        |c: char|
            if c == '\n' {
                ' '
            } else {
                c
            },
    )
}

/// The message preview placed into the fallback artifact: flattened and
/// capped at 240 characters with a truncation marker.
pub open spec fn spec_truncate_message(m: Seq<char>) -> Seq<char> {
    let t = spec_flatten_message(m);
    if t.len() > 240 {
        t.take(240).push('…')
    } else {
        t
    }
}

/// Flattens and caps a failure message for the fallback artifact.
pub fn truncate_message(message: &str) -> (r: String)
    ensures
        r@ == spec_truncate_message(message@),
{
    let t = str_trim(message);
    let tn: usize = t.as_str().unicode_len();
    let mut flat = String::new();
    let mut i: usize = 0;
    while i < tn
        invariant
            0 <= i <= tn,
            tn == t@.len(),
            flat@ == t@.take(i as int).map_values(
                |c: char|
                    if c == '\n' {
                        ' '
                    } else {
                        c
                    },
            ),
        decreases tn - i,
    {
        let c = t.as_str().get_char(i);
        if c == '\n' {
            push_char(&mut flat, ' ');
        } else {
            push_char(&mut flat, c);
        }
        proof {
            assert(t@.take(i + 1).map_values(
                |c: char|
                    if c == '\n' {
                        ' '
                    } else {
                        c
                    },
            ) =~= t@.take(i as int).map_values(
                |c: char|
                    if c == '\n' {
                        ' '
                    } else {
                        c
                    },
            ).push(
                if t@[i as int] == '\n' {
                    ' '
                } else {
                    t@[i as int]
                },
            ));
        }
        i = i + 1;
    }
    proof {
        assert(t@.take(tn as int) =~= t@);
    }
    let fn_len: usize = flat.as_str().unicode_len();
    if fn_len > 240 {
        let capped = flat.as_str().substring_char(0, 240);
        let mut r = String::from_str(capped);
        push_char(&mut r, '…');
        proof {
            assert(flat@.subrange(0, 240) =~= flat@.take(240));
        }
        r
    } else {
        flat
    }
}

/// The fallback document compiled when a diagram fails: a red monospace
/// rendering of the flattened, capped failure message.
pub open spec fn spec_fallback_document(message: Seq<char>) -> Seq<char> {
    "\\documentclass[border=6pt]{standalone}\n\\usepackage{xcolor}\n\\begin{document}\n\\color{red}\\ttfamily TikZ render failed:\\par "@
        + spec_escape_latex(spec_truncate_message(message)) + "\n\\end{document}\n"@
}

/// Builds the fallback document for one failed diagram block.  The result
/// is never empty.
pub fn build_fallback_document(message: &str) -> (r: String)
    ensures
        r@ == spec_fallback_document(message@),
        r@.len() > 0,
{
    let mut doc = String::from_str(
        "\\documentclass[border=6pt]{standalone}\n\\usepackage{xcolor}\n\\begin{document}\n\\color{red}\\ttfamily TikZ render failed:\\par ",
    );
    let preview = truncate_message(message);
    let escaped = escape_latex_text(preview.as_str());
    doc.append(escaped.as_str());
    doc.append("\n\\end{document}\n");
    proof {
        assert(doc@ =~= spec_fallback_document(message@));
        reveal_strlit(
            "\\documentclass[border=6pt]{standalone}\n\\usepackage{xcolor}\n\\begin{document}\n\\color{red}\\ttfamily TikZ render failed:\\par ",
        );
    }
    doc
}

} // verus!
