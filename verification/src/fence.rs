//! Fence info-string parsing: tokenizes `marker key=value ...` respecting
//! quotes and backslash escapes, and recognizes the reserved diagram marker
//! with its `scale`, `preamble` and `format` options.

use vstd::prelude::*;
use vstd::string::StrSliceExecFns;
use vstd::string::StringExecFns;
use crate::strutil::{
    is_space, is_space_char, push_char, spec_trim, str_trim,
};

verus! {

/// Options parsed from a diagram fence info string.  Immutable once parsed.
#[derive(Debug, Clone)]
pub struct TikzFenceOptions {
    pub scale: Option<String>,
    pub preamble: Option<String>,
    pub format: Option<String>,
}

/// The mathematical form of the parsed options.
pub struct OptionsView {
    pub scale: Option<Seq<char>>,
    pub preamble: Option<Seq<char>>,
    pub format: Option<Seq<char>>,
}

/// The view of an optional string.
pub open spec fn opt_view(o: Option<String>) -> Option<Seq<char>> {
    match o {
        Some(s) => Some(s@),
        None => None,
    }
}

impl View for TikzFenceOptions {
    type V = OptionsView;

    open spec fn view(&self) -> OptionsView {
        OptionsView {
            scale: opt_view(self.scale),
            preamble: opt_view(self.preamble),
            format: opt_view(self.format),
        }
    }
}

/// The views of a sequence of strings.
pub open spec fn string_views(ts: Seq<String>) -> Seq<Seq<char>> {
    ts.map_values(|t: String| t@)
}

/// One step of the fence tokenizer, written over the remaining input.
/// Quotes open and close runs in which separators are ordinary characters; a
/// backslash carries the following character through verbatim; whitespace,
/// commas and semicolons outside quotes end the current token.
pub open spec fn spec_tokenize_run(s: Seq<char>, cur: Seq<char>, in_q: bool, qc: char) -> Seq<
    Seq<char>,
>
    decreases s.len(),
{
    if s.len() == 0 {
        if cur.len() == 0 {
            Seq::<Seq<char>>::empty()
        } else {
            seq![spec_trim(cur)]
        }
    } else {
        let c = s[0];
        if c == '\'' || c == '"' {
            if in_q {
                if c == qc {
                    spec_tokenize_run(s.skip(1), cur.push(c), false, '\0')
                } else {
                    spec_tokenize_run(s.skip(1), cur.push(c), true, qc)
                }
            } else {
                spec_tokenize_run(s.skip(1), cur.push(c), true, c)
            }
        } else if c == '\\' {
            if s.len() >= 2 {
                spec_tokenize_run(s.skip(2), cur.push(c).push(s[1]), in_q, qc)
            } else {
                spec_tokenize_run(s.skip(1), cur.push(c), in_q, qc)
            }
        } else if is_space_char(c) && !in_q {
            if cur.len() == 0 {
                spec_tokenize_run(s.skip(1), cur, in_q, qc)
            } else {
                seq![spec_trim(cur)] + spec_tokenize_run(s.skip(1), Seq::empty(), in_q, qc)
            }
        } else if (c == ',' || c == ';') && !in_q {
            if cur.len() == 0 {
                spec_tokenize_run(s.skip(1), cur, in_q, qc)
            } else {
                seq![spec_trim(cur)] + spec_tokenize_run(s.skip(1), Seq::empty(), in_q, qc)
            }
        } else {
            spec_tokenize_run(s.skip(1), cur.push(c), in_q, qc)
        }
    }
}

/// The tokens of a fence info string.
pub open spec fn spec_tokenize(s: Seq<char>) -> Seq<Seq<char>> {
    spec_tokenize_run(s, Seq::empty(), false, '\0')
}

/// Splits a fence info string into whitespace/comma/semicolon-separated
/// tokens, keeping quoted runs together and backslash-escaped characters
/// verbatim; each token is trimmed.
pub fn tokenize_fence_info(input: &str) -> (tokens: Vec<String>)
    ensures
        string_views(tokens@) == spec_tokenize(input@),
{
    let n: usize = input.unicode_len();
    let mut tokens: Vec<String> = Vec::new();
    let mut current: String = String::new();
    let mut in_quotes: bool = false;
    let mut quote_char: char = '\0';
    let mut i: usize = 0;
    proof {
        assert(input@.skip(0) =~= input@);
        assert(string_views(tokens@) =~= Seq::<Seq<char>>::empty());
    }
    while i < n
        invariant
            0 <= i <= n,
            n == input@.len(),
            string_views(tokens@) + spec_tokenize_run(
                input@.skip(i as int),
                current@,
                in_quotes,
                quote_char,
            ) == spec_tokenize(input@),
            !in_quotes ==> quote_char == '\0',
        decreases n - i,
    {
        let ghost rem = input@.skip(i as int);
        let c = input.get_char(i);
        proof {
            assert(rem[0] == c);
            assert(rem.skip(1) =~= input@.skip(i + 1));
        }
        if c == '\'' || c == '"' {
            if in_quotes {
                push_char(&mut current, c);
                if c == quote_char {
                    in_quotes = false;
                    quote_char = '\0';
                }
            } else {
                in_quotes = true;
                quote_char = c;
                push_char(&mut current, c);
            }
            i = i + 1;
        } else if c == '\\' {
            push_char(&mut current, c);
            if i + 1 < n {
                let c2 = input.get_char(i + 1);
                proof {
                    assert(rem[1] == c2);
                    assert(rem.skip(2) =~= input@.skip(i + 2));
                }
                push_char(&mut current, c2);
                i = i + 2;
            } else {
                i = i + 1;
            }
        } else if is_space(c) && !in_quotes {
            if current.unicode_len() > 0 {
                let ghost tv = string_views(tokens@);
                tokens.push(str_trim(current.as_str()));
                proof {
                    assert(string_views(tokens@) =~= tv.push(spec_trim(current@)));
                    assert(tv.push(spec_trim(current@)) + spec_tokenize_run(
                        rem.skip(1),
                        Seq::empty(),
                        in_quotes,
                        quote_char,
                    ) =~= tv + (seq![spec_trim(current@)] + spec_tokenize_run(
                        rem.skip(1),
                        Seq::empty(),
                        in_quotes,
                        quote_char,
                    )));
                }
                current = String::new();
            }
            i = i + 1;
        } else if (c == ',' || c == ';') && !in_quotes {
            if current.unicode_len() > 0 {
                let ghost tv = string_views(tokens@);
                tokens.push(str_trim(current.as_str()));
                proof {
                    assert(string_views(tokens@) =~= tv.push(spec_trim(current@)));
                    assert(tv.push(spec_trim(current@)) + spec_tokenize_run(
                        rem.skip(1),
                        Seq::empty(),
                        in_quotes,
                        quote_char,
                    ) =~= tv + (seq![spec_trim(current@)] + spec_tokenize_run(
                        rem.skip(1),
                        Seq::empty(),
                        in_quotes,
                        quote_char,
                    )));
                }
                current = String::new();
            }
            i = i + 1;
        } else {
            push_char(&mut current, c);
            i = i + 1;
        }
    }
    proof {
        assert(input@.skip(n as int) =~= Seq::<char>::empty());
    }
    if current.unicode_len() > 0 {
        let ghost tv = string_views(tokens@);
        tokens.push(str_trim(current.as_str()));
        proof {
            assert(string_views(tokens@) =~= tv.push(spec_trim(current@)));
            assert(tv.push(spec_trim(current@)) =~= tv + seq![spec_trim(current@)]);
        }
    } else {
        proof {
            assert(string_views(tokens@) + Seq::<Seq<char>>::empty() =~= string_views(tokens@));
        }
    }
    tokens
}

/// One step of unescaping a quoted value: `\n \r \t \\ \" \'` become their
/// plain characters, an unknown escape keeps the backslash, and a trailing
/// backslash stays.
pub open spec fn spec_unescape(s: Seq<char>) -> Seq<char>
    decreases s.len(),
{
    if s.len() == 0 {
        s
    } else if s[0] == '\\' {
        if s.len() == 1 {
            seq!['\\']
        } else {
            let c = s[1];
            let rep: Seq<char> = if c == 'n' {
                seq!['\n']
            } else if c == 'r' {
                seq!['\r']
            } else if c == 't' {
                seq!['\t']
            } else if c == '\\' {
                seq!['\\']
            } else if c == '"' {
                seq!['"']
            } else if c == '\'' {
                seq!['\'']
            } else {
                seq!['\\', c]
            };
            rep + spec_unescape(s.skip(2))
        }
    } else {
        seq![s[0]] + spec_unescape(s.skip(1))
    }
}

/// Undoes the escapes of a quoted option value.
pub fn unescape_quoted(input: &str) -> (r: String)
    ensures
        r@ == spec_unescape(input@),
{
    let n: usize = input.unicode_len();
    let mut r = String::new();
    let mut i: usize = 0;
    proof {
        assert(input@.skip(0) =~= input@);
    }
    while i < n
        invariant
            0 <= i <= n,
            n == input@.len(),
            r@ + spec_unescape(input@.skip(i as int)) == spec_unescape(input@),
        decreases n - i,
    {
        let ghost rem = input@.skip(i as int);
        let c = input.get_char(i);
        proof {
            assert(rem[0] == c);
            assert(rem.skip(1) =~= input@.skip(i + 1));
        }
        if c == '\\' {
            if i + 1 < n {
                let c2 = input.get_char(i + 1);
                proof {
                    assert(rem[1] == c2);
                    assert(rem.skip(2) =~= input@.skip(i + 2));
                }
                if c2 == 'n' {
                    push_char(&mut r, '\n');
                } else if c2 == 'r' {
                    push_char(&mut r, '\r');
                } else if c2 == 't' {
                    push_char(&mut r, '\t');
                } else if c2 == '\\' {
                    push_char(&mut r, '\\');
                } else if c2 == '"' {
                    push_char(&mut r, '"');
                } else if c2 == '\'' {
                    push_char(&mut r, '\'');
                } else {
                    push_char(&mut r, '\\');
                    push_char(&mut r, c2);
                }
                i = i + 2;
            } else {
                push_char(&mut r, '\\');
                i = i + 1;
            }
        } else {
            push_char(&mut r, c);
            i = i + 1;
        }
    }
    proof {
        assert(input@.skip(n as int) =~= Seq::<char>::empty());
        assert(r@ + Seq::<char>::empty() =~= r@);
    }
    r
}

/// True for the separator punctuation stripped around option values.
pub open spec fn is_sep_char(c: char) -> bool {
    c == ',' || c == ';'
}

/// True for the bracket and separator punctuation stripped around keys and
/// the marker word.
pub open spec fn is_key_punct(c: char) -> bool {
    c == ',' || c == '{' || c == '}' || c == '[' || c == ']' || c == '(' || c == ')' || c == ';'
}

/// The sequence with characters satisfying the edge predicate removed from
/// the front.
pub open spec fn spec_strip_front(s: Seq<char>, sep_only: bool) -> Seq<char>
    decreases s.len(),
{
    if s.len() == 0 {
        s
    } else if (if sep_only {
        is_sep_char(s[0])
    } else {
        is_key_punct(s[0])
    }) {
        spec_strip_front(s.skip(1), sep_only)
    } else {
        s
    }
}

/// The sequence with characters satisfying the edge predicate removed from
/// the back.
pub open spec fn spec_strip_back(s: Seq<char>, sep_only: bool) -> Seq<char>
    decreases s.len(),
{
    if s.len() == 0 {
        s
    } else if (if sep_only {
        is_sep_char(s[s.len() - 1])
    } else {
        is_key_punct(s[s.len() - 1])
    }) {
        spec_strip_back(s.drop_last(), sep_only)
    } else {
        s
    }
}

/// The sequence with matching edge punctuation removed from both ends.
pub open spec fn spec_strip_matches(s: Seq<char>, sep_only: bool) -> Seq<char> {
    spec_strip_back(spec_strip_front(s, sep_only), sep_only)
}

fn is_strip_char(c: char, sep_only: bool) -> (b: bool)
    ensures
        b == (if sep_only {
            is_sep_char(c)
        } else {
            is_key_punct(c)
        }),
{
    if sep_only {
        c == ',' || c == ';'
    } else {
        c == ',' || c == '{' || c == '}' || c == '[' || c == ']' || c == '(' || c == ')' || c == ';'
    }
}

/// A fresh string with the given punctuation class stripped from both ends.
pub fn strip_matches(s: &str, sep_only: bool) -> (r: String)
    ensures
        r@ == spec_strip_matches(s@, sep_only),
{
    let n: usize = s.unicode_len();
    let mut i: usize = 0;
    proof {
        assert(s@.skip(0) =~= s@);
    }
    while i < n && is_strip_char(s.get_char(i), sep_only)
        invariant
            0 <= i <= n,
            n == s@.len(),
            spec_strip_front(s@, sep_only) == spec_strip_front(s@.skip(i as int), sep_only),
        decreases n - i,
    {
        proof {
            assert(s@.skip(i as int).skip(1) =~= s@.skip(i + 1));
        }
        i = i + 1;
    }
    proof {
        if i < n {
            assert(spec_strip_front(s@.skip(i as int), sep_only) == s@.skip(i as int));
        } else {
            assert(s@.skip(i as int) =~= Seq::<char>::empty());
        }
    }
    let ghost front = s@.skip(i as int);
    let mut j: usize = n;
    while j > i && is_strip_char(s.get_char(j - 1), sep_only)
        invariant
            i <= j <= n,
            n == s@.len(),
            front == s@.skip(i as int),
            spec_strip_back(front, sep_only) == spec_strip_back(
                s@.subrange(i as int, j as int),
                sep_only,
            ),
        decreases j,
    {
        proof {
            assert(s@.subrange(i as int, j as int).drop_last() =~= s@.subrange(i as int, j - 1));
            assert(s@.subrange(i as int, j as int).last() == s@[j - 1]);
        }
        j = j - 1;
    }
    proof {
        let sub = s@.subrange(i as int, j as int);
        if j > i {
            assert(sub.last() == s@[j - 1]);
            assert(spec_strip_back(sub, sep_only) == sub);
        } else {
            assert(sub =~= Seq::<char>::empty());
        }
    }
    let mut r = String::new();
    let mut k: usize = i;
    while k < j
        invariant
            i <= k <= j <= n,
            n == s@.len(),
            r@ == s@.subrange(i as int, k as int),
        decreases j - k,
    {
        push_char(&mut r, s.get_char(k));
        proof {
            assert(s@.subrange(i as int, k as int).push(s@[k as int]) =~= s@.subrange(
                i as int,
                k + 1,
            ));
        }
        k = k + 1;
    }
    r
}

/// The ASCII-lowercased form of one character.
pub open spec fn spec_lower_char(c: char) -> char {
    if 'A' <= c && c <= 'Z' {
        (((c as u32 + 32) as u8) as char)
    } else {
        c
    }
}

/// The ASCII-lowercased form of a sequence.
pub open spec fn spec_lower(s: Seq<char>) -> Seq<char> {
    s.map_values(|c: char| spec_lower_char(c))
}

/// A fresh ASCII-lowercased copy of `s`.
pub fn to_ascii_lower(s: &str) -> (r: String)
    ensures
        r@ == spec_lower(s@),
{
    let n: usize = s.unicode_len();
    let mut r = String::new();
    let mut i: usize = 0;
    while i < n
        invariant
            0 <= i <= n,
            n == s@.len(),
            r@ == spec_lower(s@.take(i as int)),
        decreases n - i,
    {
        let c = s.get_char(i);
        let lc: char = if 'A' <= c && c <= 'Z' {
            (((c as u32 + 32) as u8) as char)
        } else {
            c
        };
        push_char(&mut r, lc);
        proof {
            assert(spec_lower(s@.take(i + 1)) =~= spec_lower(s@.take(i as int)).push(
                spec_lower_char(s@[i as int]),
            ));
        }
        i = i + 1;
    }
    proof {
        assert(s@.take(n as int) =~= s@);
    }
    r
}

/// The normalized value of one `key=value` right-hand side: trimmed,
/// stripped of trailing separators; a value wrapped in matching quotes is
/// unescaped, anything else is used verbatim.
pub open spec fn spec_normalize_value(raw: Seq<char>) -> Seq<char> {
    let t = spec_strip_matches(spec_trim(raw), true);
    if t.len() >= 2 && t[0] == '"' && t[t.len() - 1] == '"' {
        spec_unescape(t.subrange(1, t.len() - 1))
    } else if t.len() >= 2 && t[0] == '\'' && t[t.len() - 1] == '\'' {
        spec_unescape(t.subrange(1, t.len() - 1))
    } else {
        t
    }
}

/// Normalizes an option value.  Every value normalizes to something, so the
/// result is always `Some`.
pub fn normalize_option_value(raw: &str) -> (r: Option<String>)
    ensures
        r matches Some(v) && v@ == spec_normalize_value(raw@),
{
    let trimmed0 = str_trim(raw);
    let trimmed = strip_matches(trimmed0.as_str(), true);
    let n: usize = trimmed.as_str().unicode_len();
    if n >= 2 {
        let first = trimmed.as_str().get_char(0);
        let last = trimmed.as_str().get_char(n - 1);
        if (first == '"' && last == '"') || (first == '\'' && last == '\'') {
            let inner = trimmed.as_str().substring_char(1, n - 1);
            return Some(unescape_quoted(inner));
        }
    }
    Some(trimmed)
}

/// The reserved fence marker for diagram blocks.
pub open spec fn spec_marker() -> Seq<char> {
    "tikz"@
}

/// The normalized marker word of a token: edge punctuation stripped, then
/// ASCII-lowercased.
pub open spec fn spec_normalize_word(t: Seq<char>) -> Seq<char> {
    spec_lower(spec_strip_matches(t, false))
}

/// The options accumulated from the tokens after the marker.  Only `scale`,
/// `preamble` and `format` keys are recognized; later occurrences replace
/// earlier ones; tokens without `=` and unknown keys are dropped.
pub open spec fn spec_apply_options(tokens: Seq<Seq<char>>, acc: OptionsView) -> OptionsView
    decreases tokens.len(),
{
    if tokens.len() == 0 {
        acc
    } else {
        let cleaned = spec_trim(tokens[0]);
        let acc2 = if cleaned.len() == 0 || !cleaned.contains('=') {
            acc
        } else {
            let e = spec_eq_pos(cleaned);
            let key = spec_normalize_word(spec_trim(cleaned.take(e)));
            let value = spec_normalize_value(cleaned.skip(e + 1));
            if key == "scale"@ {
                OptionsView { scale: Some(value), ..acc }
            } else if key == "preamble"@ {
                OptionsView { preamble: Some(value), ..acc }
            } else if key == "format"@ {
                OptionsView { format: Some(value), ..acc }
            } else {
                acc
            }
        };
        spec_apply_options(tokens.skip(1), acc2)
    }
}

/// The index of the first `=` in `s`; meaningful only when one exists.
pub open spec fn spec_eq_pos(s: Seq<char>) -> int
    decreases s.len(),
{
    if s.len() == 0 {
        0
    } else if s[0] == '=' {
        0
    } else {
        1 + spec_eq_pos(s.skip(1))
    }
}

/// What a fence info string parses to: `None` when the first token, with
/// punctuation stripped and lowercased, is not the reserved marker (the
/// fence is ordinary code), else the recognized options.
pub open spec fn spec_parse_fence(info: Seq<char>) -> Option<OptionsView> {
    let raw = spec_trim(info);
    if raw.len() == 0 {
        None
    } else {
        let tokens = spec_tokenize(raw);
        if tokens.len() == 0 {
            None
        } else if spec_normalize_word(tokens[0]) != spec_marker() {
            None
        } else {
            Some(
                spec_apply_options(
                    tokens.skip(1),
                    OptionsView { scale: None, preamble: None, format: None },
                ),
            )
        }
    }
}

fn find_eq(s: &str) -> (r: Option<usize>)
    ensures
        match r {
            Some(p) => p == spec_eq_pos(s@) && p < s@.len() && s@[p as int] == '=' && s@.contains(
                '=',
            ),
            None => !s@.contains('='),
        },
{
    let n: usize = s.unicode_len();
    let mut i: usize = 0;
    proof {
        assert(s@.skip(0) =~= s@);
    }
    while i < n
        invariant
            0 <= i <= n,
            n == s@.len(),
            forall|k: int| 0 <= k < i ==> s@[k] != '=',
            spec_eq_pos(s@) == i + spec_eq_pos(s@.skip(i as int)),
        decreases n - i,
    {
        if s.get_char(i) == '=' {
            proof {
                assert(s@.skip(i as int)[0] == s@[i as int]);
            }
            return Some(i);
        }
        proof {
            assert(s@.skip(i as int)[0] == s@[i as int]);
            assert(s@.skip(i as int).skip(1) =~= s@.skip(i + 1));
        }
        i = i + 1;
    }
    proof {
        assert(forall|k: int| 0 <= k < s@.len() ==> s@[k] != '=');
    }
    None
}

pub fn str_eq(a: &str, b: &str) -> (r: bool)
    ensures
        r == (a@ == b@),
{
    let na: usize = a.unicode_len();
    let nb: usize = b.unicode_len();
    if na != nb {
        return false;
    }
    let mut i: usize = 0;
    while i < na
        invariant
            0 <= i <= na,
            na == a@.len(),
            na == b@.len(),
            forall|k: int| 0 <= k < i ==> a@[k] == b@[k],
        decreases na - i,
    {
        if a.get_char(i) != b.get_char(i) {
            return false;
        }
        i = i + 1;
    }
    proof {
        assert(a@ =~= b@);
    }
    true
}

/// Parses a fence info string.  Returns `None` when the fence is ordinary
/// code (empty info or a different language), `Some` with the recognized
/// options when the marker matches.
pub fn parse_tikz_fence(info: &str) -> (r: Option<TikzFenceOptions>)
    ensures
        match r {
            Some(o) => spec_parse_fence(info@) == Some(o@),
            None => spec_parse_fence(info@) == None::<OptionsView>,
        },
{
    let raw = str_trim(info);
    if raw.as_str().unicode_len() == 0 {
        return None;
    }
    let tokens = tokenize_fence_info(raw.as_str());
    let ghost tvs = string_views(tokens@);
    if tokens.len() == 0 {
        proof {
            assert(tvs.len() == 0);
        }
        return None;
    }
    proof {
        assert(tvs[0] == tokens@[0]@);
    }
    let stripped = strip_matches(tokens[0].as_str(), false);
    let lang = to_ascii_lower(stripped.as_str());
    if !str_eq(lang.as_str(), "tikz") {
        return None;
    }
    let mut options = TikzFenceOptions { scale: None, preamble: None, format: None };
    let mut t: usize = 1;
    let ntok: usize = tokens.len();
    proof {
        assert(tvs.skip(1) =~= tvs.skip(1));
    }
    while t < ntok
        invariant
            1 <= t <= ntok,
            ntok == tokens@.len(),
            tvs == string_views(tokens@),
            spec_apply_options(tvs.skip(1), OptionsView { scale: None, preamble: None, format: None })
                == spec_apply_options(tvs.skip(t as int), options@),
        decreases ntok - t,
    {
        let ghost rem = tvs.skip(t as int);
        proof {
            assert(rem[0] == tokens@[t as int]@);
            assert(rem.skip(1) =~= tvs.skip(t + 1));
        }
        let cleaned = str_trim(tokens[t].as_str());
        if cleaned.as_str().unicode_len() > 0 {
            match find_eq(cleaned.as_str()) {
                Some(p) => {
                    let cn: usize = cleaned.as_str().unicode_len();
                    let key_part = cleaned.as_str().substring_char(0, p);
                    let key_trimmed = str_trim(key_part);
                    let key_stripped = strip_matches(key_trimmed.as_str(), false);
                    let key = to_ascii_lower(key_stripped.as_str());
                    let value_part = cleaned.as_str().substring_char(p + 1, cn);
                    proof {
                        assert(cleaned@.take(p as int) == cleaned@.subrange(0, p as int));
                        assert(cleaned@.skip(p + 1) == cleaned@.subrange(p + 1, cn as int));
                    }
                    let value = normalize_option_value(value_part);
                    if str_eq(key.as_str(), "scale") {
                        options = TikzFenceOptions { scale: value, ..options };
                    } else if str_eq(key.as_str(), "preamble") {
                        options = TikzFenceOptions { preamble: value, ..options };
                    } else if str_eq(key.as_str(), "format") {
                        options = TikzFenceOptions { format: value, ..options };
                    }
                },
                None => {},
            }
        }
        t = t + 1;
    }
    proof {
        assert(tvs.skip(ntok as int) =~= Seq::<Seq<char>>::empty());
    }
    Some(options)
}

} // verus!
