//! Embed-directive assembly: escaping diagram source for the directive,
//! normalizing the `scale` option, and building the comment-wrapped call
//! that replaces a diagram fence.

use vstd::prelude::*;
use vstd::string::StrSliceExecFns;
use vstd::string::StringExecFns;
use crate::fence::{spec_lower, to_ascii_lower, OptionsView, TikzFenceOptions};
use crate::strutil::{push_char, spec_all_digits, spec_trim, str_trim};

verus! {

/// The escaped form of one character inside a directive string: backslash,
/// double quote, newline, carriage return and tab gain a backslash escape;
/// everything else passes through unchanged.
pub open spec fn spec_escape_char(c: char) -> Seq<char> {
    if c == '\\' {
        seq!['\\', '\\']
    } else if c == '"' {
        seq!['\\', '"']
    } else if c == '\n' {
        seq!['\\', 'n']
    } else if c == '\r' {
        seq!['\\', 'r']
    } else if c == '\t' {
        seq!['\\', 't']
    } else {
        seq![c]
    }
}

/// The escaped form of a whole string.
pub open spec fn spec_escape_typst(s: Seq<char>) -> Seq<char>
    decreases s.len(),
{
    if s.len() == 0 {
        Seq::<char>::empty()
    } else {
        spec_escape_typst(s.drop_last()) + spec_escape_char(s.last())
    }
}

/// Escapes a string so it can stand inside a double-quoted directive
/// argument.
pub fn escape_typst_string(input: &str) -> (r: String)
    ensures
        r@ == spec_escape_typst(input@),
{
    let n: usize = input.unicode_len();
    let mut r = String::new();
    let mut i: usize = 0;
    while i < n
        invariant
            0 <= i <= n,
            n == input@.len(),
            r@ == spec_escape_typst(input@.take(i as int)),
        decreases n - i,
    {
        let c = input.get_char(i);
        if c == '\\' {
            push_char(&mut r, '\\');
            push_char(&mut r, '\\');
        } else if c == '"' {
            push_char(&mut r, '\\');
            push_char(&mut r, '"');
        } else if c == '\n' {
            push_char(&mut r, '\\');
            push_char(&mut r, 'n');
        } else if c == '\r' {
            push_char(&mut r, '\\');
            push_char(&mut r, 'r');
        } else if c == '\t' {
            push_char(&mut r, '\\');
            push_char(&mut r, 't');
        } else {
            push_char(&mut r, c);
        }
        proof {
            assert(input@.take(i + 1).drop_last() =~= input@.take(i as int));
            assert(input@.take(i + 1).last() == input@[i as int]);
            assert(r@ =~= spec_escape_typst(input@.take(i as int)) + spec_escape_char(
                input@[i as int],
            ));
        }
        i = i + 1;
    }
    proof {
        assert(input@.take(n as int) =~= input@);
    }
    r
}

/// The index of the first `.` in `s`, or its length when there is none.
pub open spec fn spec_dot_pos(s: Seq<char>) -> int
    decreases s.len(),
{
    if s.len() == 0 {
        0
    } else if s[0] == '.' {
        0
    } else {
        1 + spec_dot_pos(s.skip(1))
    }
}

/// The digits before a possible sign-stripped decimal point.
pub open spec fn spec_sign_stripped(s: Seq<char>) -> Seq<char> {
    if s.len() > 0 && (s[0] == '+' || s[0] == '-') {
        s.skip(1)
    } else {
        s
    }
}

/// True when `s` is a plain decimal literal: an optional sign, then digits
/// with at most one decimal point and at least one digit overall.
pub open spec fn spec_is_simple_decimal(s: Seq<char>) -> bool {
    let b = spec_sign_stripped(s);
    let d = spec_dot_pos(b);
    let ip = b.take(if d <= b.len() {
        d
    } else {
        b.len() as int
    });
    let fp = if d < b.len() {
        b.subrange(d + 1, b.len() as int)
    } else {
        Seq::<char>::empty()
    };
    &&& spec_all_digits(ip)
    &&& spec_all_digits(fp)
    &&& ip.len() + fp.len() >= 1
}

/// The integer digits with redundant leading zeros removed (an empty run
/// becomes the single digit `0`).
pub open spec fn spec_norm_int(s: Seq<char>) -> Seq<char>
    decreases s.len(),
{
    if s.len() == 0 {
        seq!['0']
    } else if s.len() >= 2 && s[0] == '0' {
        spec_norm_int(s.skip(1))
    } else {
        s
    }
}

/// The fraction digits with trailing zeros removed.
pub open spec fn spec_norm_frac(s: Seq<char>) -> Seq<char>
    decreases s.len(),
{
    if s.len() > 0 && s[s.len() - 1] == '0' {
        spec_norm_frac(s.drop_last())
    } else {
        s
    }
}

/// The canonical rendering of a plain decimal literal: sign kept only for
/// `-`, leading zeros of the integer part and trailing zeros of the fraction
/// dropped, and the decimal point dropped when no fraction digits remain.
pub open spec fn spec_norm_decimal(s: Seq<char>) -> Seq<char> {
    let b = spec_sign_stripped(s);
    let d = spec_dot_pos(b);
    let ip = b.take(if d <= b.len() {
        d
    } else {
        b.len() as int
    });
    let fp = if d < b.len() {
        b.subrange(d + 1, b.len() as int)
    } else {
        Seq::<char>::empty()
    };
    let sign: Seq<char> = if s.len() > 0 && s[0] == '-' {
        seq!['-']
    } else {
        Seq::<char>::empty()
    };
    let nf = spec_norm_frac(fp);
    if nf.len() == 0 {
        sign + spec_norm_int(ip)
    } else {
        sign + spec_norm_int(ip) + seq!['.'] + nf
    }
}

/// What the `scale` option renders to in the directive: `none` when empty,
/// the bare words `none`/`auto` case-insensitively, a normalized decimal for
/// plain numeric values, and a quoted escaped string for anything else.
pub open spec fn spec_format_scale(raw: Seq<char>) -> Seq<char> {
    let t = spec_trim(raw);
    if t.len() == 0 {
        "none"@
    } else if spec_lower(t) == "none"@ {
        "none"@
    } else if spec_lower(t) == "auto"@ {
        "auto"@
    } else if spec_is_simple_decimal(t) {
        spec_norm_decimal(t)
    } else {
        seq!['"'] + spec_escape_typst(t) + seq!['"']
    }
}

fn find_dot(s: &str) -> (r: usize)
    ensures
        r == spec_dot_pos(s@),
        r <= s@.len(),
        r < s@.len() ==> s@[r as int] == '.',
        forall|k: int| 0 <= k < r ==> s@[k] != '.',
{
    let n: usize = s.unicode_len();
    let mut i: usize = 0;
    proof {
        assert(s@.skip(0) =~= s@);
    }
    while i < n
        invariant
            0 <= i <= n,
            n == s@.len(),
            forall|k: int| 0 <= k < i ==> s@[k] != '.',
            spec_dot_pos(s@) == i + spec_dot_pos(s@.skip(i as int)),
        decreases n - i,
    {
        proof {
            assert(s@.skip(i as int)[0] == s@[i as int]);
            assert(s@.skip(i as int).skip(1) =~= s@.skip(i + 1));
        }
        if s.get_char(i) == '.' {
            return i;
        }
        i = i + 1;
    }
    proof {
        assert(s@.skip(n as int) =~= Seq::<char>::empty());
    }
    n
}

fn all_digits(s: &str, from: usize, to: usize) -> (b: bool)
    requires
        from <= to <= s@.len(),
    ensures
        b == spec_all_digits(s@.subrange(from as int, to as int)),
{
    let mut i: usize = from;
    while i < to
        invariant
            from <= i <= to <= s@.len(),
            forall|k: int|
                from <= k < i ==> crate::strutil::spec_is_digit(#[trigger] s@[k]),
        decreases to - i,
    {
        let c = s.get_char(i);
        if c < '0' || c > '9' {
            proof {
                assert(s@.subrange(from as int, to as int)[i - from] == s@[i as int]);
            }
            return false;
        }
        i = i + 1;
    }
    proof {
        assert(forall|k: int|
            0 <= k < to - from ==> #[trigger] s@.subrange(from as int, to as int)[k] == s@[k
                + from]);
    }
    true
}

/// Decides whether a string is a plain decimal literal.
pub fn is_simple_decimal(s: &str) -> (b: bool)
    ensures
        b == spec_is_simple_decimal(s@),
{
    let n: usize = s.unicode_len();
    let mut body_start: usize = 0;
    if n > 0 {
        let c0 = s.get_char(0);
        if c0 == '+' || c0 == '-' {
            body_start = 1;
        }
    }
    let ghost b0 = spec_sign_stripped(s@);
    proof {
        assert(b0 =~= s@.skip(body_start as int));
    }
    let body = s.substring_char(body_start, n);
    let bn: usize = n - body_start;
    let d = find_dot(body);
    proof {
        assert(spec_dot_pos(b0) == d);
        assert(b0.take(d as int) =~= body@.subrange(0, d as int));
        if d < bn {
            assert(b0.subrange(d + 1, b0.len() as int) =~= body@.subrange(d + 1, bn as int));
        }
    }
    let ip_ok = all_digits(body, 0, d);
    let fp_ok = if d < bn {
        all_digits(body, d + 1, bn)
    } else {
        proof {
            assert(spec_all_digits(Seq::<char>::empty()));
        }
        true
    };
    let digit_count: usize = if d < bn {
        bn - 1
    } else {
        bn
    };
    ip_ok && fp_ok && digit_count >= 1
}

/// Renders the `scale` option for the embed directive.
pub fn format_scale_value(raw: &str) -> (r: String)
    ensures
        r@ == spec_format_scale(raw@),
{
    let trimmed = str_trim(raw);
    let t = trimmed.as_str();
    let n: usize = t.unicode_len();
    if n == 0 {
        return String::from_str("none");
    }
    let lowered = to_ascii_lower(t);
    if crate::fence::str_eq(lowered.as_str(), "none") {
        return String::from_str("none");
    }
    if crate::fence::str_eq(lowered.as_str(), "auto") {
        return String::from_str("auto");
    }
    // Decide whether the value is a plain decimal literal.
    let mut body_start: usize = 0;
    let c0 = t.get_char(0);
    if c0 == '+' || c0 == '-' {
        body_start = 1;
    }
    let ghost b = spec_sign_stripped(t@);
    proof {
        assert(b =~= t@.skip(body_start as int));
    }
    let body = t.substring_char(body_start, n);
    let bn: usize = n - body_start;
    let d = find_dot(body);
    proof {
        assert(spec_dot_pos(b) == d);
        assert(b.take(d as int) =~= body@.subrange(0, d as int));
        if d < bn {
            assert(b.subrange(d + 1, b.len() as int) =~= body@.subrange(d + 1, bn as int));
        }
    }
    let ip_ok = all_digits(body, 0, d);
    let fp_ok = if d < bn {
        all_digits(body, d + 1, bn)
    } else {
        proof {
            assert(spec_all_digits(Seq::<char>::empty()));
        }
        true
    };
    let digit_count: usize = if d < bn {
        bn - 1
    } else {
        bn
    };
    if !(ip_ok && fp_ok && digit_count >= 1) {
        let mut q = String::new();
        push_char(&mut q, '"');
        let esc = escape_typst_string(t);
        q.append(esc.as_str());
        push_char(&mut q, '"');
        proof {
            assert(q@ =~= seq!['"'] + spec_escape_typst(t@) + seq!['"']);
        }
        return q;
    }
    // Normalize: strip leading zeros of the integer part and trailing zeros
    // of the fraction.
    let mut is: usize = 0;
    proof {
        assert(body@.subrange(0, d as int).skip(0) =~= body@.subrange(0, d as int));
    }
    while is + 1 < d && body.get_char(is) == '0'
        invariant
            0 <= is <= d,
            d <= bn == body@.len(),
            is < d ==> spec_norm_int(body@.subrange(0, d as int)) == spec_norm_int(
                body@.subrange(is as int, d as int),
            ),
            is == d ==> d == 0,
        decreases d - is,
    {
        proof {
            assert(body@.subrange(is as int, d as int)[0] == body@[is as int]);
            assert(body@.subrange(is as int, d as int).skip(1) =~= body@.subrange(
                is + 1,
                d as int,
            ));
        }
        is = is + 1;
    }
    let ghost ip = body@.subrange(0, d as int);
    proof {
        if d == 0 {
            assert(spec_norm_int(ip) =~= seq!['0']);
        } else {
            assert(is < d);
            let cur = body@.subrange(is as int, d as int);
            if is + 1 < d {
                assert(cur[0] != '0');
                assert(spec_norm_int(cur) == cur);
            } else {
                assert(cur.len() == 1);
                assert(spec_norm_int(cur) == cur);
            }
        }
    }
    let mut fe: usize = bn;
    let fs: usize = if d < bn {
        d + 1
    } else {
        bn
    };
    let ghost fp = if d < bn {
        body@.subrange(d + 1, bn as int)
    } else {
        Seq::<char>::empty()
    };
    proof {
        assert(fp =~= body@.subrange(fs as int, bn as int));
    }
    while fe > fs && body.get_char(fe - 1) == '0'
        invariant
            fs <= fe <= bn == body@.len(),
            fp == body@.subrange(fs as int, bn as int),
            spec_norm_frac(fp) == spec_norm_frac(body@.subrange(fs as int, fe as int)),
        decreases fe,
    {
        proof {
            assert(body@.subrange(fs as int, fe as int).last() == body@[fe - 1]);
            assert(body@.subrange(fs as int, fe as int).drop_last() =~= body@.subrange(
                fs as int,
                fe - 1,
            ));
        }
        fe = fe - 1;
    }
    proof {
        let cur = body@.subrange(fs as int, fe as int);
        if fe > fs {
            assert(cur.last() == body@[fe - 1]);
            assert(spec_norm_frac(cur) == cur);
        } else {
            assert(cur =~= Seq::<char>::empty());
            assert(spec_norm_frac(cur) == cur);
        }
    }
    let mut out = String::new();
    if c0 == '-' {
        push_char(&mut out, '-');
    }
    if d == 0 {
        push_char(&mut out, '0');
    } else {
        let mut k: usize = is;
        let ghost pre = out@;
        while k < d
            invariant
                is <= k <= d <= body@.len(),
                out@ == pre + body@.subrange(is as int, k as int),
            decreases d - k,
        {
            push_char(&mut out, body.get_char(k));
            proof {
                assert((pre + body@.subrange(is as int, k as int)).push(body@[k as int]) =~= pre
                    + body@.subrange(is as int, k + 1));
            }
            k = k + 1;
        }
    }
    if fe > fs {
        push_char(&mut out, '.');
        let mut k: usize = fs;
        let ghost pre2 = out@;
        while k < fe
            invariant
                fs <= k <= fe <= body@.len(),
                out@ == pre2 + body@.subrange(fs as int, k as int),
            decreases fe - k,
        {
            push_char(&mut out, body.get_char(k));
            proof {
                assert((pre2 + body@.subrange(fs as int, k as int)).push(body@[k as int]) =~= pre2
                    + body@.subrange(fs as int, k + 1));
            }
            k = k + 1;
        }
    }
    proof {
        assert(out@ =~= spec_norm_decimal(t@));
    }
    out
}

/// The full embed directive for one diagram block: a raw-passthrough comment
/// wrapping a call to the renderer function, with the escaped source and the
/// options that are actually present.
pub open spec fn spec_placeholder(content: Seq<char>, o: OptionsView) -> Seq<char> {
    "<!--raw-typst #tikz_render(diagram: \""@ + spec_escape_typst(content) + "\""@ + (match o.scale {
        Some(s) => if spec_trim(s).len() > 0 {
            ", scale: "@ + spec_format_scale(s)
        } else {
            Seq::<char>::empty()
        },
        None => Seq::<char>::empty(),
    }) + (match o.preamble {
        Some(p) => ", preamble: \""@ + spec_escape_typst(p) + "\""@,
        None => Seq::<char>::empty(),
    }) + (match o.format {
        Some(f) => if f.len() > 0 {
            ", format: \""@ + spec_escape_typst(f) + "\""@
        } else {
            Seq::<char>::empty()
        },
        None => Seq::<char>::empty(),
    }) + ") -->\n"@
}

/// Builds the embed directive text substituted for one diagram fence.
pub fn build_tikz_placeholder(content: &str, options: &TikzFenceOptions) -> (r: String)
    ensures
        r@ == spec_placeholder(content@, options@),
{
    let mut r = String::new();
    r.append("<!--raw-typst #tikz_render(diagram: \"");
    let esc = escape_typst_string(content);
    r.append(esc.as_str());
    r.append("\"");
    match &options.scale {
        Some(s) => {
            let st = str_trim(s.as_str());
            if st.as_str().unicode_len() > 0 {
                r.append(", scale: ");
                let fv = format_scale_value(s.as_str());
                r.append(fv.as_str());
            }
        },
        None => {},
    }
    match &options.preamble {
        Some(p) => {
            r.append(", preamble: \"");
            let pe = escape_typst_string(p.as_str());
            r.append(pe.as_str());
            r.append("\"");
        },
        None => {},
    }
    match &options.format {
        Some(f) => {
            if f.as_str().unicode_len() > 0 {
                r.append(", format: \"");
                let fes = escape_typst_string(f.as_str());
                r.append(fes.as_str());
                r.append("\"");
            }
        },
        None => {},
    }
    r.append(") -->\n");
    proof {
        assert(r@ =~= spec_placeholder(content@, options@));
    }
    r
}

} // verus!
