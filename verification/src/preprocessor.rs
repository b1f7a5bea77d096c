//! Anchor injection and the preprocessing entry point.
//!
//! After diagram extraction, the text is scanned again and an invisible
//! label directive is inserted before every qualifying block construct,
//! recording each anchor's byte offset, line and column.  A document-start
//! anchor at offset zero is always present.  Offsets are deduplicated, block
//! quotes and tables are skipped, and all insertions are applied in
//! descending offset order.

use vstd::prelude::*;
use vstd::string::StrSliceExecFns;
use vstd::string::StringExecFns;
use vstd::utf8::{decode_utf8, encode_utf8, valid_utf8};
use crate::events::{parse_markdown_events, spec_md_events, BlockKind, MdEvent};
use crate::extract::{
    block_views, inject_tikz_blocks, spec_extract_blocks, spec_extract_bytes, BlockView,
    PreprocessError, TikzBlockMeta,
};
use crate::splice::{
    apply_edits, edit_views, sanitize_edits, spec_apply_edits, spec_sanitize, Edit, EditView,
};
use crate::strutil::{push_char, spec_decimal, u64_to_string};

verus! {

/// A position in the editor's coordinate space: byte offset into the text,
/// 0-based line, 0-based column.  Derived, never mutated after creation.
#[derive(Debug, Clone, Copy, PartialEq, Eq, Structural)]
pub struct EditorPosition {
    pub offset: usize,
    pub line: usize,
    pub column: usize,
}

/// One injected anchor: its identifier and its editor position.
#[derive(Debug, Clone)]
pub struct AnchorMeta {
    pub id: String,
    pub offset: usize,
    pub line: usize,
    pub column: usize,
}

/// The mathematical form of one anchor.
pub struct AnchorView {
    pub id: Seq<char>,
    pub offset: int,
    pub line: int,
    pub column: int,
}

impl View for AnchorMeta {
    type V = AnchorView;

    open spec fn view(&self) -> AnchorView {
        AnchorView {
            id: self.id@,
            offset: self.offset as int,
            line: self.line as int,
            column: self.column as int,
        }
    }
}

/// The views of a sequence of anchors.
pub open spec fn anchor_views(s: Seq<AnchorMeta>) -> Seq<AnchorView> {
    s.map_values(|a: AnchorMeta| a@)
}

/// What preprocessing produces: the rewritten markdown, the anchors in
/// document order, and the diagram blocks found.
#[derive(Debug, Clone)]
pub struct PreprocessorOutput {
    pub markdown: String,
    pub anchors: Vec<AnchorMeta>,
    pub tikz_blocks: Vec<TikzBlockMeta>,
}

/// The line and column of a byte offset: lines count newline bytes, the
/// column counts the characters (bytes that do not continue a UTF-8
/// sequence) since the line start.
pub open spec fn spec_line_col(b: Seq<u8>, off: int) -> (int, int)
    decreases off,
{
    if off <= 0 {
        (0, 0)
    } else {
        let prev = spec_line_col(b, off - 1);
        if b[off - 1] == 10 {
            (prev.0 + 1, 0)
        } else if 128 <= b[off - 1] < 192 {
            prev
        } else {
            (prev.0, prev.1 + 1)
        }
    }
}

/// The offset at which the line containing `off` starts.
pub open spec fn spec_line_start(b: Seq<u8>, off: int) -> int
    decreases off,
{
    if off <= 0 {
        0
    } else if b[off - 1] == 10 {
        off
    } else {
        spec_line_start(b, off - 1)
    }
}

/// The first offset at or after `k` whose byte is not a space, tab or
/// carriage return.
pub open spec fn spec_skip_ws(b: Seq<u8>, k: int) -> int
    decreases b.len() - k,
{
    if k < 0 || k >= b.len() {
        b.len() as int
    } else if b[k] == 32 || b[k] == 9 || b[k] == 13 {
        spec_skip_ws(b, k + 1)
    } else {
        k
    }
}

/// True when the line containing `off` has `>` as its first character after
/// leading blanks: a quoted or admonition line, which receives no anchor.
pub open spec fn spec_line_is_quote(b: Seq<u8>, off: int) -> bool {
    let p = spec_skip_ws(b, spec_line_start(b, off));
    p < b.len() && b[p] == 62
}

/// The markup inserted for one anchor: a newline when the insertion point is
/// not already at a line start, then a raw comment carrying a label call.
pub open spec fn spec_anchor_markup(b: Seq<u8>, off: int, id: Seq<char>) -> Seq<char> {
    (if 0 < off <= b.len() && b[off - 1] != 10 {
        seq!['\n']
    } else {
        Seq::<char>::empty()
    }) + "<!--raw-typst #label(\""@ + id + "\") -->\n"@
}

/// The identifier of an anchor at byte offset `off` when `n` anchors exist
/// already.
pub open spec fn spec_anchor_id(off: nat, n: nat) -> Seq<char> {
    "tf-"@ + spec_decimal(off) + seq!['-'] + spec_decimal(n)
}

/// The identifier of the document-start anchor.
pub open spec fn spec_doc_anchor_id() -> Seq<char> {
    "tf-doc-start"@
}

/// The offset an event would anchor, if any: the start of a block-level
/// construct that is neither a block quote container nor part of a table.
pub open spec fn anchor_target(e: MdEvent) -> Option<usize> {
    match e {
        MdEvent::BlockStart { kind, start, end } => match kind {
            BlockKind::BlockQuote => None,
            BlockKind::Table => None,
            BlockKind::TableHead => None,
            BlockKind::TableRow => None,
            BlockKind::TableCell => None,
            _ => Some(start),
        },
        MdEvent::FenceStart { info, start, end } => Some(start),
        _ => None,
    }
}

/// True when a candidate offset is passed over: out of bounds, on a quoted
/// line, or already claimed by an earlier anchor.
pub open spec fn spec_anchor_skipped(b: Seq<u8>, seen: Seq<usize>, off: usize) -> bool {
    off > b.len() || spec_line_is_quote(b, off as int) || seen.contains(off)
}

/// The insertions and anchors the scan produces from the remaining events,
/// given the offsets already claimed and the number of anchors so far.
pub open spec fn spec_anchor_run(
    events: Seq<MdEvent>,
    b: Seq<u8>,
    seen: Seq<usize>,
    count: nat,
) -> (Seq<EditView>, Seq<AnchorView>)
    decreases events.len(),
{
    if events.len() == 0 {
        (Seq::<EditView>::empty(), Seq::<AnchorView>::empty())
    } else {
        let rest = events.skip(1);
        match anchor_target(events[0]) {
            Some(off) => if spec_anchor_skipped(b, seen, off) {
                spec_anchor_run(rest, b, seen, count)
            } else {
                let id = spec_anchor_id(off as nat, count);
                let lc = spec_line_col(b, off as int);
                let tail = spec_anchor_run(rest, b, seen.push(off), count + 1);
                (
                    seq![
                        EditView {
                            start: off as int,
                            end: off as int,
                            replacement: encode_utf8(spec_anchor_markup(b, off as int, id)),
                        },
                    ] + tail.0,
                    seq![
                        AnchorView { id: id, offset: off as int, line: lc.0, column: lc.1 },
                    ] + tail.1,
                )
            },
            None => spec_anchor_run(rest, b, seen, count),
        }
    }
}

/// The document-start anchor.
pub open spec fn spec_doc_anchor() -> AnchorView {
    AnchorView { id: spec_doc_anchor_id(), offset: 0, line: 0, column: 0 }
}

/// The document-start insertion for a given text.
pub open spec fn spec_doc_edit(b: Seq<u8>) -> EditView {
    EditView { start: 0, end: 0, replacement: encode_utf8(spec_anchor_markup(b, 0, spec_doc_anchor_id())) }
}

/// The byte form of a text after anchor injection.
pub open spec fn spec_inject_bytes(text: Seq<char>) -> Seq<u8> {
    let b = encode_utf8(text);
    let run = spec_anchor_run(spec_md_events(text), b, seq![0usize], 1);
    let edits = seq![spec_doc_edit(b)] + run.0;
    spec_apply_edits(b, spec_sanitize(edits, b.len() as int, 0))
}

/// The anchors of a text, document-start anchor first.
pub open spec fn spec_inject_anchor_list(text: Seq<char>) -> Seq<AnchorView> {
    let b = encode_utf8(text);
    seq![spec_doc_anchor()] + spec_anchor_run(spec_md_events(text), b, seq![0usize], 1).1
}

/// Computes the 0-based line and column of a byte offset, as
/// `spec_line_col` describes; an offset beyond the end of the text is
/// treated as the end of the text.
pub fn offset_to_line_column(source: &str, offset: usize) -> (r: (usize, usize))
    ensures
        ({
            let b = encode_utf8(source@);
            let off = if offset <= b.len() {
                offset as int
            } else {
                b.len() as int
            };
            r.0 == spec_line_col(b, off).0 && r.1 == spec_line_col(b, off).1
        }),
{
    let bytes = source.as_bytes_vec();
    line_col_of_bytes(&bytes, offset)
}

fn line_col_of_bytes(bytes: &Vec<u8>, offset: usize) -> (r: (usize, usize))
    ensures
        ({
            let off = if offset <= bytes@.len() {
                offset as int
            } else {
                bytes@.len() as int
            };
            r.0 == spec_line_col(bytes@, off).0 && r.1 == spec_line_col(bytes@, off).1
        }),
{
    let n: usize = bytes.len();
    let end: usize = if offset <= n {
        offset
    } else {
        n
    };
    let mut line: usize = 0;
    let mut col: usize = 0;
    let mut j: usize = 0;
    while j < end
        invariant
            0 <= j <= end <= bytes@.len(),
            line == spec_line_col(bytes@, j as int).0,
            col == spec_line_col(bytes@, j as int).1,
            line + col <= j,
        decreases end - j,
    {
        let byte = bytes[j];
        if byte == 10 {
            line = line + 1;
            col = 0;
        } else if 128 <= byte && byte < 192 {
        } else {
            col = col + 1;
        }
        j = j + 1;
    }
    (line, col)
}

fn line_is_quote(bytes: &Vec<u8>, off: usize) -> (r: bool)
    requires
        off <= bytes@.len(),
    ensures
        r == spec_line_is_quote(bytes@, off as int),
{
    let mut ls: usize = off;
    while ls > 0 && bytes[ls - 1] != 10
        invariant
            0 <= ls <= off <= bytes@.len(),
            spec_line_start(bytes@, off as int) == spec_line_start(bytes@, ls as int),
        decreases ls,
    {
        ls = ls - 1;
    }
    proof {
        assert(spec_line_start(bytes@, ls as int) == ls as int);
    }
    let n: usize = bytes.len();
    let mut p: usize = ls;
    while p < n && (bytes[p] == 32 || bytes[p] == 9 || bytes[p] == 13)
        invariant
            ls <= p <= n,
            n == bytes@.len(),
            spec_skip_ws(bytes@, ls as int) == spec_skip_ws(bytes@, p as int),
        decreases n - p,
    {
        p = p + 1;
    }
    proof {
        assert(spec_skip_ws(bytes@, p as int) == p as int);
    }
    p < n && bytes[p] == 62
}

fn seen_contains(seen: &Vec<usize>, off: usize) -> (r: bool)
    ensures
        r == seen@.contains(off),
{
    let n: usize = seen.len();
    let mut i: usize = 0;
    while i < n
        invariant
            0 <= i <= n,
            n == seen@.len(),
            forall|k: int| 0 <= k < i ==> seen@[k] != off,
        decreases n - i,
    {
        if seen[i] == off {
            return true;
        }
        i = i + 1;
    }
    false
}

/// Builds the markup inserted for one anchor at the given byte offset:
/// preceded by a newline when the preceding byte is not already a newline.
pub fn build_anchor_markup(source: &str, offset: usize, id: &str) -> (r: String)
    ensures
        r@ == spec_anchor_markup(encode_utf8(source@), offset as int, id@),
{
    let bytes = source.as_bytes_vec();
    let mut r = String::new();
    if offset > 0 && offset <= bytes.len() {
        if bytes[offset - 1] != 10 {
            push_char(&mut r, '\n');
        }
    }
    r.append("<!--raw-typst #label(\"");
    r.append(id);
    r.append("\") -->\n");
    proof {
        assert(r@ =~= spec_anchor_markup(encode_utf8(source@), offset as int, id@));
    }
    r
}

fn anchor_id_string(off: usize, count: usize) -> (r: String)
    ensures
        r@ == spec_anchor_id(off as nat, count as nat),
{
    let mut r = String::from_str("tf-");
    let a = u64_to_string(off as u64);
    r.append(a.as_str());
    push_char(&mut r, '-');
    let c = u64_to_string(count as u64);
    r.append(c.as_str());
    proof {
        assert(r@ =~= spec_anchor_id(off as nat, count as nat));
    }
    r
}

/// Injects the document-start anchor and one anchor before every qualifying
/// block construct, and returns the rewritten text with the anchor records
/// in document order.  Fails only when a reported span cuts a character so
/// that the rewritten bytes are not valid UTF-8.
pub fn inject_anchors(markdown: &str) -> (r: Result<(String, Vec<AnchorMeta>), PreprocessError>)
    ensures
        r matches Ok(out) ==> encode_utf8(out.0@) == spec_inject_bytes(markdown@)
            && anchor_views(out.1@) == spec_inject_anchor_list(markdown@),
        r.is_ok() == valid_utf8(spec_inject_bytes(markdown@)),
{
    let bytes = markdown.as_bytes_vec();
    let ghost b = encode_utf8(markdown@);
    let events = parse_markdown_events(markdown);
    let ghost run = spec_anchor_run(events@, b, seq![0usize], 1);

    let mut edits: Vec<Edit> = Vec::new();
    let mut anchors: Vec<AnchorMeta> = Vec::new();
    let mut seen: Vec<usize> = Vec::new();

    let doc_id = String::from_str("tf-doc-start");
    let doc_markup = build_anchor_markup(markdown, 0, doc_id.as_str());
    edits.push(Edit { start: 0, end: 0, replacement: doc_markup.as_str().as_bytes_vec() });
    anchors.push(AnchorMeta { id: doc_id, offset: 0, line: 0, column: 0 });
    seen.push(0);
    proof {
        assert(edit_views(edits@) =~= seq![spec_doc_edit(b)]);
        assert(anchor_views(anchors@) =~= seq![spec_doc_anchor()]);
        assert(seen@ =~= seq![0usize]);
    }

    let n: usize = events.len();
    let mut i: usize = 0;
    proof {
        assert(events@.skip(0) =~= events@);
    }
    while i < n
        invariant
            0 <= i <= n,
            n == events@.len(),
            b == encode_utf8(markdown@),
            bytes@ == b,
            run == spec_anchor_run(events@, b, seq![0usize], 1),
            anchors@.len() >= 1,
            edit_views(edits@) + spec_anchor_run(
                events@.skip(i as int),
                b,
                seen@,
                anchors@.len() as nat,
            ).0 == seq![spec_doc_edit(b)] + run.0,
            anchor_views(anchors@) + spec_anchor_run(
                events@.skip(i as int),
                b,
                seen@,
                anchors@.len() as nat,
            ).1 == seq![spec_doc_anchor()] + run.1,
        decreases n - i,
    {
        let ghost rem = events@.skip(i as int);
        let ghost cur_seen = seen@;
        let ghost count = anchors@.len() as nat;
        proof {
            assert(rem[0] == events@[i as int]);
            assert(rem.skip(1) =~= events@.skip(i + 1));
        }
        let target: Option<usize> = match &events[i] {
            MdEvent::BlockStart { kind, start, end: _ } => {
                match kind {
                    BlockKind::BlockQuote => None,
                    BlockKind::Table => None,
                    BlockKind::TableHead => None,
                    BlockKind::TableRow => None,
                    BlockKind::TableCell => None,
                    _ => Some(*start),
                }
            },
            MdEvent::FenceStart { info: _, start, end: _ } => Some(*start),
            _ => None,
        };
        proof {
            assert(target == anchor_target(events@[i as int]));
        }
        match target {
            Some(off) => {
                let skipped: bool = if off > bytes.len() {
                    true
                } else if line_is_quote(&bytes, off) {
                    true
                } else if seen_contains(&seen, off) {
                    true
                } else {
                    false
                };
                proof {
                    assert(skipped == spec_anchor_skipped(b, cur_seen, off));
                }
                if !skipped {
                    let id = anchor_id_string(off, anchors.len());
                    let lc = line_col_of_bytes(&bytes, off);
                    let markup = build_anchor_markup(markdown, off, id.as_str());
                    let ghost ev = edit_views(edits@);
                    let ghost av = anchor_views(anchors@);
                    edits.push(
                        Edit { start: off, end: off, replacement: markup.as_str().as_bytes_vec() },
                    );
                    anchors.push(AnchorMeta { id, offset: off, line: lc.0, column: lc.1 });
                    seen.push(off);
                    proof {
                        let sid = spec_anchor_id(off as nat, count);
                        let e = EditView {
                            start: off as int,
                            end: off as int,
                            replacement: encode_utf8(spec_anchor_markup(b, off as int, sid)),
                        };
                        let a = AnchorView {
                            id: sid,
                            offset: off as int,
                            line: spec_line_col(b, off as int).0,
                            column: spec_line_col(b, off as int).1,
                        };
                        assert(edit_views(edits@) =~= ev.push(e));
                        assert(anchor_views(anchors@) =~= av.push(a));
                        assert(seen@ =~= cur_seen.push(off));
                        let tail = spec_anchor_run(rem.skip(1), b, cur_seen.push(off), count + 1);
                        assert(ev.push(e) + tail.0 =~= ev + (seq![e] + tail.0));
                        assert(av.push(a) + tail.1 =~= av + (seq![a] + tail.1));
                    }
                }
            },
            None => {},
        }
        i = i + 1;
    }
    proof {
        assert(events@.skip(n as int) =~= Seq::<MdEvent>::empty());
        assert(edit_views(edits@) + Seq::<EditView>::empty() =~= edit_views(edits@));
        assert(anchor_views(anchors@) + Seq::<AnchorView>::empty() =~= anchor_views(anchors@));
        assert(edit_views(edits@) =~= seq![spec_doc_edit(b)] + run.0);
    }
    let sane = sanitize_edits(edits, bytes.len());
    proof {
        crate::splice::lemma_sanitize_wf(seq![spec_doc_edit(b)] + run.0, b.len() as int, 0);
    }
    let out_bytes = apply_edits(bytes, &sane);
    match String::from_utf8(out_bytes) {
        Ok(s) => Ok((s, anchors)),
        Err(_) => Err(PreprocessError::InvalidSplice),
    }
}

/// Everything the scan promises of each anchor it emits: the offset is in
/// bounds, not on a quoted line, not previously claimed, and comes from some
/// event's anchor target; and all emitted offsets are mutually distinct.
pub open spec fn run_anchors_sound(
    events: Seq<MdEvent>,
    b: Seq<u8>,
    seen: Seq<usize>,
    anchors: Seq<AnchorView>,
) -> bool {
    &&& forall|k: int|
        0 <= k < anchors.len() ==> {
            let a = #[trigger] anchors[k];
            &&& 0 <= a.offset <= b.len()
            &&& a.offset == (a.offset as usize) as int
            &&& !spec_line_is_quote(b, a.offset)
            &&& !seen.contains(a.offset as usize)
            &&& exists|i: int|
                0 <= i < events.len() && anchor_target(#[trigger] events[i]) == Some(
                    a.offset as usize,
                )
        }
    &&& forall|k1: int, k2: int|
        0 <= k1 < k2 < anchors.len() ==> (#[trigger] anchors[k1]).offset != (
        #[trigger] anchors[k2]).offset
}

proof fn lemma_run_anchors_sound(events: Seq<MdEvent>, b: Seq<u8>, seen: Seq<usize>, count: nat)
    ensures
        run_anchors_sound(events, b, seen, spec_anchor_run(events, b, seen, count).1),
    decreases events.len(),
{
    if events.len() > 0 {
        let rest = events.skip(1);
        let anchors = spec_anchor_run(events, b, seen, count).1;
        assert(forall|i: int| 0 <= i < rest.len() ==> #[trigger] rest[i] == events[i + 1]);
        match anchor_target(events[0]) {
            Some(off) => {
                if spec_anchor_skipped(b, seen, off) {
                    lemma_run_anchors_sound(rest, b, seen, count);
                    let tail = spec_anchor_run(rest, b, seen, count).1;
                    assert(anchors == tail);
                    lemma_run_transfer(events, b, seen, tail);
                } else {
                    lemma_run_anchors_sound(rest, b, seen.push(off), count + 1);
                    let tail = spec_anchor_run(rest, b, seen.push(off), count + 1).1;
                    let id = spec_anchor_id(off as nat, count);
                    let lc = spec_line_col(b, off as int);
                    let a0 = AnchorView { id: id, offset: off as int, line: lc.0, column: lc.1 };
                    assert(anchors == seq![a0] + tail);
                    assert(anchors[0] == a0);
                    assert(forall|k: int| 1 <= k < anchors.len() ==> #[trigger] anchors[k] == tail[k - 1]);
                    assert(anchor_target(events[0]) == Some(off));
                    assert(forall|u: int| 0 <= u < seen.len() ==> #[trigger] seen.push(off)[u] == seen[u]);
                    assert forall|k: int| 0 <= k < anchors.len() implies {
                        let a = #[trigger] anchors[k];
                        &&& 0 <= a.offset <= b.len()
                        &&& a.offset == (a.offset as usize) as int
                        &&& !spec_line_is_quote(b, a.offset)
                        &&& !seen.contains(a.offset as usize)
                        &&& exists|i: int|
                            0 <= i < events.len() && anchor_target(#[trigger] events[i]) == Some(
                                a.offset as usize,
                            )
                    } by {
                        let a = anchors[k];
                        if k == 0 {
                            assert(a == a0);
                            assert(a.offset as usize == off);
                        } else {
                            assert(a == tail[k - 1]);
                            assert(!seen.contains(a.offset as usize)) by {
                                if seen.contains(a.offset as usize) {
                                    let w = choose|w: int|
                                        0 <= w < seen.len() && seen[w] == a.offset as usize;
                                    assert(seen.push(off)[w] == a.offset as usize);
                                    assert(seen.push(off).contains(a.offset as usize));
                                }
                            }
                            let i0 = choose|i: int|
                                0 <= i < rest.len() && anchor_target(#[trigger] rest[i]) == Some(
                                    a.offset as usize,
                                );
                            assert(anchor_target(events[i0 + 1]) == Some(a.offset as usize));
                        }
                    }
                    assert forall|k1: int, k2: int|
                        0 <= k1 < k2 < anchors.len() implies (#[trigger] anchors[k1]).offset != (
                    #[trigger] anchors[k2]).offset by {
                        if k1 == 0 {
                            let a2 = tail[k2 - 1];
                            assert(!seen.push(off).contains(a2.offset as usize));
                            assert(seen.push(off)[seen.len() as int] == off);
                            assert(a2.offset as usize != off) by {
                                if a2.offset as usize == off {
                                    assert(seen.push(off).contains(a2.offset as usize));
                                }
                            }
                            assert(a2.offset == (a2.offset as usize) as int);
                        } else {
                            assert(anchors[k1] == tail[k1 - 1]);
                            assert(anchors[k2] == tail[k2 - 1]);
                        }
                    }
                }
            },
            None => {
                lemma_run_anchors_sound(rest, b, seen, count);
                let tail = spec_anchor_run(rest, b, seen, count).1;
                assert(anchors == tail);
                lemma_run_transfer(events, b, seen, tail);
            },
        }
    }
}

/// Re-bases the event witness of each anchor from the tail of the event
/// sequence to the whole of it.
proof fn lemma_run_transfer(events: Seq<MdEvent>, b: Seq<u8>, seen: Seq<usize>, anchors: Seq<AnchorView>)
    requires
        events.len() > 0,
        run_anchors_sound(events.skip(1), b, seen, anchors),
    ensures
        run_anchors_sound(events, b, seen, anchors),
{
    let rest = events.skip(1);
    assert(forall|i: int| 0 <= i < rest.len() ==> #[trigger] rest[i] == events[i + 1]);
    assert forall|k: int| 0 <= k < anchors.len() implies {
        let a = #[trigger] anchors[k];
        &&& 0 <= a.offset <= b.len()
        &&& a.offset == (a.offset as usize) as int
        &&& !spec_line_is_quote(b, a.offset)
        &&& !seen.contains(a.offset as usize)
        &&& exists|i: int|
            0 <= i < events.len() && anchor_target(#[trigger] events[i]) == Some(
                a.offset as usize,
            )
    } by {
        let a = anchors[k];
        let i0 = choose|i: int|
            0 <= i < rest.len() && anchor_target(#[trigger] rest[i]) == Some(a.offset as usize);
        assert(anchor_target(events[i0 + 1]) == Some(a.offset as usize));
    }
}

/// Quoted-line law: no anchor other than the document-start anchor targets
/// an offset whose line begins with `>` after leading blanks.  Content
/// inside a block quote is anchored only through constructs on lines of its
/// own that do not carry the quote marker.
pub proof fn lemma_anchors_skip_quoted_lines(text: Seq<char>)
    ensures
        forall|k: int|
            0 <= k < spec_inject_anchor_list(text).len() ==> {
                let a = #[trigger] spec_inject_anchor_list(text)[k];
                a.offset == 0 || !spec_line_is_quote(encode_utf8(text), a.offset)
            },
{
    let b = encode_utf8(text);
    lemma_run_anchors_sound(spec_md_events(text), b, seq![0usize], 1);
    let run = spec_anchor_run(spec_md_events(text), b, seq![0usize], 1);
    assert forall|k: int| 0 <= k < spec_inject_anchor_list(text).len() implies {
        let a = #[trigger] spec_inject_anchor_list(text)[k];
        a.offset == 0 || !spec_line_is_quote(b, a.offset)
    } by {
        if k > 0 {
            assert(spec_inject_anchor_list(text)[k] == run.1[k - 1]);
        }
    }
}

/// Offset dedup law: the anchors of a document claim mutually distinct byte
/// offsets; a later candidate for a claimed offset is dropped, never
/// overwriting.
pub proof fn lemma_anchor_offsets_unique(text: Seq<char>)
    ensures
        forall|k1: int, k2: int|
            0 <= k1 < k2 < spec_inject_anchor_list(text).len()
                ==> (#[trigger] spec_inject_anchor_list(text)[k1]).offset
                != (#[trigger] spec_inject_anchor_list(text)[k2]).offset,
{
    let b = encode_utf8(text);
    let list = spec_inject_anchor_list(text);
    lemma_run_anchors_sound(spec_md_events(text), b, seq![0usize], 1);
    let run = spec_anchor_run(spec_md_events(text), b, seq![0usize], 1);
    assert forall|k1: int, k2: int| 0 <= k1 < k2 < list.len() implies (#[trigger] list[k1]).offset
        != (#[trigger] list[k2]).offset by {
        if k1 == 0 {
            assert(list[k2] == run.1[k2 - 1]);
            assert(!seq![0usize].contains(run.1[k2 - 1].offset as usize));
            assert(seq![0usize][0] == 0usize);
            assert(run.1[k2 - 1].offset != 0);
        } else {
            assert(list[k1] == run.1[k1 - 1]);
            assert(list[k2] == run.1[k2 - 1]);
        }
    }
}

proof fn lemma_anchor_id_injective(o1: nat, c1: nat, o2: nat, c2: nat)
    requires
        spec_anchor_id(o1, c1) == spec_anchor_id(o2, c2),
    ensures
        o1 == o2,
        c1 == c2,
{
    crate::strutil::lemma_decimal_digits(o1);
    crate::strutil::lemma_decimal_digits(o2);
    reveal_strlit("tf-");
    let d1 = spec_decimal(o1);
    let e1 = spec_decimal(c1);
    let d2 = spec_decimal(o2);
    let e2 = spec_decimal(c2);
    let id1 = spec_anchor_id(o1, c1);
    let id2 = spec_anchor_id(o2, c2);
    assert("tf-"@.len() == 3);
    // The first `-` after the prefix ends the offset digits, so the digit
    // runs have equal length.
    assert(id1[3 + d1.len() as int] == '-');
    assert(id2[3 + d2.len() as int] == '-');
    if d1.len() < d2.len() {
        assert(id2[3 + d1.len() as int] == d2[d1.len() as int]);
        assert(crate::strutil::spec_is_digit(d2[d1.len() as int]));
        assert(false);
    }
    if d2.len() < d1.len() {
        assert(id1[3 + d2.len() as int] == d1[d2.len() as int]);
        assert(crate::strutil::spec_is_digit(d1[d2.len() as int]));
        assert(false);
    }
    assert(d1 =~= id1.subrange(3, 3 + d1.len() as int));
    assert(d2 =~= id2.subrange(3, 3 + d1.len() as int));
    crate::strutil::lemma_decimal_injective(o1, o2);
    assert(e1 =~= id1.subrange(4 + d1.len() as int, id1.len() as int));
    assert(e2 =~= id2.subrange(4 + d1.len() as int, id2.len() as int));
    crate::strutil::lemma_decimal_injective(c1, c2);
}

/// True when each anchor's identifier embeds its own offset and its
/// ordinal, counting from `count`.
pub open spec fn run_ids_structured(anchors: Seq<AnchorView>, count: nat) -> bool {
    forall|k: int|
        #![trigger anchors[k]]
        0 <= k < anchors.len() ==> anchors[k].id == spec_anchor_id(
            anchors[k].offset as nat,
            (count + k) as nat,
        )
}

proof fn lemma_run_ids_structured(events: Seq<MdEvent>, b: Seq<u8>, seen: Seq<usize>, count: nat)
    ensures
        run_ids_structured(spec_anchor_run(events, b, seen, count).1, count),
    decreases events.len(),
{
    if events.len() > 0 {
        let rest = events.skip(1);
        let anchors = spec_anchor_run(events, b, seen, count).1;
        match anchor_target(events[0]) {
            Some(off) => {
                if spec_anchor_skipped(b, seen, off) {
                    lemma_run_ids_structured(rest, b, seen, count);
                    assert(anchors == spec_anchor_run(rest, b, seen, count).1);
                } else {
                    lemma_run_ids_structured(rest, b, seen.push(off), count + 1);
                    let tail = spec_anchor_run(rest, b, seen.push(off), count + 1).1;
                    let id0 = spec_anchor_id(off as nat, count);
                    let lc0 = spec_line_col(b, off as int);
                    let a0 = AnchorView {
                        id: id0,
                        offset: off as int,
                        line: lc0.0,
                        column: lc0.1,
                    };
                    assert(anchors == seq![a0] + tail);
                    assert forall|k: int| #![trigger anchors[k]] 0 <= k < anchors.len()
                        implies anchors[k].id == spec_anchor_id(
                        anchors[k].offset as nat,
                        (count + k) as nat,
                    ) by {
                        if k == 0 {
                            assert(anchors[0] == a0);
                            assert(anchors[0].offset as nat == off as nat);
                        } else {
                            assert(anchors[k] == tail[k - 1]);
                            assert(tail[k - 1].id == spec_anchor_id(
                                tail[k - 1].offset as nat,
                                ((count + 1) + (k - 1)) as nat,
                            ));
                        }
                    }
                }
            },
            None => {
                lemma_run_ids_structured(rest, b, seen, count);
                assert(anchors == spec_anchor_run(rest, b, seen, count).1);
            },
        }
    }
}

/// Identifier uniqueness law: the anchors of a document carry mutually
/// distinct identifiers — each embeds its claimed byte offset, offsets are
/// deduplicated, and the document-start identifier matches no offset-based
/// one.
pub proof fn lemma_anchor_ids_unique(text: Seq<char>)
    ensures
        forall|k1: int, k2: int|
            0 <= k1 < k2 < spec_inject_anchor_list(text).len()
                ==> (#[trigger] spec_inject_anchor_list(text)[k1]).id
                != (#[trigger] spec_inject_anchor_list(text)[k2]).id,
{
    let b = encode_utf8(text);
    let list = spec_inject_anchor_list(text);
    let events = spec_md_events(text);
    lemma_run_anchors_sound(events, b, seq![0usize], 1);
    lemma_run_ids_structured(events, b, seq![0usize], 1);
    let run = spec_anchor_run(events, b, seq![0usize], 1).1;
    assert forall|k1: int, k2: int| 0 <= k1 < k2 < list.len() implies (#[trigger] list[k1]).id != (
    #[trigger] list[k2]).id by {
        let a2 = run[k2 - 1];
        assert(list[k2] == a2);
        let c2 = (1 + (k2 - 1)) as nat;
        assert(a2.id == spec_anchor_id(a2.offset as nat, c2));
        crate::strutil::lemma_decimal_digits(a2.offset as nat);
        reveal_strlit("tf-");
        if k1 == 0 {
            reveal_strlit("tf-doc-start");
            assert(list[0].id == spec_doc_anchor_id());
            assert(spec_doc_anchor_id()[3] == 'd');
            assert(spec_anchor_id(a2.offset as nat, c2)[3] == spec_decimal(
                a2.offset as nat,
            )[0]);
            assert(crate::strutil::spec_is_digit(spec_decimal(a2.offset as nat)[0]));
        } else {
            let a1 = run[k1 - 1];
            assert(list[k1] == a1);
            let c1 = (1 + (k1 - 1)) as nat;
            assert(a1.id == spec_anchor_id(a1.offset as nat, c1));
            if a1.id == a2.id {
                lemma_anchor_id_injective(a1.offset as nat, c1, a2.offset as nat, c2);
                assert(a1.offset == (a1.offset as usize) as int);
                assert(a2.offset == (a2.offset as usize) as int);
                assert(a1.offset == a2.offset);
                assert(false);
            }
        }
    }
}

/// Table law: when every block construct starting strictly inside a span is
/// a table construct (as it is for the byte span of a table), no anchor is
/// placed strictly inside that span.
pub proof fn lemma_no_anchor_inside_table(text: Seq<char>, ts: int, te: int)
    requires
        0 <= ts,
        forall|i: int|
            0 <= i < spec_md_events(text).len() ==> ((#[trigger] anchor_target(
                spec_md_events(text)[i],
            )) matches Some(off) ==> !(ts < off < te)),
    ensures
        forall|k: int|
            0 <= k < spec_inject_anchor_list(text).len() ==> !(ts
                < (#[trigger] spec_inject_anchor_list(text)[k]).offset < te),
{
    let b = encode_utf8(text);
    let list = spec_inject_anchor_list(text);
    let events = spec_md_events(text);
    lemma_run_anchors_sound(events, b, seq![0usize], 1);
    let run = spec_anchor_run(events, b, seq![0usize], 1);
    assert forall|k: int| 0 <= k < list.len() implies !(ts < (#[trigger] list[k]).offset < te) by {
        if k == 0 {
            assert(list[0].offset == 0);
        } else {
            let a = run.1[k - 1];
            assert(list[k] == a);
            let i0 = choose|i: int|
                0 <= i < events.len() && anchor_target(#[trigger] events[i]) == Some(
                    a.offset as usize,
                );
            assert(anchor_target(events[i0]) matches Some(off) && off == a.offset as usize);
        }
    }
}

proof fn lemma_run_edits_are_insertions(events: Seq<MdEvent>, b: Seq<u8>, seen: Seq<usize>, count: nat)
    ensures
        forall|k: int|
            0 <= k < spec_anchor_run(events, b, seen, count).0.len() ==> {
                let e = #[trigger] spec_anchor_run(events, b, seen, count).0[k];
                e.start == e.end
            },
    decreases events.len(),
{
    if events.len() > 0 {
        let rest = events.skip(1);
        let edits = spec_anchor_run(events, b, seen, count).0;
        match anchor_target(events[0]) {
            Some(off) => {
                if spec_anchor_skipped(b, seen, off) {
                    lemma_run_edits_are_insertions(rest, b, seen, count);
                    assert(edits == spec_anchor_run(rest, b, seen, count).0);
                } else {
                    lemma_run_edits_are_insertions(rest, b, seen.push(off), count + 1);
                    let tail = spec_anchor_run(rest, b, seen.push(off), count + 1).0;
                    let id = spec_anchor_id(off as nat, count);
                    let e0 = EditView {
                        start: off as int,
                        end: off as int,
                        replacement: encode_utf8(spec_anchor_markup(b, off as int, id)),
                    };
                    assert(edits == seq![e0] + tail);
                    assert forall|k: int| 0 <= k < edits.len() implies {
                        let e = #[trigger] edits[k];
                        e.start == e.end
                    } by {
                        if k == 0 {
                            assert(edits[k] == e0);
                        } else {
                            assert(edits[k] == tail[k - 1]);
                        }
                    }
                }
            },
            None => {
                lemma_run_edits_are_insertions(rest, b, seen, count);
                assert(edits == spec_anchor_run(rest, b, seen, count).0);
            },
        }
    }
}

proof fn lemma_sanitize_keeps_insertions(es: Seq<EditView>, len: int, lo: int)
    requires
        forall|i: int| 0 <= i < es.len() ==> (#[trigger] es[i]).start == es[i].end,
    ensures
        forall|i: int|
            0 <= i < spec_sanitize(es, len, lo).len() ==> (#[trigger] spec_sanitize(
                es,
                len,
                lo,
            )[i]).start == spec_sanitize(es, len, lo)[i].end,
    decreases es.len(),
{
    if es.len() > 0 {
        assert(forall|i: int| 0 <= i < es.skip(1).len() ==> #[trigger] es.skip(1)[i] == es[i + 1]);
        let e = es[0];
        let out = spec_sanitize(es, len, lo);
        if lo <= e.start && e.start <= e.end && e.end <= len {
            lemma_sanitize_keeps_insertions(es.skip(1), len, e.end);
            let tail = spec_sanitize(es.skip(1), len, e.end);
            assert(out == seq![e] + tail);
            assert forall|i: int| 0 <= i < out.len() implies (#[trigger] out[i]).start
                == out[i].end by {
                if i == 0 {
                    assert(out[i] == e);
                } else {
                    assert(out[i] == tail[i - 1]);
                }
            }
        } else {
            lemma_sanitize_keeps_insertions(es.skip(1), len, lo);
            assert(out == spec_sanitize(es.skip(1), len, lo));
        }
    }
}

/// Length law for the anchor pass: the rewritten byte length equals the
/// original byte length plus the sum of the inserted snippet lengths.
pub proof fn lemma_inject_length(text: Seq<char>)
    ensures
        ({
            let b = encode_utf8(text);
            let edits = seq![spec_doc_edit(b)] + spec_anchor_run(
                spec_md_events(text),
                b,
                seq![0usize],
                1,
            ).0;
            let kept = spec_sanitize(edits, b.len() as int, 0);
            spec_inject_bytes(text).len() == b.len() + crate::splice::spec_inserted_total(kept)
        }),
{
    let b = encode_utf8(text);
    let run0 = spec_anchor_run(spec_md_events(text), b, seq![0usize], 1).0;
    let edits = seq![spec_doc_edit(b)] + run0;
    lemma_run_edits_are_insertions(spec_md_events(text), b, seq![0usize], 1);
    assert forall|i: int| 0 <= i < edits.len() implies (#[trigger] edits[i]).start
        == edits[i].end by {
        if i > 0 {
            assert(edits[i] == run0[i - 1]);
        }
    }
    lemma_sanitize_keeps_insertions(edits, b.len() as int, 0);
    crate::splice::lemma_sanitize_wf(edits, b.len() as int, 0);
    crate::splice::lemma_insertions_length(b, spec_sanitize(edits, b.len() as int, 0));
}

/// True when preprocessing succeeds on a text: both rewrites yield valid
/// UTF-8 (they always do when the parser reports character-aligned spans).
pub open spec fn spec_preprocess_ok(text: Seq<char>) -> bool {
    &&& valid_utf8(spec_extract_bytes(text))
    &&& valid_utf8(spec_inject_bytes(decode_utf8(spec_extract_bytes(text))))
}

/// The final markdown of a text: diagram extraction, then anchor injection.
pub open spec fn spec_preprocess_markdown(text: Seq<char>) -> Seq<char> {
    decode_utf8(spec_inject_bytes(decode_utf8(spec_extract_bytes(text))))
}

/// The anchors of a preprocessed text.
pub open spec fn spec_preprocess_anchors(text: Seq<char>) -> Seq<AnchorView> {
    spec_inject_anchor_list(decode_utf8(spec_extract_bytes(text)))
}

/// Transforms authored markdown: every diagram fence becomes an embed
/// directive, and invisible position anchors are injected before block
/// constructs.  Returns the rewritten text, the anchors and the diagram
/// blocks; fails only when a rewrite would produce invalid UTF-8.
pub fn preprocess_markdown(markdown: &str) -> (r: Result<PreprocessorOutput, PreprocessError>)
    ensures
        r matches Ok(out) ==> out.markdown@ == spec_preprocess_markdown(markdown@)
            && anchor_views(out.anchors@) == spec_preprocess_anchors(markdown@)
            && block_views(out.tikz_blocks@) == spec_extract_blocks(markdown@),
        r.is_ok() == spec_preprocess_ok(markdown@),
{
    broadcast use vstd::utf8::encode_utf8_decode_utf8;

    match inject_tikz_blocks(markdown) {
        Ok(pair) => {
            let (transformed, blocks) = pair;
            proof {
                assert(transformed@ == decode_utf8(spec_extract_bytes(markdown@)));
            }
            match inject_anchors(transformed.as_str()) {
                Ok(out) => {
                    let (final_markdown, anchors) = out;
                    proof {
                        assert(final_markdown@ == spec_preprocess_markdown(markdown@));
                    }
                    Ok(
                        PreprocessorOutput {
                            markdown: final_markdown,
                            anchors,
                            tikz_blocks: blocks,
                        },
                    )
                },
                Err(e) => Err(e),
            }
        },
        Err(e) => Err(e),
    }
}

} // verus!
