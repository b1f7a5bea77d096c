//! Diagram extraction: walks the block event stream, accumulates the literal
//! content of each fence whose info string carries the diagram marker, and
//! replaces the fence's whole byte span with an embed directive.  All spans
//! are collected first and spliced afterwards in descending start order.

use vstd::prelude::*;
use vstd::string::StrSliceExecFns;
use vstd::string::StringExecFns;
use vstd::utf8::{encode_utf8, valid_utf8};
use crate::events::{parse_markdown_events, spec_md_events, MdEvent};
use crate::fence::{opt_view, parse_tikz_fence, spec_parse_fence, OptionsView, TikzFenceOptions};
use crate::placeholder::{build_tikz_placeholder, spec_placeholder};
use crate::splice::{
    apply_edits, edit_views, sanitize_edits, spec_apply_edits, spec_len_delta, spec_sanitize,
    Edit, EditView, edits_wf, lemma_apply_edits_length, lemma_sanitize_wf,
};
use crate::strutil::{spec_decimal, u64_to_string};

verus! {

/// Why a preprocessing pass failed.
#[derive(Debug, Clone, Copy, PartialEq, Eq, Structural)]
pub enum PreprocessError {
    /// A rewrite produced bytes that are not valid UTF-8; this can only
    /// happen when the parser reports a span that cuts a character.
    InvalidSplice,
}

/// One diagram block found in the document, in document order.
#[derive(Debug, Clone)]
pub struct TikzBlockMeta {
    /// Identifier, unique within one document.
    pub id: String,
    /// The fence's literal source text.
    pub diagram: String,
    /// The `preamble` option, when present.
    pub preamble: Option<String>,
    /// The `scale` option, when present.
    pub scale: Option<String>,
    /// The `format` option, when present.
    pub format: Option<String>,
    /// The artifact extension the block asks for.
    pub asset_extension: String,
    /// The output path of the block's artifact, relative to the build root.
    pub asset_path: String,
}

/// The mathematical form of one diagram block.
pub struct BlockView {
    pub id: Seq<char>,
    pub diagram: Seq<char>,
    pub preamble: Option<Seq<char>>,
    pub scale: Option<Seq<char>>,
    pub format: Option<Seq<char>>,
    pub asset_extension: Seq<char>,
    pub asset_path: Seq<char>,
}

impl View for TikzBlockMeta {
    type V = BlockView;

    open spec fn view(&self) -> BlockView {
        BlockView {
            id: self.id@,
            diagram: self.diagram@,
            preamble: opt_view(self.preamble),
            scale: opt_view(self.scale),
            format: opt_view(self.format),
            asset_extension: self.asset_extension@,
            asset_path: self.asset_path@,
        }
    }
}

/// The views of a sequence of blocks.
pub open spec fn block_views(bs: Seq<TikzBlockMeta>) -> Seq<BlockView> {
    bs.map_values(|b: TikzBlockMeta| b@)
}

/// The artifact extension a block's `format` option asks for; a missing or
/// empty option means a PNG artifact.
pub open spec fn spec_extension(format: Option<Seq<char>>) -> Seq<char> {
    match format {
        Some(f) => if f.len() > 0 {
            f
        } else {
            "png"@
        },
        None => "png"@,
    }
}

/// The identifier of the `n`-th diagram block of a document.
pub open spec fn spec_block_id(n: nat) -> Seq<char> {
    "tikz-"@ + spec_decimal(n)
}

/// The output path of a block's artifact.
pub open spec fn spec_asset_path(id: Seq<char>, ext: Seq<char>) -> Seq<char> {
    "tikz/"@ + id + seq!['.'] + ext
}

/// The block record produced for the `n`-th diagram fence.
pub open spec fn spec_block(content: Seq<char>, o: OptionsView, n: nat) -> BlockView {
    BlockView {
        id: spec_block_id(n),
        diagram: content,
        preamble: o.preamble,
        scale: o.scale,
        format: o.format,
        asset_extension: spec_extension(o.format),
        asset_path: spec_asset_path(spec_block_id(n), spec_extension(o.format)),
    }
}

/// A fence that has been opened but not yet closed.
pub struct PendingView {
    pub start: int,
    pub options: OptionsView,
    pub content: Seq<char>,
}

/// The edits and blocks the extraction scan produces from the remaining
/// events, given the fence currently open (if any) and how many blocks were
/// already produced.  A fence span is replaced by its embed directive when
/// its end event arrives; text and breaks accumulate into the open fence.
pub open spec fn spec_collect(
    events: Seq<MdEvent>,
    cur: Option<PendingView>,
    count: nat,
) -> (Seq<EditView>, Seq<BlockView>)
    decreases events.len(),
{
    if events.len() == 0 {
        (Seq::<EditView>::empty(), Seq::<BlockView>::empty())
    } else {
        let rest = events.skip(1);
        match events[0] {
            MdEvent::FenceStart { info, start, end } => match spec_parse_fence(info@) {
                Some(o) => spec_collect(
                    rest,
                    Some(PendingView { start: start as int, options: o, content: Seq::empty() }),
                    count,
                ),
                None => spec_collect(rest, cur, count),
            },
            MdEvent::FenceEnd { start, end } => match cur {
                Some(p) => {
                    let tail = spec_collect(rest, None::<PendingView>, count + 1);
                    (
                        seq![
                            EditView {
                                start: p.start,
                                end: end as int,
                                replacement: encode_utf8(
                                    spec_placeholder(p.content, p.options),
                                ),
                            },
                        ] + tail.0,
                        seq![spec_block(p.content, p.options, count)] + tail.1,
                    )
                },
                None => spec_collect(rest, cur, count),
            },
            MdEvent::Text { content } => match cur {
                Some(p) => spec_collect(
                    rest,
                    Some(
                        PendingView {
                            start: p.start,
                            options: p.options,
                            content: p.content + content@,
                        },
                    ),
                    count,
                ),
                None => spec_collect(rest, cur, count),
            },
            MdEvent::LineBreak => match cur {
                Some(p) => spec_collect(
                    rest,
                    Some(
                        PendingView {
                            start: p.start,
                            options: p.options,
                            content: p.content.push('\n'),
                        },
                    ),
                    count,
                ),
                None => spec_collect(rest, cur, count),
            },
            _ => spec_collect(rest, cur, count),
        }
    }
}

/// The byte form of the document after diagram extraction: the candidate
/// edits from the event scan, sanitised, applied to the UTF-8 bytes.
pub open spec fn spec_extract_bytes(text: Seq<char>) -> Seq<u8> {
    let bytes = encode_utf8(text);
    let es = spec_collect(spec_md_events(text), None::<PendingView>, 0).0;
    spec_apply_edits(bytes, spec_sanitize(es, bytes.len() as int, 0))
}

/// The diagram blocks of a document, in document order.
pub open spec fn spec_extract_blocks(text: Seq<char>) -> Seq<BlockView> {
    spec_collect(spec_md_events(text), None::<PendingView>, 0).1
}

struct Pending {
    start: usize,
    options: TikzFenceOptions,
    content: String,
}

spec fn pending_view(has: bool, p_start: usize, p_options: TikzFenceOptions, p_content: String) -> Option<
    PendingView,
> {
    if has {
        Some(
            PendingView {
                start: p_start as int,
                options: p_options@,
                content: p_content@,
            },
        )
    } else {
        None
    }
}

fn clone_opt_string(o: &Option<String>) -> (r: Option<String>)
    ensures
        opt_view(r) == opt_view(*o),
{
    match o {
        Some(s) => Some(s.clone()),
        None => None,
    }
}

/// Scans the event stream and collects, per diagram fence, the span edit
/// carrying its embed directive and the block record.
fn collect_diagram_edits(events: &Vec<MdEvent>) -> (r: (Vec<Edit>, Vec<TikzBlockMeta>))
    ensures
        edit_views(r.0@) == spec_collect(events@, None::<PendingView>, 0).0,
        block_views(r.1@) == spec_collect(events@, None::<PendingView>, 0).1,
{
    let ghost fin = spec_collect(events@, None::<PendingView>, 0);
    let mut edits: Vec<Edit> = Vec::new();
    let mut blocks: Vec<TikzBlockMeta> = Vec::new();
    let mut has_pending: bool = false;
    let mut p_start: usize = 0;
    let mut p_options = TikzFenceOptions { scale: None, preamble: None, format: None };
    let mut p_content: String = String::new();
    let n: usize = events.len();
    let mut i: usize = 0;
    proof {
        assert(events@.skip(0) =~= events@);
        assert(edit_views(edits@) =~= Seq::<EditView>::empty());
        assert(block_views(blocks@) =~= Seq::<BlockView>::empty());
    }
    while i < n
        invariant
            0 <= i <= n,
            n == events@.len(),
            blocks@.len() == spec_collect(events@, None::<PendingView>, 0).1.len()
                - spec_collect(
                events@.skip(i as int),
                pending_view(has_pending, p_start, p_options, p_content),
                blocks@.len() as nat,
            ).1.len(),
            fin == spec_collect(events@, None::<PendingView>, 0),
            edit_views(edits@) + spec_collect(
                events@.skip(i as int),
                pending_view(has_pending, p_start, p_options, p_content),
                blocks@.len() as nat,
            ).0 == fin.0,
            block_views(blocks@) + spec_collect(
                events@.skip(i as int),
                pending_view(has_pending, p_start, p_options, p_content),
                blocks@.len() as nat,
            ).1 == fin.1,
        decreases n - i,
    {
        let ghost rem = events@.skip(i as int);
        let ghost cur = pending_view(has_pending, p_start, p_options, p_content);
        let ghost count = blocks@.len() as nat;
        proof {
            assert(rem[0] == events@[i as int]);
            assert(rem.skip(1) =~= events@.skip(i + 1));
        }
        match &events[i] {
            MdEvent::FenceStart { info, start, end: _ } => {
                match parse_tikz_fence(info.as_str()) {
                    Some(o) => {
                        has_pending = true;
                        p_start = *start;
                        p_options = o;
                        p_content = String::new();
                    },
                    None => {},
                }
            },
            MdEvent::FenceEnd { start: _, end } => {
                if has_pending {
                    let placeholder = build_tikz_placeholder(p_content.as_str(), &p_options);
                    let replacement = placeholder.as_str().as_bytes_vec();
                    let ghost ev = edit_views(edits@);
                    let ghost bv = block_views(blocks@);
                    edits.push(Edit { start: p_start, end: *end, replacement });
                    let ext: String = match &p_options.format {
                        Some(f) => {
                            if f.as_str().unicode_len() > 0 {
                                f.clone()
                            } else {
                                String::from_str("png")
                            }
                        },
                        None => String::from_str("png"),
                    };
                    let mut id = String::from_str("tikz-");
                    let num = u64_to_string(blocks.len() as u64);
                    id.append(num.as_str());
                    let mut path = String::from_str("tikz/");
                    path.append(id.as_str());
                    path.append(".");
                    path.append(ext.as_str());
                    proof {
                        reveal_strlit(".");
                        assert("."@ =~= seq!['.']);
                        assert(id@ =~= spec_block_id(count));
                        assert(path@ =~= spec_asset_path(spec_block_id(count), ext@));
                    }
                    let block = TikzBlockMeta {
                        id,
                        diagram: p_content.clone(),
                        preamble: clone_opt_string(&p_options.preamble),
                        scale: clone_opt_string(&p_options.scale),
                        format: clone_opt_string(&p_options.format),
                        asset_extension: ext,
                        asset_path: path,
                    };
                    blocks.push(block);
                    proof {
                        let p = cur.unwrap();
                        let e = EditView {
                            start: p.start,
                            end: *end as int,
                            replacement: encode_utf8(spec_placeholder(p.content, p.options)),
                        };
                        assert(edit_views(edits@) =~= ev.push(e));
                        assert(block_views(blocks@) =~= bv.push(spec_block(p.content, p.options, count)));
                        let tail = spec_collect(rem.skip(1), None::<PendingView>, count + 1);
                        assert(ev.push(e) + tail.0 =~= ev + (seq![e] + tail.0));
                        assert(bv.push(spec_block(p.content, p.options, count)) + tail.1 =~= bv + (
                        seq![spec_block(p.content, p.options, count)] + tail.1));
                    }
                    has_pending = false;
                    p_content = String::new();
                }
            },
            MdEvent::Text { content } => {
                if has_pending {
                    p_content.append(content.as_str());
                }
            },
            MdEvent::LineBreak => {
                if has_pending {
                    crate::strutil::push_char(&mut p_content, '\n');
                }
            },
            _ => {},
        }
        i = i + 1;
    }
    proof {
        assert(events@.skip(n as int) =~= Seq::<MdEvent>::empty());
        assert(edit_views(edits@) + Seq::<EditView>::empty() =~= edit_views(edits@));
        assert(block_views(blocks@) + Seq::<BlockView>::empty() =~= block_views(blocks@));
    }
    (edits, blocks)
}

/// Rewrites every diagram fence of `markdown` into an embed directive and
/// returns the rewritten text together with the blocks found, in document
/// order.  Fails only when the parser reports a span that cuts a character,
/// so that the rewritten bytes are not valid UTF-8.
pub fn inject_tikz_blocks(markdown: &str) -> (r: Result<
    (String, Vec<TikzBlockMeta>),
    PreprocessError,
>)
    ensures
        r matches Ok(out) ==> encode_utf8(out.0@) == spec_extract_bytes(markdown@)
            && block_views(out.1@) == spec_extract_blocks(markdown@),
        r.is_ok() == valid_utf8(spec_extract_bytes(markdown@)),
{
    let events = parse_markdown_events(markdown);
    let collected = collect_diagram_edits(&events);
    let blocks = collected.1;
    let bytes = markdown.as_bytes_vec();
    let sane = sanitize_edits(collected.0, bytes.len());
    proof {
        lemma_sanitize_wf(
            spec_collect(events@, None::<PendingView>, 0).0,
            bytes@.len() as int,
            0,
        );
    }
    let out_bytes = apply_edits(bytes, &sane);
    match String::from_utf8(out_bytes) {
        Ok(s) => Ok((s, blocks)),
        Err(_) => Err(PreprocessError::InvalidSplice),
    }
}

/// Length law for the extraction pass: the rewritten byte length equals the
/// original byte length plus the sum of the directive lengths minus the
/// replaced span lengths.
pub proof fn lemma_extract_length(text: Seq<char>)
    ensures
        ({
            let bytes = encode_utf8(text);
            let es = spec_sanitize(
                spec_collect(spec_md_events(text), None::<PendingView>, 0).0,
                bytes.len() as int,
                0,
            );
            spec_extract_bytes(text).len() == bytes.len() + spec_len_delta(es)
        }),
{
    let bytes = encode_utf8(text);
    let es = spec_sanitize(
        spec_collect(spec_md_events(text), None::<PendingView>, 0).0,
        bytes.len() as int,
        0,
    );
    lemma_sanitize_wf(
        spec_collect(spec_md_events(text), None::<PendingView>, 0).0,
        bytes.len() as int,
        0,
    );
    lemma_apply_edits_length(bytes, es);
}

/// Idempotence core: when no event of a text is a fence start whose info
/// string parses as a diagram fence, extraction changes nothing.  Rerunning
/// extraction on its own output is such a case, because the embed directive
/// is a raw comment and never a diagram fence.
pub proof fn lemma_extract_without_fences_is_identity(text: Seq<char>)
    requires
        forall|i: int|
            0 <= i < spec_md_events(text).len() ==> !((#[trigger] spec_md_events(text)[i])
                matches MdEvent::FenceStart { info, start, end }
                && spec_parse_fence(info@) is Some),
    ensures
        spec_extract_bytes(text) == encode_utf8(text),
{
    lemma_collect_no_pending_empty(spec_md_events(text), 0);
    let bytes = encode_utf8(text);
    assert(spec_sanitize(Seq::<EditView>::empty(), bytes.len() as int, 0)
        == Seq::<EditView>::empty());
    assert(spec_apply_edits(bytes, Seq::<EditView>::empty()) == bytes);
}

proof fn lemma_collect_no_pending_empty(events: Seq<MdEvent>, count: nat)
    requires
        forall|i: int|
            0 <= i < events.len() ==> !((#[trigger] events[i]) matches MdEvent::FenceStart {
                info,
                start,
                end,
            } && spec_parse_fence(info@) is Some),
    ensures
        spec_collect(events, None::<PendingView>, count) == (
            Seq::<EditView>::empty(),
            Seq::<BlockView>::empty(),
        ),
    decreases events.len(),
{
    if events.len() > 0 {
        assert(forall|i: int|
            0 <= i < events.skip(1).len() ==> #[trigger] events.skip(1)[i] == events[i + 1]);
        lemma_collect_no_pending_empty(events.skip(1), count);
        match events[0] {
            MdEvent::FenceStart { info, start, end } => {
                assert(!(spec_parse_fence(info@) is Some));
            },
            _ => {},
        }
    }
}

} // verus!
