//! The compile-cache state machine.
//!
//! One diagram block resolves through `MISS -> COMPILING -> {CACHED |
//! FALLBACK_CACHED}`: probe the cache, compile the document, rasterize page
//! one, store the artifact, copy it to the block's output path.  On any
//! compile or rasterization failure the same path is rerun once with a
//! fallback document rendering the failure message; only a failing fallback
//! leaves the single block without an artifact, and never aborts siblings.
//! The decisions are verified here; the host performs the actions (file
//! probes, the external compiler, the PDF renderer) and reports events.

use vstd::prelude::*;
use vstd::string::StrSliceExecFns;
use crate::cache::cache_file_name;
use crate::extract::{BlockView, TikzBlockMeta};
use crate::fence::{str_eq, string_views};
use crate::latex::{
    build_diagram_document, build_fallback_document, spec_diagram_document,
    spec_fallback_document,
};

verus! {

/// Where one block stands in its resolution.
#[derive(Debug, Clone, Copy, PartialEq, Eq, Structural)]
pub enum ResolveState {
    /// Waiting for the cache probe.
    Probing,
    /// Waiting for the external compiler; `fallback` marks the
    /// error-artifact path.
    Compiling { fallback: bool },
    /// Waiting for page one of the compiled PDF to be rasterized.
    Rasterizing { fallback: bool },
    /// Waiting for the artifact bytes to reach the cache entry.
    Storing,
    /// The block resolved to a cached artifact.
    Done,
    /// The fallback itself failed; this one block has no artifact.
    Failed,
}

/// What the host reports back after performing an action.
#[derive(Debug)]
pub enum ResolveEvent {
    /// The cache entry exists.
    CacheHit,
    /// The cache entry does not exist.
    CacheMiss,
    /// The external compiler produced this PDF.
    CompilerOk(Vec<u8>),
    /// The external compiler failed with this message.
    CompilerFailed(String),
    /// Page one was rendered to raw RGBA pixels of the given size.
    PageRendered { rgba: Vec<u8>, width: u32, height: u32 },
    /// Loading or rendering the PDF failed with this message.
    RenderFailed(String),
    /// The artifact bytes were written to the cache entry.
    Stored,
}

/// What the host must do next.
#[derive(Debug)]
pub enum ResolveAction {
    /// Check whether the cache entry with this file name exists.
    ProbeCache(String),
    /// Run the external compiler on this document, then report the result.
    Compile(String),
    /// Load this PDF, select page one, render it at the dimensions
    /// `pixel_dimensions` gives, and report the pixels.
    Render(Vec<u8>),
    /// Write these artifact bytes to this cache entry.
    Store(String, Vec<u8>),
    /// Copy the cache entry to the block's output path.
    CopyToOutput(String, String),
    /// Report that this block failed; siblings continue.
    Report(String),
    /// Nothing to do (the event did not fit the state).
    Ignore,
}

/// The PNG encoding of raw RGBA pixels, as the external encoder computes
/// it; a function of the pixels and dimensions alone.
pub uninterp spec fn spec_png_encode(rgba: Seq<u8>, width: u32, height: u32) -> Seq<u8>;

/// Relies on `image::codecs::png::PngEncoder::encode`: encodes RGBA pixels
/// to a PNG stream, which always begins with the PNG signature and so is
/// never empty.
#[verifier::external_body]
fn encode_png(rgba: &Vec<u8>, width: u32, height: u32) -> (r: Result<Vec<u8>, String>)
    ensures
        r matches Ok(b) ==> b@ == spec_png_encode(rgba@, width, height) && b@.len() > 0,
{
    let mut out: Vec<u8> = Vec::new();
    let mut cursor = std::io::Cursor::new(&mut out);
    let encoder = image::codecs::png::PngEncoder::new(&mut cursor);
    match encoder.encode(rgba.as_slice(), width, height, image::ColorType::Rgba8) {
        Ok(()) => Ok(out),
        Err(e) => Err(e.to_string()),
    }
}

/// Clamps a raw pixel dimension (page points scaled by the fixed DPI over
/// 72) to the supported range: at least 1, at most 4096 pixels a side, to
/// bound rasterization memory.
pub fn pixel_dimensions(raw_width: u64, raw_height: u64) -> (r: (u64, u64))
    ensures
        r.0 == (if raw_width < 1 {
            1u64
        } else if raw_width > 4096 {
            4096u64
        } else {
            raw_width
        }),
        r.1 == (if raw_height < 1 {
            1u64
        } else if raw_height > 4096 {
            4096u64
        } else {
            raw_height
        }),
{
    let w: u64 = if raw_width < 1 {
        1
    } else if raw_width > 4096 {
        4096
    } else {
        raw_width
    };
    let h: u64 = if raw_height < 1 {
        1
    } else if raw_height > 4096 {
        4096
    } else {
        raw_height
    };
    (w, h)
}

/// The step relation of the resolve machine: exactly which next state and
/// action each state/event pair allows.  The rasterization step may either
/// store the encoded PNG or, when encoding fails, take the failure path
/// with some message.
pub open spec fn spec_step_rel(
    b: BlockView,
    s: ResolveState,
    e: ResolveEvent,
    next: ResolveState,
    a: ResolveAction,
) -> bool {
    match (s, e) {
        (ResolveState::Probing, ResolveEvent::CacheHit) => next == ResolveState::Done && (
        a matches ResolveAction::CopyToOutput(f, d) && f@ == crate::cache::spec_cache_file_name(b)
            && d@ == b.asset_path),
        (ResolveState::Probing, ResolveEvent::CacheMiss) => next == (ResolveState::Compiling {
            fallback: false,
        }) && (a matches ResolveAction::Compile(doc) && doc@ == spec_diagram_document(
            b.diagram,
            b.preamble,
        )),
        (ResolveState::Compiling { fallback }, ResolveEvent::CompilerOk(pdf)) => next == (
        ResolveState::Rasterizing { fallback }) && (a matches ResolveAction::Render(p) && p@
            == pdf@),
        (ResolveState::Compiling { fallback }, ResolveEvent::CompilerFailed(m)) => if !fallback {
            next == (ResolveState::Compiling { fallback: true }) && (
            a matches ResolveAction::Compile(doc) && doc@ == spec_fallback_document(m@))
        } else {
            next == ResolveState::Failed && (a matches ResolveAction::Report(msg) && msg@ == m@)
        },
        (ResolveState::Rasterizing { fallback }, ResolveEvent::PageRendered { rgba, width, height }) => {
            ||| (next == ResolveState::Storing && (a matches ResolveAction::Store(f, bytes) && f@
                == crate::cache::spec_cache_file_name(b) && bytes@ == spec_png_encode(
                rgba@,
                width,
                height,
            ) && bytes@.len() > 0))
            ||| (!fallback && next == (ResolveState::Compiling { fallback: true }) && (exists|m: Seq<char>|
                a matches ResolveAction::Compile(doc) && doc@ == #[trigger] spec_fallback_document(
                    m,
                )))
            ||| (fallback && next == ResolveState::Failed && (a matches ResolveAction::Report(msg)))
        },
        (ResolveState::Rasterizing { fallback }, ResolveEvent::RenderFailed(m)) => if !fallback {
            next == (ResolveState::Compiling { fallback: true }) && (
            a matches ResolveAction::Compile(doc) && doc@ == spec_fallback_document(m@))
        } else {
            next == ResolveState::Failed && (a matches ResolveAction::Report(msg) && msg@ == m@)
        },
        (ResolveState::Storing, ResolveEvent::Stored) => next == ResolveState::Done && (
        a matches ResolveAction::CopyToOutput(f, d) && f@ == crate::cache::spec_cache_file_name(b)
            && d@ == b.asset_path),
        _ => next == s && a is Ignore,
    }
}

/// Begins one block's resolution: the first thing to do is always to probe
/// the cache for the block's entry.
pub fn resolve_start(block: &TikzBlockMeta) -> (r: (ResolveState, ResolveAction))
    ensures
        r.0 == ResolveState::Probing,
        r.1 matches ResolveAction::ProbeCache(f) && f@ == crate::cache::spec_cache_file_name(
            block@,
        ),
{
    (ResolveState::Probing, ResolveAction::ProbeCache(cache_file_name(block)))
}

/// Advances one block's resolution by one event and names the next action.
/// The compile failure path always leads to compiling the fallback document
/// before the block can fail, so a missing artifact needs two consecutive
/// failures.
pub fn resolve_step(block: &TikzBlockMeta, state: ResolveState, event: &ResolveEvent) -> (r: (
    ResolveState,
    ResolveAction,
))
    ensures
        spec_step_rel(block@, state, *event, r.0, r.1),
{
    match (state, event) {
        (ResolveState::Probing, ResolveEvent::CacheHit) => {
            let name = cache_file_name(block);
            let dest = block.asset_path.clone();
            (ResolveState::Done, ResolveAction::CopyToOutput(name, dest))
        },
        (ResolveState::Probing, ResolveEvent::CacheMiss) => {
            let preamble: Option<&str> = match &block.preamble {
                Some(p) => Some(p.as_str()),
                None => None,
            };
            let doc = build_diagram_document(block.diagram.as_str(), preamble);
            (ResolveState::Compiling { fallback: false }, ResolveAction::Compile(doc))
        },
        (ResolveState::Compiling { fallback }, ResolveEvent::CompilerOk(pdf)) => {
            let mut copy: Vec<u8> = Vec::new();
            let n: usize = pdf.len();
            let mut i: usize = 0;
            while i < n
                invariant
                    0 <= i <= n,
                    n == pdf@.len(),
                    copy@ == pdf@.take(i as int),
                decreases n - i,
            {
                copy.push(pdf[i]);
                proof {
                    assert(pdf@.take(i as int).push(pdf@[i as int]) =~= pdf@.take(i + 1));
                }
                i = i + 1;
            }
            proof {
                assert(pdf@.take(n as int) =~= pdf@);
            }
            (ResolveState::Rasterizing { fallback }, ResolveAction::Render(copy))
        },
        (ResolveState::Compiling { fallback }, ResolveEvent::CompilerFailed(m)) => {
            if !fallback {
                let doc = build_fallback_document(m.as_str());
                (ResolveState::Compiling { fallback: true }, ResolveAction::Compile(doc))
            } else {
                (ResolveState::Failed, ResolveAction::Report(m.clone()))
            }
        },
        (ResolveState::Rasterizing { fallback }, ResolveEvent::PageRendered { rgba, width, height }) => {
            match encode_png(rgba, *width, *height) {
                Ok(bytes) => {
                    let name = cache_file_name(block);
                    (ResolveState::Storing, ResolveAction::Store(name, bytes))
                },
                Err(m) => {
                    if !fallback {
                        let doc = build_fallback_document(m.as_str());
                        proof {
                            assert(spec_fallback_document(m@) == doc@);
                        }
                        (ResolveState::Compiling { fallback: true }, ResolveAction::Compile(doc))
                    } else {
                        (ResolveState::Failed, ResolveAction::Report(m))
                    }
                },
            }
        },
        (ResolveState::Rasterizing { fallback }, ResolveEvent::RenderFailed(m)) => {
            if !fallback {
                let doc = build_fallback_document(m.as_str());
                (ResolveState::Compiling { fallback: true }, ResolveAction::Compile(doc))
            } else {
                (ResolveState::Failed, ResolveAction::Report(m.clone()))
            }
        },
        (ResolveState::Storing, ResolveEvent::Stored) => {
            let name = cache_file_name(block);
            let dest = block.asset_path.clone();
            (ResolveState::Done, ResolveAction::CopyToOutput(name, dest))
        },
        (other, _) => (other, ResolveAction::Ignore),
    }
}

/// True when the sequences form a run of the machine from the probe state.
pub open spec fn spec_is_run(
    b: BlockView,
    states: Seq<ResolveState>,
    events: Seq<ResolveEvent>,
    actions: Seq<ResolveAction>,
) -> bool {
    &&& states.len() == events.len() + 1
    &&& actions.len() == events.len()
    &&& states[0] == ResolveState::Probing
    &&& forall|k: int|
        0 <= k < events.len() ==> spec_step_rel(
            b,
            #[trigger] states[k],
            events[k],
            states[k + 1],
            #[trigger] actions[k],
        )
}

proof fn lemma_storing_implies_store(
    b: BlockView,
    states: Seq<ResolveState>,
    events: Seq<ResolveEvent>,
    actions: Seq<ResolveAction>,
    t: int,
)
    requires
        spec_is_run(b, states, events, actions),
        0 <= t < states.len(),
        states[t] == ResolveState::Storing,
    ensures
        exists|j: int|
            0 <= j < t && ((#[trigger] actions[j]) matches ResolveAction::Store(f, bytes)
                && bytes@.len() > 0),
    decreases t,
{
    if t == 0 {
        assert(states[0] == ResolveState::Probing);
        assert(false);
    } else {
        assert(spec_step_rel(b, states[t - 1], events[t - 1], states[t], actions[t - 1]));
        match states[t - 1] {
            ResolveState::Rasterizing { fallback } => {
                assert((actions[t - 1]) matches ResolveAction::Store(f, bytes) && bytes@.len()
                    > 0);
            },
            ResolveState::Storing => {
                lemma_storing_implies_store(b, states, events, actions, t - 1);
                let j0 = choose|j: int|
                    0 <= j < t - 1 && ((#[trigger] actions[j]) matches ResolveAction::Store(
                        f,
                        bytes,
                    ) && bytes@.len() > 0);
                assert(0 <= j0 < t && ((actions[j0]) matches ResolveAction::Store(f, bytes)
                    && bytes@.len() > 0));
            },
            _ => {
                assert(false);
            },
        }
    }
}

/// No-missing-artifact law: a run that ends with the block resolved either
/// found the cache entry already present, or wrote non-empty artifact bytes
/// to it before copying it out.  A compile failure alone therefore never
/// leaves a missing cache file: failing for good takes the fallback path
/// failing too, and then the block reports failure instead of resolving.
pub proof fn lemma_done_implies_artifact(
    b: BlockView,
    states: Seq<ResolveState>,
    events: Seq<ResolveEvent>,
    actions: Seq<ResolveAction>,
)
    requires
        spec_is_run(b, states, events, actions),
        states.last() == ResolveState::Done,
    ensures
        exists|k: int|
            0 <= k < events.len() && ((#[trigger] events[k]) is CacheHit
                || exists|j: int|
                0 <= j < k && ((#[trigger] actions[j]) matches ResolveAction::Store(f, bytes)
                    && bytes@.len() > 0)),
    decreases states.len(),
{
    let n = events.len() as int;
    assert(n >= 1) by {
        if n == 0 {
            assert(states.last() == states[0]);
        }
    }
    assert(spec_step_rel(b, states[n - 1], events[n - 1], states[n], actions[n - 1]));
    match states[n - 1] {
        ResolveState::Probing => {
            assert(events[n - 1] is CacheHit);
        },
        ResolveState::Storing => {
            lemma_storing_implies_store(b, states, events, actions, n - 1);
            let j0 = choose|j: int|
                0 <= j < n - 1 && ((#[trigger] actions[j]) matches ResolveAction::Store(f, bytes)
                    && bytes@.len() > 0);
            assert(0 <= n - 1 < events.len() && exists|j: int|
                0 <= j < n - 1 && ((#[trigger] actions[j]) matches ResolveAction::Store(f, bytes)
                    && bytes@.len() > 0));
        },
        ResolveState::Done => {
            let states2 = states.drop_last();
            let events2 = events.drop_last();
            let actions2 = actions.drop_last();
            assert(spec_is_run(b, states2, events2, actions2)) by {
                assert(forall|k: int|
                    0 <= k < events2.len() ==> #[trigger] states2[k] == states[k]
                        && states2[k + 1] == states[k + 1] && #[trigger] actions2[k] == actions[k]
                        && events2[k] == events[k]);
            }
            assert(states2.last() == ResolveState::Done);
            lemma_done_implies_artifact(b, states2, events2, actions2);
            let k0 = choose|k: int|
                0 <= k < events2.len() && ((#[trigger] events2[k]) is CacheHit
                    || exists|j: int|
                    0 <= j < k && ((#[trigger] actions2[j]) matches ResolveAction::Store(f, bytes)
                        && bytes@.len() > 0));
            assert(events2[k0] == events[k0]);
            if events2[k0] is CacheHit {
                assert((events[k0]) is CacheHit);
            } else {
                let j0 = choose|j: int|
                    0 <= j < k0 && ((#[trigger] actions2[j]) matches ResolveAction::Store(f, bytes)
                        && bytes@.len() > 0);
                assert(actions2[j0] == actions[j0]);
                assert(((actions[j0]) matches ResolveAction::Store(f, bytes) && bytes@.len() > 0));
            }
        },
        _ => {
            assert(false);
        },
    }
}

fn vec_contains_string(v: &Vec<String>, s: &String) -> (r: bool)
    ensures
        r == string_views(v@).contains(s@),
{
    let n: usize = v.len();
    let mut i: usize = 0;
    while i < n
        invariant
            0 <= i <= n,
            n == v@.len(),
            forall|k: int| 0 <= k < i ==> string_views(v@)[k] != s@,
        decreases n - i,
    {
        if str_eq(v[i].as_str(), s.as_str()) {
            proof {
                assert(string_views(v@)[i as int] == s@);
            }
            return true;
        }
        proof {
            assert(string_views(v@)[i as int] == v@[i as int]@);
        }
        i = i + 1;
    }
    false
}

/// The files to delete when a run ends: those present in the output
/// directory that no block of this run touched.
pub open spec fn spec_stale_files(dir: Seq<Seq<char>>, active: Seq<Seq<char>>) -> Seq<Seq<char>> {
    dir.filter(|f: Seq<char>| !active.contains(f))
}

/// Picks, from the files found in the output directory, exactly those no
/// block of this run produced; deleting them bounds storage growth as
/// diagrams come and go across edits.
pub fn stale_files(dir_files: &Vec<String>, active: &Vec<String>) -> (r: Vec<String>)
    ensures
        string_views(r@) == spec_stale_files(string_views(dir_files@), string_views(active@)),
{
    let mut r: Vec<String> = Vec::new();
    let n: usize = dir_files.len();
    let mut i: usize = 0;
    proof {
        assert(string_views(dir_files@).take(0) =~= Seq::<Seq<char>>::empty());
        reveal(Seq::filter);
        assert(string_views(r@) =~= Seq::<Seq<char>>::empty());
    }
    while i < n
        invariant
            0 <= i <= n,
            n == dir_files@.len(),
            string_views(r@) == spec_stale_files(
                string_views(dir_files@).take(i as int),
                string_views(active@),
            ),
        decreases n - i,
    {
        let ghost vs = string_views(dir_files@);
        proof {
            assert(vs.take(i + 1).drop_last() =~= vs.take(i as int));
            assert(vs.take(i + 1).last() == vs[i as int]);
            assert(vs[i as int] == dir_files@[i as int]@);
            reveal(Seq::filter);
        }
        if !vec_contains_string(active, &dir_files[i]) {
            let ghost rv = string_views(r@);
            r.push(dir_files[i].clone());
            proof {
                assert(string_views(r@) =~= rv.push(vs[i as int]));
                assert(vs.take(i + 1).filter(
                    |f: Seq<char>| !string_views(active@).contains(f),
                ) =~= rv.push(vs[i as int]));
            }
        } else {
            proof {
                assert(vs.take(i + 1).filter(
                    |f: Seq<char>| !string_views(active@).contains(f),
                ) =~= string_views(r@));
            }
        }
        i = i + 1;
    }
    proof {
        assert(string_views(dir_files@).take(n as int) =~= string_views(dir_files@));
    }
    r
}

} // verus!
