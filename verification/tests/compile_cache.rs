//! Tests for the cache key, the LaTeX document assembly, the resolve state
//! machine and the output-directory sweep.

use sha2::{Digest, Sha256};
use tideflow_core::cache::{cache_file_name, cache_key};
use tideflow_core::extract::TikzBlockMeta;
use tideflow_core::latex::{
    build_diagram_document, build_fallback_document, escape_latex_text,
    split_tikz_preamble_from_body, truncate_message,
};
use tideflow_core::pipeline::{
    pixel_dimensions, resolve_start, resolve_step, stale_files, ResolveAction, ResolveEvent,
    ResolveState,
};

fn block(source: &str, preamble: Option<&str>, ext: &str) -> TikzBlockMeta {
    TikzBlockMeta {
        id: "tikz-0".to_string(),
        diagram: source.to_string(),
        preamble: preamble.map(|p| p.to_string()),
        scale: None,
        format: None,
        asset_extension: ext.to_string(),
        asset_path: format!("tikz/tikz-0.{}", ext),
    }
}

#[test]
fn cache_key_is_deterministic_across_calls() {
    let b1 = block("\\draw (0,0) -- (1,1);", Some("\\usetikzlibrary{calc}"), "png");
    let b2 = block("\\draw (0,0) -- (1,1);", Some("\\usetikzlibrary{calc}"), "png");
    assert_eq!(cache_key(&b1), cache_key(&b2));
    assert_eq!(cache_key(&b1), cache_key(&b1));
}

#[test]
fn cache_key_distinguishes_every_ingredient() {
    let base = block("a", Some("p"), "png");
    assert_ne!(cache_key(&base), cache_key(&block("b", Some("p"), "png")));
    assert_ne!(cache_key(&base), cache_key(&block("a", Some("q"), "png")));
    assert_ne!(cache_key(&base), cache_key(&block("a", None, "png")));
    assert_ne!(cache_key(&base), cache_key(&block("a", Some("p"), "svg")));
}

#[test]
fn formats_png_and_svg_produce_distinct_cache_files() {
    let png = block("\\draw;", Some("p"), "png");
    let svg = block("\\draw;", Some("p"), "svg");
    let f1 = cache_file_name(&png);
    let f2 = cache_file_name(&svg);
    assert_ne!(f1, f2);
    assert!(f1.ends_with(".png"));
    assert!(f2.ends_with(".svg"));
}

#[test]
fn cache_key_matches_framed_digest() {
    // The key must be the lowercase hex SHA-256 of the length-framed
    // ingredients; computed here directly against the hash crate.
    let b = block("\\draw;", Some("pre"), "png");
    let mut input: Vec<u8> = Vec::new();
    input.extend_from_slice(&(b.diagram.len() as u64).to_le_bytes());
    input.extend_from_slice(b.diagram.as_bytes());
    input.push(1);
    input.extend_from_slice(&(3u64).to_le_bytes());
    input.extend_from_slice(b"pre");
    input.extend_from_slice(&(3u64).to_le_bytes());
    input.extend_from_slice(b"png");
    let mut hasher = Sha256::new();
    hasher.update(&input);
    let expected = hex::encode(hasher.finalize());
    assert_eq!(cache_key(&b), expected);
    assert_eq!(expected.len(), 64);
}

#[test]
fn preamble_lines_are_hoisted_wherever_they_appear() {
    let diagram = "\\draw (0,0);\n\\usetikzlibrary{calc}\n\\draw (1,1);";
    let (preamble, body) = split_tikz_preamble_from_body(diagram);
    assert_eq!(preamble, "\\usetikzlibrary{calc}\n");
    assert!(body.contains("\\draw (0,0);\n\\draw (1,1);"));
}

#[test]
fn document_delimiters_are_stripped_and_bare_bodies_wrapped() {
    let diagram = "\\begin{document}\n\\draw (0,0);\n\\end{document}";
    let (preamble, body) = split_tikz_preamble_from_body(diagram);
    assert_eq!(preamble, "");
    assert_eq!(body, "\\begin{tikzpicture}\n\\draw (0,0);\n\\end{tikzpicture}\n");
}

#[test]
fn explicit_environment_is_not_rewrapped() {
    let diagram = "\\begin{tikzpicture}\n\\draw;\n\\end{tikzpicture}";
    let (_, body) = split_tikz_preamble_from_body(diagram);
    assert_eq!(body, "\\begin{tikzpicture}\n\\draw;\n\\end{tikzpicture}");
}

#[test]
fn diagram_document_layout_is_exact() {
    let doc = build_diagram_document("\\draw;", Some("\\usepackage{amsmath}"));
    assert_eq!(
        doc,
        "\\documentclass[border=2pt]{standalone}\n\\usepackage{tikz}\n\\usepackage{amsmath}\n\\begin{document}\n\\begin{tikzpicture}\n\\draw;\n\\end{tikzpicture}\n\\end{document}\n"
    );
}

#[test]
fn latex_escaping_neutralizes_special_characters() {
    assert_eq!(escape_latex_text("50% of {x}_1 & $2 #3"), "50\\% of \\{x\\}\\_1 \\& \\$2 \\#3");
    assert_eq!(escape_latex_text("a\\b"), "a\\textbackslash{}b");
    assert_eq!(escape_latex_text("^~"), "\\^{}\\~{}");
}

#[test]
fn long_messages_are_flattened_and_capped() {
    assert_eq!(truncate_message("  a\nb  "), "a b");
    let long = "x".repeat(500);
    let capped = truncate_message(&long);
    assert_eq!(capped.chars().count(), 241);
    assert!(capped.ends_with('…'));
}

#[test]
fn fallback_document_renders_the_failure_message() {
    let doc = build_fallback_document("Tectonic failed (status 1).");
    assert!(!doc.is_empty());
    assert!(doc.contains("TikZ render failed:"));
    assert!(doc.contains("Tectonic failed (status 1)."));
    assert!(doc.starts_with("\\documentclass[border=6pt]{standalone}"));
}

#[test]
fn pixel_dimensions_are_clamped_to_the_supported_range() {
    assert_eq!(pixel_dimensions(0, 5000), (1, 4096));
    assert_eq!(pixel_dimensions(800, 600), (800, 600));
    assert_eq!(pixel_dimensions(4096, 4097), (4096, 4096));
}

#[test]
fn resolution_starts_with_a_cache_probe() {
    let b = block("\\draw;", None, "png");
    let (state, action) = resolve_start(&b);
    assert_eq!(state, ResolveState::Probing);
    match action {
        ResolveAction::ProbeCache(name) => assert_eq!(name, cache_file_name(&b)),
        other => panic!("unexpected action {:?}", other),
    }
}

#[test]
fn cache_hit_resolves_without_compiling() {
    let b = block("\\draw;", None, "png");
    let (state, action) = resolve_step(&b, ResolveState::Probing, &ResolveEvent::CacheHit);
    assert_eq!(state, ResolveState::Done);
    match action {
        ResolveAction::CopyToOutput(name, dest) => {
            assert_eq!(name, cache_file_name(&b));
            assert_eq!(dest, b.asset_path);
        }
        other => panic!("unexpected action {:?}", other),
    }
}

#[test]
fn compile_failure_still_yields_a_cached_artifact() {
    // Force a compiler error; the machine must compile the fallback
    // document and still store a non-empty artifact under the block's key.
    let b = block("\\draw (0,0) -- (1,1);", None, "png");
    let (s1, a1) = resolve_step(&b, ResolveState::Probing, &ResolveEvent::CacheMiss);
    assert_eq!(s1, ResolveState::Compiling { fallback: false });
    match &a1 {
        ResolveAction::Compile(doc) => assert!(doc.contains("\\draw (0,0) -- (1,1);")),
        other => panic!("unexpected action {:?}", other),
    }

    let (s2, a2) = resolve_step(&b, s1, &ResolveEvent::CompilerFailed("boom".to_string()));
    assert_eq!(s2, ResolveState::Compiling { fallback: true });
    match &a2 {
        ResolveAction::Compile(doc) => {
            assert!(doc.contains("TikZ render failed:"));
            assert!(doc.contains("boom"));
        }
        other => panic!("unexpected action {:?}", other),
    }

    let (s3, a3) = resolve_step(&b, s2, &ResolveEvent::CompilerOk(vec![1, 2, 3]));
    assert_eq!(s3, ResolveState::Rasterizing { fallback: true });
    match &a3 {
        ResolveAction::Render(pdf) => assert_eq!(pdf, &vec![1, 2, 3]),
        other => panic!("unexpected action {:?}", other),
    }

    let rgba = vec![255u8, 0, 0, 255];
    let (s4, a4) = resolve_step(
        &b,
        s3,
        &ResolveEvent::PageRendered { rgba, width: 1, height: 1 },
    );
    assert_eq!(s4, ResolveState::Storing);
    match &a4 {
        ResolveAction::Store(name, bytes) => {
            assert_eq!(name, &cache_file_name(&b));
            assert!(!bytes.is_empty());
            // A real PNG stream comes out of the encoder.
            assert_eq!(&bytes[..4], &[0x89, b'P', b'N', b'G']);
        }
        other => panic!("unexpected action {:?}", other),
    }

    let (s5, a5) = resolve_step(&b, s4, &ResolveEvent::Stored);
    assert_eq!(s5, ResolveState::Done);
    match a5 {
        ResolveAction::CopyToOutput(name, dest) => {
            assert_eq!(name, cache_file_name(&b));
            assert_eq!(dest, "tikz/tikz-0.png");
        }
        other => panic!("unexpected action {:?}", other),
    }
}

#[test]
fn failing_fallback_reports_and_isolates_the_block() {
    let b = block("bad", None, "png");
    let s = ResolveState::Compiling { fallback: true };
    let (s2, a) = resolve_step(&b, s, &ResolveEvent::CompilerFailed("fatal".to_string()));
    assert_eq!(s2, ResolveState::Failed);
    match a {
        ResolveAction::Report(m) => assert_eq!(m, "fatal"),
        other => panic!("unexpected action {:?}", other),
    }
}

#[test]
fn mismatched_events_are_ignored() {
    let b = block("x", None, "png");
    let (s, a) = resolve_step(&b, ResolveState::Done, &ResolveEvent::CacheMiss);
    assert_eq!(s, ResolveState::Done);
    assert!(matches!(a, ResolveAction::Ignore));
}

#[test]
fn stale_files_keeps_only_untouched_entries() {
    let dir = vec!["a.png".to_string(), "b.png".to_string(), "c.svg".to_string()];
    let active = vec!["b.png".to_string()];
    let stale = stale_files(&dir, &active);
    assert_eq!(stale, vec!["a.png".to_string(), "c.svg".to_string()]);
    assert!(stale_files(&dir, &dir).is_empty());
}
