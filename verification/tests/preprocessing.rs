//! Tests for the fence parser, the embed directive, diagram extraction and
//! anchor injection.

use tideflow_core::extract::inject_tikz_blocks;
use tideflow_core::fence::{normalize_option_value, parse_tikz_fence, tokenize_fence_info, unescape_quoted};
use tideflow_core::placeholder::{build_tikz_placeholder, escape_typst_string, format_scale_value};
use tideflow_core::preprocessor::{build_anchor_markup, offset_to_line_column, preprocess_markdown};

fn count_occurrences(hay: &str, needle: &str) -> usize {
    let mut count = 0;
    let mut rest = hay;
    while let Some(p) = rest.find(needle) {
        count += 1;
        rest = &rest[p + needle.len()..];
    }
    count
}

#[test]
fn parse_tikz_options_with_quotes() {
    let info = r#"tikz scale=0.75 preamble="\usetikzlibrary{calc}" format='vector'"#;
    let options = parse_tikz_fence(info).expect("tikz fence should parse");
    assert_eq!(options.scale.as_deref(), Some("0.75"));
    assert_eq!(options.preamble.as_deref(), Some(r"\usetikzlibrary{calc}"));
    assert_eq!(options.format.as_deref(), Some("vector"));
}

#[test]
fn injects_placeholder_with_multiple_options() {
    let markdown = r#"Intro
```tikz scale=auto preamble="\usetikzlibrary{arrows.meta}" format=png
\begin{tikzpicture}
  \draw (0,0) -- (1,1);
\end{tikzpicture}
```
"#;

    let transformed = inject_tikz_blocks(markdown).expect("extraction succeeds").0;
    let expected_preamble = format!(
        "preamble: \"{}\"",
        escape_typst_string("\\usetikzlibrary{arrows.meta}")
    );
    assert!(transformed.contains("#tikz_render"));
    assert!(transformed.contains("scale: auto"));
    assert!(transformed.contains(&expected_preamble));
    assert!(transformed.contains("format: \"png\""));
    assert!(!transformed.contains("```tikz"));
}

#[test]
fn parses_example_fence_with_unknown_macro_preamble() {
    let info = r#"tikz scale=0.75 preamble="\mylib{calc}" format='vector'"#;
    let options = parse_tikz_fence(info).expect("tikz fence should parse");
    assert_eq!(options.scale.as_deref(), Some("0.75"));
    assert_eq!(options.preamble.as_deref(), Some(r"\mylib{calc}"));
    assert_eq!(options.format.as_deref(), Some("vector"));
}

#[test]
fn non_tikz_fence_is_ordinary_code() {
    assert!(parse_tikz_fence("rust").is_none());
    assert!(parse_tikz_fence("").is_none());
    assert!(parse_tikz_fence("   ").is_none());
    assert!(parse_tikz_fence("{tikzcd} scale=1").is_none());
}

#[test]
fn marker_is_case_insensitive_and_punctuation_stripped() {
    assert!(parse_tikz_fence("TikZ").is_some());
    assert!(parse_tikz_fence("{tikz}").is_some());
    let options = parse_tikz_fence("[TIKZ] format=svg").unwrap();
    assert_eq!(options.format.as_deref(), Some("svg"));
}

#[test]
fn unknown_keys_are_dropped_and_later_values_win() {
    let options = parse_tikz_fence("tikz color=red scale=1 scale=2").unwrap();
    assert_eq!(options.scale.as_deref(), Some("2"));
    assert!(options.preamble.is_none());
    assert!(options.format.is_none());
}

#[test]
fn tokenizer_respects_quotes_and_separators() {
    let tokens = tokenize_fence_info("tikz a=\"x, y\" , b=1; c=2");
    assert_eq!(tokens, vec!["tikz", "a=\"x, y\"", "b=1", "c=2"]);
}

#[test]
fn tokenizer_carries_escaped_characters() {
    let tokens = tokenize_fence_info(r#"tikz p="a\"b""#);
    assert_eq!(tokens, vec!["tikz", r#"p="a\"b""#]);
}

#[test]
fn unescape_handles_known_and_unknown_escapes() {
    assert_eq!(unescape_quoted(r"a\nb"), "a\nb");
    assert_eq!(unescape_quoted(r"a\tb\rc"), "a\tb\rc");
    assert_eq!(unescape_quoted(r#"q\"q"#), "q\"q");
    assert_eq!(unescape_quoted(r"back\\slash"), r"back\slash");
    assert_eq!(unescape_quoted(r"\m"), r"\m");
    assert_eq!(unescape_quoted("end\\"), "end\\");
}

#[test]
fn normalize_strips_quotes_and_separators() {
    assert_eq!(normalize_option_value(" \"a b\" ").as_deref(), Some("a b"));
    assert_eq!(normalize_option_value("'c'").as_deref(), Some("c"));
    assert_eq!(normalize_option_value("bare,;").as_deref(), Some("bare"));
    assert_eq!(normalize_option_value("").as_deref(), Some(""));
    assert_eq!(normalize_option_value("\"").as_deref(), Some("\""));
}

#[test]
fn escape_typst_string_escapes_exactly() {
    assert_eq!(escape_typst_string("a\\b\"c\nd\re\tf"), "a\\\\b\\\"c\\nd\\re\\tf");
    assert_eq!(escape_typst_string("plain"), "plain");
    assert_eq!(escape_typst_string(""), "");
}

#[test]
fn scale_values_are_normalized() {
    assert_eq!(format_scale_value(""), "none");
    assert_eq!(format_scale_value("  "), "none");
    assert_eq!(format_scale_value("None"), "none");
    assert_eq!(format_scale_value("AUTO"), "auto");
    assert_eq!(format_scale_value("0.75"), "0.75");
    assert_eq!(format_scale_value("0.750"), "0.75");
    assert_eq!(format_scale_value("2."), "2");
    assert_eq!(format_scale_value(".5"), "0.5");
    assert_eq!(format_scale_value("+07"), "7");
    assert_eq!(format_scale_value("-0.0"), "-0");
    assert_eq!(format_scale_value("big"), "\"big\"");
}

#[test]
fn placeholder_contains_only_present_options() {
    let options = tideflow_core::fence::TikzFenceOptions {
        scale: None,
        preamble: None,
        format: None,
    };
    let p = build_tikz_placeholder("\\draw;", &options);
    assert_eq!(p, "<!--raw-typst #tikz_render(diagram: \"\\\\draw;\") -->\n");
}

#[test]
fn extraction_is_idempotent_on_its_own_output() {
    let markdown = "Before\n```tikz\n\\draw (0,0) -- (1,1);\n```\nAfter\n";
    let (first, blocks) = inject_tikz_blocks(markdown).unwrap();
    assert_eq!(blocks.len(), 1);
    assert_eq!(blocks[0].diagram, "\\draw (0,0) -- (1,1);\n");
    let (second, blocks2) = inject_tikz_blocks(&first).unwrap();
    assert_eq!(second, first);
    assert!(blocks2.is_empty());
}

#[test]
fn extraction_assigns_block_ids_and_paths_in_order() {
    let markdown = "```tikz\na\n```\n\n```tikz format=svg\nb\n```\n";
    let (_, blocks) = inject_tikz_blocks(markdown).unwrap();
    assert_eq!(blocks.len(), 2);
    assert_eq!(blocks[0].id, "tikz-0");
    assert_eq!(blocks[0].asset_extension, "png");
    assert_eq!(blocks[0].asset_path, "tikz/tikz-0.png");
    assert_eq!(blocks[1].id, "tikz-1");
    assert_eq!(blocks[1].asset_extension, "svg");
    assert_eq!(blocks[1].asset_path, "tikz/tikz-1.svg");
}

#[test]
fn rewritten_length_grows_by_inserted_snippets() {
    // Anchor injection only inserts, so the final length is the input
    // length plus the inserted markup.
    let markdown = "One\n\nTwo\n\nThree";
    let out = preprocess_markdown(markdown).unwrap();
    let inserted: usize = out
        .markdown
        .match_indices("<!--raw-typst #label(")
        .map(|_| 0)
        .count();
    assert_eq!(inserted, out.anchors.len());
    let snippet_total: usize = out.markdown.len() - markdown.len();
    assert!(snippet_total > 0);
    // Removing every injected line restores the original text.
    let stripped: String = out
        .markdown
        .lines()
        .filter(|l| !l.starts_with("<!--raw-typst #label("))
        .collect::<Vec<_>>()
        .join("\n");
    assert_eq!(stripped, markdown);
}

#[test]
fn leading_blank_line_gives_doc_heading_and_paragraph_anchors() {
    let out = preprocess_markdown("\n# Title\n\nHello").unwrap();
    assert_eq!(out.anchors.len(), 3);
    assert_eq!(out.anchors[0].id, "tf-doc-start");
    assert_eq!(out.anchors[0].offset, 0);
    assert_eq!(count_occurrences(&out.markdown, "#label("), 3);
    // Anchors come in document order.
    assert!(out.anchors[1].offset < out.anchors[2].offset);
}

#[test]
fn heading_at_offset_zero_is_deduplicated_against_doc_anchor() {
    // The document-start anchor claims offset 0, so a heading that also
    // starts at 0 is dropped, never overwritten.
    let out = preprocess_markdown("# Title\n\nHello").unwrap();
    assert_eq!(out.anchors.len(), 2);
    assert_eq!(out.anchors[0].id, "tf-doc-start");
    assert_eq!(count_occurrences(&out.markdown, "#label("), 2);
}

#[test]
fn quoted_line_gets_no_anchor() {
    let out = preprocess_markdown("> quoted text").unwrap();
    assert_eq!(out.anchors.len(), 1);
    assert_eq!(out.anchors[0].id, "tf-doc-start");
}

#[test]
fn content_after_blockquote_is_still_anchored() {
    let input = "> Para\n\nInner";
    let out = preprocess_markdown(input).unwrap();
    assert_eq!(out.anchors.len(), 2);
    assert_eq!(out.anchors[0].offset, 0);
    let inner_offset = input.find("Inner").unwrap();
    assert_eq!(out.anchors[1].offset, inner_offset);
}

#[test]
fn tables_carry_no_inner_anchor() {
    let input = "Intro\n\n| a | b |\n|---|---|\n| 1 | 2 |\n\nAfter";
    let out = preprocess_markdown(input).unwrap();
    let table_start = input.find("| a |").unwrap();
    let table_end = input.find("\n\nAfter").unwrap();
    let preceding: Vec<_> = out
        .anchors
        .iter()
        .filter(|a| a.offset <= table_start)
        .collect();
    // Exactly one anchor precedes the table (the document-start anchor,
    // which also covers the intro paragraph at offset zero).
    assert_eq!(preceding.len(), 1);
    for a in &out.anchors {
        assert!(
            a.offset <= table_start || a.offset >= table_end,
            "anchor {} sits inside the table span",
            a.id
        );
    }
    let after_offset = input.find("After").unwrap();
    assert!(out.anchors.iter().any(|a| a.offset == after_offset));
}

#[test]
fn anchor_ids_and_offsets_are_unique() {
    let out = preprocess_markdown("A\n\nB\n\n- x\n- y\n\n## H\n").unwrap();
    for i in 0..out.anchors.len() {
        for j in (i + 1)..out.anchors.len() {
            assert_ne!(out.anchors[i].id, out.anchors[j].id);
            assert_ne!(out.anchors[i].offset, out.anchors[j].offset);
        }
    }
}

#[test]
fn offset_to_line_column_counts_newlines_and_characters() {
    assert_eq!(offset_to_line_column("ab\ncd", 0), (0, 0));
    assert_eq!(offset_to_line_column("ab\ncd", 2), (0, 2));
    assert_eq!(offset_to_line_column("ab\ncd", 3), (1, 0));
    assert_eq!(offset_to_line_column("ab\ncd", 4), (1, 1));
    // Multi-byte characters count once per character.
    assert_eq!(offset_to_line_column("éa", 3), (0, 2));
    // An offset past the end is treated as the end.
    assert_eq!(offset_to_line_column("ab", 99), (0, 2));
}

#[test]
fn anchor_markup_adds_newline_only_mid_line() {
    assert_eq!(
        build_anchor_markup("abc", 0, "tf-doc-start"),
        "<!--raw-typst #label(\"tf-doc-start\") -->\n"
    );
    assert_eq!(
        build_anchor_markup("abc", 2, "tf-2-1"),
        "\n<!--raw-typst #label(\"tf-2-1\") -->\n"
    );
    assert_eq!(
        build_anchor_markup("a\nbc", 2, "tf-2-1"),
        "<!--raw-typst #label(\"tf-2-1\") -->\n"
    );
}

#[test]
fn soft_breaks_in_fence_content_become_newlines() {
    let markdown = "```tikz\n\\draw (0,0);\n\\draw (1,1);\n```\n";
    let (_, blocks) = inject_tikz_blocks(markdown).unwrap();
    assert_eq!(blocks.len(), 1);
    assert_eq!(blocks[0].diagram, "\\draw (0,0);\n\\draw (1,1);\n");
}
