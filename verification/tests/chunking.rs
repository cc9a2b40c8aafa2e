use gaia_rag::blocks::{assemble_blocks, find_matching_brace, BlockKind};
use gaia_rag::chunks::{chunks_with_limit, create_chunks};
use gaia_rag::classify::is_code_block;

#[test]
fn classifier_code_line() {
    assert!(is_code_block("function foo() {"));
}

#[test]
fn classifier_prose_line() {
    assert!(!is_code_block("The cat sat on the mat."));
}

#[test]
fn classifier_signals() {
    assert!(is_code_block("import numpy as np"));
    assert!(is_code_block("const x = 1;"));
    assert!(is_code_block("let y = 2;"));
    assert!(is_code_block("class Foo:"));
    assert!(is_code_block("x => x + 1"));
    assert!(is_code_block("fn main() {"));
    assert!(is_code_block("  }"));
    assert!(is_code_block("  return 1;"));
    assert!(is_code_block("  if (x) y();"));
    assert!(is_code_block("  for (i = 0; i < n; i++)"));
    assert!(is_code_block("  while (true)"));
    assert!(!is_code_block("importance is high"));
    assert!(!is_code_block("import"));
    assert!(!is_code_block("A classic tale"));
    assert!(!is_code_block(""));
}

#[test]
fn brace_body_stays_in_one_code_block() {
    let blocks = assemble_blocks("function f() {\n  return 1;\n}\n");
    assert_eq!(blocks.len(), 1);
    assert_eq!(blocks[0].kind, BlockKind::Code);
    assert_eq!(blocks[0].content, "function f() {\n  return 1;\n}");
}

#[test]
fn assembler_separates_code_and_prose() {
    let blocks = assemble_blocks("Some prose here\nimport numpy as np\nMore prose.");
    assert_eq!(blocks.len(), 3);
    assert_eq!(blocks[0].kind, BlockKind::Text);
    assert_eq!(blocks[0].content, "Some prose here");
    assert_eq!(blocks[1].kind, BlockKind::Code);
    assert_eq!(blocks[1].content, "import numpy as np");
    assert_eq!(blocks[2].kind, BlockKind::Text);
    assert_eq!(blocks[2].content, "More prose.");
}

#[test]
fn assembler_empty_document() {
    assert_eq!(assemble_blocks("").len(), 0);
    assert_eq!(assemble_blocks("\n\n").len(), 0);
}

#[test]
fn matching_brace_found() {
    // positions:              0123456789
    let r = find_matching_brace("a{b{c}d}e", 1);
    assert_eq!(r, 7);
}

#[test]
fn matching_brace_unmatched_runs_to_end() {
    let r = find_matching_brace("a{bcd", 1);
    assert_eq!(r, 5);
}

#[test]
fn short_paragraph_is_one_chunk() {
    let chunks = create_chunks("Just a short paragraph. Nothing special here.");
    assert_eq!(chunks.len(), 1);
    assert_eq!(chunks[0], "Just a short paragraph. Nothing special here.");
}

#[test]
fn block_exactly_at_the_bound_passes_through() {
    let chunks = chunks_with_limit("abcd.", 5);
    assert_eq!(chunks, vec!["abcd."]);
}

#[test]
fn empty_and_whitespace_documents_yield_no_chunks() {
    assert_eq!(create_chunks("").len(), 0);
    assert_eq!(create_chunks("   \n\t\n  ").len(), 0);
}

#[test]
fn oversized_code_block_splits_by_lines() {
    let text = "const a = 1;\nconst b = 2;\nconst c = 3;\nconst d = 4;";
    let chunks = chunks_with_limit(text, 30);
    assert_eq!(chunks, vec!["const a = 1;\nconst b = 2;", "const c = 3;\nconst d = 4;"]);
}

#[test]
fn oversized_single_line_stands_alone() {
    let long_line = format!("const data = \"{}\";", "x".repeat(50));
    let text = format!("const a = 1;\n{}\nconst b = 2;", long_line);
    let chunks = chunks_with_limit(&text, 30);
    assert_eq!(chunks.len(), 3);
    assert_eq!(chunks[0], "const a = 1;");
    assert_eq!(chunks[1], long_line);
    assert_eq!(chunks[2], "const b = 2;");
    assert!(chunks[1].len() > 30);
}

#[test]
fn oversized_text_block_splits_at_sentences() {
    let text = "One red fox ran far. Two wise owls sat still. Ten old cats slept well.";
    assert!(text.len() > 50);
    let chunks = chunks_with_limit(text, 50);
    assert_eq!(chunks, vec!["One red fox ran far.  Two wise owls sat still.", "Ten old cats slept well."]);
}

#[test]
fn oversized_sentence_stands_alone() {
    let long_sentence = format!("Where {} ends nobody knows.", "and on ".repeat(12));
    let text = format!("A tiny start. {} A tiny end.", long_sentence);
    let chunks = chunks_with_limit(&text, 40);
    assert_eq!(chunks.len(), 3);
    assert_eq!(chunks[0], "A tiny start.");
    assert_eq!(chunks[1], long_sentence);
    assert!(chunks[1].len() > 40);
    assert_eq!(chunks[2], "A tiny end.");
}

#[test]
fn trailing_fragment_without_terminator_is_dropped() {
    let text = format!("First point made. Second point made. {}", "word ".repeat(20));
    let chunks = chunks_with_limit(&text, 25);
    assert_eq!(chunks, vec!["First point made.", "Second point made."]);
}

#[test]
fn import_then_long_prose_end_to_end() {
    let prose = "The quick brown fox jumps over the lazy dog. ".repeat(60);
    assert!(prose.len() > 2000);
    let text = format!("import numpy as np\n{}", prose);
    let chunks = create_chunks(&text);
    assert_eq!(chunks[0], "import numpy as np");
    assert!(chunks.len() >= 3);
    for chunk in chunks.iter().skip(1) {
        assert!(chunk.len() <= 2000);
        assert!(chunk.ends_with('.'));
        assert!(chunk.starts_with("The quick"));
    }
}

#[test]
fn every_chunk_is_trimmed_and_nonempty() {
    let text = "  padded prose here.  \nimport os\n\n  more text follows.  ";
    let chunks = create_chunks(text);
    assert!(!chunks.is_empty());
    for chunk in &chunks {
        assert!(!chunk.is_empty());
        assert_eq!(chunk.trim(), chunk);
    }
}

#[test]
fn blocks_reproduce_the_document() {
    let text = "alpha beta gamma\nimport x\ndelta epsilon";
    let blocks = assemble_blocks(text);
    let rebuilt: Vec<&str> = blocks.iter().map(|b| b.content.as_str()).collect();
    assert_eq!(rebuilt.join("\n"), text);
}
