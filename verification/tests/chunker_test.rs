use amp_rs::indexing::chunker::{
    chunk_text, semantic_chunk, sliding_window_chunk, MAX_CHUNK_LINES, MIN_CHUNK_LINES,
    OVERLAP_LINES,
};

#[test]
fn test_sliding_window_chunking() {
    let lines: Vec<&str> = (0..100).map(|_| "line").collect();

    let chunks = sliding_window_chunk(&lines);
    assert!(!chunks.is_empty());

    for (start, end, _) in &chunks {
        let size = end - start;
        assert!(size <= MAX_CHUNK_LINES);
        assert!(size >= MIN_CHUNK_LINES || *end == lines.len());
    }
}

#[test]
fn test_semantic_chunk_rust() {
    let lines = vec![
        "use std::io;",
        "",
        "fn main() {",
        "    println!(\"Hello\");",
        "}",
        "",
        "fn helper() {",
        "    println!(\"Helper\");",
        "}",
    ];

    let chunks = semantic_chunk(&lines, "rust");
    assert!(chunks.is_some());

    let chunks = chunks.unwrap();
    assert!(!chunks.is_empty());
}

#[test]
fn test_semantic_chunk_python() {
    let lines = vec![
        "import sys",
        "",
        "def main():",
        "    print('Hello')",
        "",
        "class Helper:",
        "    def __init__(self):",
        "        pass",
    ];

    let chunks = semantic_chunk(&lines, "python");
    assert!(chunks.is_some());
}

#[test]
fn test_semantic_chunk_unknown_language() {
    let lines = vec!["code", "more code"];
    let chunks = semantic_chunk(&lines, "unknown");
    assert!(chunks.is_none());
}

#[test]
fn test_chunk_text_empty_file() {
    let chunks = chunk_text("", "/repo/empty.rs", "/repo", &Some("rust".to_string()));
    assert!(chunks.is_empty());
}

#[test]
fn test_chunk_text_rust_file() {
    let content = "fn main() {\n    println!(\"Hello\");\n}\n\nfn helper() {\n    println!(\"Helper\");\n}";
    let chunks = chunk_text(content, "/repo/test.rs", "/repo", &Some("rust".to_string()));
    assert!(!chunks.is_empty());
    for chunk in &chunks {
        assert_eq!(chunk.language, Some("rust".to_string()));
        assert!(!chunk.content.is_empty());
        assert_eq!(chunk.file_path, "/repo/test.rs");
        assert_eq!(chunk.repo_path, "/repo");
        assert_eq!(chunk.id.len(), 36);
    }
}

#[test]
fn test_chunk_text_preserves_line_numbers() {
    let content = "line 1\nline 2\nline 3\nline 4\nline 5\n";
    let chunks = chunk_text(content, "/repo/test.rs", "/repo", &None);
    assert_eq!(chunks.len(), 1);
    assert_eq!(chunks[0].start_line, 1);
    assert_eq!(chunks[0].end_line, 5);
    assert_eq!(chunks[0].chunk_type, "window");
    assert_eq!(chunks[0].content, "line 1\nline 2\nline 3\nline 4\nline 5");
}

#[test]
fn test_windows_exact_shape() {
    let lines: Vec<&str> = (0..100).map(|_| "line").collect();
    let chunks = sliding_window_chunk(&lines);
    let spans: Vec<(usize, usize)> = chunks.iter().map(|(s, e, _)| (*s, *e)).collect();
    assert_eq!(spans, vec![(0, 50), (47, 97), (94, 100)]);
    for (_, _, t) in &chunks {
        assert_eq!(t, "window");
    }
    assert_eq!(spans[1].0, spans[0].1 - OVERLAP_LINES);
}

#[test]
fn test_windows_short_text() {
    let lines: Vec<&str> = (0..3).map(|_| "x").collect();
    let chunks = sliding_window_chunk(&lines);
    assert_eq!(chunks.len(), 1);
    assert_eq!((chunks[0].0, chunks[0].1), (0, 3));
    let none: Vec<&str> = Vec::new();
    assert!(sliding_window_chunk(&none).is_empty());
}

#[test]
fn test_windows_leave_short_tail() {
    // With 52 lines the second window would start at 47 and hold 5 lines,
    // so no second window is made and the last two lines are not covered.
    let lines: Vec<&str> = (0..52).map(|_| "x").collect();
    let chunks = sliding_window_chunk(&lines);
    assert_eq!(chunks.len(), 1);
    assert_eq!((chunks[0].0, chunks[0].1), (0, 50));
}

#[test]
fn test_semantic_rust_spans() {
    let lines = vec![
        "use std::io;",
        "",
        "fn main() {",
        "    println!(\"Hello\");",
        "}",
        "",
        "fn helper() {",
        "    println!(\"Helper\");",
        "}",
    ];
    let chunks = semantic_chunk(&lines, "rust").unwrap();
    let spans: Vec<(usize, usize, String)> = chunks;
    assert_eq!(
        spans,
        vec![(2, 9, "semantic".to_string())]
    );
}

#[test]
fn test_chunks_within_text_and_bounded() {
    let mut content = String::new();
    for i in 0..130 {
        content.push_str(&format!("let x{} = {};\n", i, i));
    }
    let chunks = chunk_text(&content, "/r/a.txt", "/r", &None);
    assert!(!chunks.is_empty());
    for c in &chunks {
        assert!(1 <= c.start_line && c.start_line <= c.end_line && c.end_line <= 130);
        assert!(c.end_line - c.start_line + 1 <= MAX_CHUNK_LINES);
    }
}

#[test]
fn test_chunks_in_file_order_and_long_blocks_split() {
    let mut content = String::from("use a;\nuse b;\nuse c;\nuse d;\nuse e;\nuse f;\n");
    content.push_str("fn long() {\n");
    for i in 0..118 {
        content.push_str(&format!("    step({});\n", i));
    }
    content.push_str("}\n");
    content.push_str("fn short() {\n}\n");
    let chunks = chunk_text(&content, "/r/l.rs", "/r", &Some("rust".to_string()));
    let kinds: Vec<&str> = chunks.iter().map(|c| c.chunk_type.as_str()).collect();
    // The two-line function at the end gives no chunk.
    assert_eq!(kinds, vec!["header", "window", "window", "window"]);
    let starts: Vec<usize> = chunks.iter().map(|c| c.start_line).collect();
    assert_eq!(starts, vec![1, 7, 54, 101]);
    for w in chunks.windows(2) {
        assert!(w[0].start_line < w[1].start_line);
    }
    for c in &chunks {
        let size = c.end_line - c.start_line + 1;
        assert!(MIN_CHUNK_LINES <= size && size <= MAX_CHUNK_LINES);
    }
    assert_eq!(chunks[0].end_line, 6);
    assert_eq!(chunks[3].end_line, 126);
}

#[test]
fn test_semantic_short_blocks_dropped_and_long_header_splits() {
    let mut lines: Vec<String> = (0..60).map(|i| format!("// note {}", i)).collect();
    lines.push("fn a() {".to_string());
    lines.push("}".to_string());
    lines.push("fn b() {".to_string());
    lines.push("}".to_string());
    lines.push("fn c() {".to_string());
    lines.push("    body();".to_string());
    lines.push("}".to_string());
    let refs: Vec<&str> = lines.iter().map(|l| l.as_str()).collect();
    let spans = semantic_chunk(&refs, "rust").unwrap();
    assert_eq!(
        spans,
        vec![
            (0, 50, "window".to_string()),
            (47, 60, "window".to_string()),
        ]
    );
    for (s, e, _) in &spans {
        assert!(e - s >= MIN_CHUNK_LINES && e - s <= MAX_CHUNK_LINES);
    }
}

#[test]
fn test_semantic_whole_body_shorter_than_minimum() {
    let lines = vec!["fn a() {", "}"];
    let spans = semantic_chunk(&lines, "rust").unwrap();
    assert!(spans.is_empty());
    let one = vec!["fn a() {}"];
    assert!(semantic_chunk(&one, "rust").unwrap().is_empty());
    let chunks = chunk_text("fn a() {}", "/r/a.rs", "/r", &Some("rust".to_string()));
    assert!(chunks.is_empty());
}

#[test]
fn test_semantic_short_body_after_header_keeps_header() {
    let lines = vec!["// a", "// b", "// c", "// d", "// e", "// f", "fn a() {", "}"];
    let spans = semantic_chunk(&lines, "rust").unwrap();
    assert_eq!(spans, vec![(0, 6, "header".to_string())]);
}

#[test]
fn test_semantic_short_block_before_long_one_left_out() {
    let mut lines: Vec<String> = vec!["fn a() {".to_string(), "    one();".to_string(), "}".to_string()];
    lines.push("fn b() {".to_string());
    for i in 0..8 {
        lines.push(format!("    step({});", i));
    }
    lines.push("}".to_string());
    let refs: Vec<&str> = lines.iter().map(|l| l.as_str()).collect();
    let spans = semantic_chunk(&refs, "rust").unwrap();
    assert_eq!(spans, vec![(3, 13, "semantic".to_string())]);
}
