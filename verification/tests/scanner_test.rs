use amp_rs::indexing::scanner::{detect_language, is_indexable, scan_entry};

#[test]
fn test_detect_language() {
    assert_eq!(detect_language("test.rs"), Some("rust".to_string()));
    assert_eq!(detect_language("test.py"), Some("python".to_string()));
    assert_eq!(detect_language("test.js"), Some("javascript".to_string()));
    assert_eq!(detect_language("test.ts"), Some("typescript".to_string()));
    assert_eq!(detect_language("test.go"), Some("go".to_string()));
    assert_eq!(detect_language("test.java"), Some("java".to_string()));
    assert_eq!(detect_language("test.unknown"), None);
}

#[test]
fn test_is_indexable() {
    // Language must be present
    assert!(!is_indexable("test.bin", &None, None));

    // Valid language
    assert!(is_indexable("test.rs", &Some("rust".to_string()), None));

    // Skip known patterns
    let skip_paths = [
        "node_modules/test.js",
        "target/test.rs",
        ".git/test.rs",
        "__pycache__/test.py",
        "vendor/test.go",
        "dist/test.js",
        "build/test.rs",
        "test.min.js",
        "package-lock.json",
        "Cargo.lock",
    ];
    for skip_path in &skip_paths {
        assert!(!is_indexable(skip_path, &Some("rust".to_string()), None));
    }
}

#[test]
fn test_detect_language_all_extensions() {
    let cases = [
        ("a.tsx", "typescript"),
        ("a.jsx", "javascript"),
        ("a.c", "c"),
        ("a.h", "c"),
        ("a.cpp", "cpp"),
        ("a.hpp", "cpp"),
        ("a.cc", "cpp"),
        ("a.rb", "ruby"),
        ("a.sh", "shell"),
        ("a.bash", "shell"),
        ("a.toml", "toml"),
        ("a.yaml", "yaml"),
        ("a.yml", "yaml"),
        ("a.json", "json"),
        ("a.md", "markdown"),
        ("a.sql", "sql"),
        ("a.html", "html"),
        ("a.css", "css"),
    ];
    for (path, lang) in &cases {
        assert_eq!(detect_language(path), Some(lang.to_string()), "{}", path);
    }
}

#[test]
fn test_detect_language_paths() {
    assert_eq!(detect_language("/repo/src/main.rs"), Some("rust".to_string()));
    assert_eq!(detect_language("/repo/archive.tar.py"), Some("python".to_string()));
    assert_eq!(detect_language("/repo/Makefile"), None);
    assert_eq!(detect_language("/repo/.bashrc"), None);
    assert_eq!(detect_language("/repo/src/"), None);
    assert_eq!(detect_language("/repo/file.RS"), None);
    assert_eq!(detect_language(""), None);
}

#[test]
fn test_is_indexable_size_limit() {
    let rust = Some("rust".to_string());
    assert!(is_indexable("/r/a.rs", &rust, Some(1_000_000)));
    assert!(!is_indexable("/r/a.rs", &rust, Some(1_000_001)));
    assert!(is_indexable("/r/a.rs", &rust, Some(0)));
}

#[test]
fn test_scan_entry() {
    let f = scan_entry("/repo/src/lib.rs", "/repo", 120, 1700000000).unwrap();
    assert_eq!(f.path, "/repo/src/lib.rs");
    assert_eq!(f.repo_path, "/repo");
    assert_eq!(f.size, 120);
    assert_eq!(f.mtime, 1700000000);
    assert_eq!(f.language, Some("rust".to_string()));

    assert!(scan_entry("/repo/image.png", "/repo", 10, 1).is_none());
    assert!(scan_entry("/repo/target/x.rs", "/repo", 10, 1).is_none());
    assert!(scan_entry("/repo/big.rs", "/repo", 2_000_000, 1).is_none());
}
