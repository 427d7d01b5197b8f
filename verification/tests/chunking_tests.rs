use nucleus_rag::decimal::u64_to_dec;
use nucleus_rag::errors::RagError;
use nucleus_rag::indexer::{chunk_text, is_indexable};

#[test]
fn test_chunk_text_small() {
    let text = "Hello";
    let chunks = chunk_text(text, 10, 2).unwrap();
    assert_eq!(chunks.len(), 1);
    assert_eq!(chunks[0], "Hello");
}

#[test]
fn test_chunk_text_with_overlap() {
    let text = "0123456789ABCDEF";
    let chunks = chunk_text(text, 10, 2).unwrap();

    assert_eq!(chunks.len(), 2);
    assert_eq!(chunks[0], "0123456789");
    assert_eq!(chunks[1], "89ABCDEF");
}

#[test]
fn test_is_indexable() {
    assert!(is_indexable("test.rs"));
    assert!(is_indexable("test.md"));
    assert!(!is_indexable("test.exe"));
    assert!(!is_indexable("test"));
}

#[test]
fn chunk_of_text_that_fits_is_the_text() {
    let chunks = chunk_text("abc", 5, 1).unwrap();
    assert_eq!(chunks, vec!["abc".to_string()]);
    let empty = chunk_text("", 4, 0).unwrap();
    assert_eq!(empty, vec![String::new()]);
}

#[test]
fn chunk_windows_step_and_final_window() {
    // 9 characters, window 4, step 3: windows at 0, 3, 6.
    let chunks = chunk_text("abcdefghi", 4, 1).unwrap();
    assert_eq!(chunks, vec!["abcd".to_string(), "defg".to_string(), "ghi".to_string()]);
}

#[test]
fn chunk_overlap_at_or_above_size_is_a_configuration_error() {
    assert_eq!(chunk_text("abcdef", 3, 3), Err(RagError::Config));
    assert_eq!(chunk_text("abcdef", 3, 7), Err(RagError::Config));
    assert_eq!(chunk_text("abcdef", 0, 0), Err(RagError::Config));
}

#[test]
fn indexable_extensions_cover_the_allow_list() {
    for name in [
        "a.rs", "b.go", "c.py", "d.js", "e.ts", "f.tsx", "g.jsx", "h.md", "i.txt",
        "dir/sub/file.rs",
    ] {
        assert!(is_indexable(name), "{name} should be indexable");
    }
    for name in ["a.RS", "b.c", "noext", ".rs", "dir/.rs", "x.", "x.rs/"] {
        assert!(!is_indexable(name), "{name} should not be indexable");
    }
}

#[test]
fn decimal_rendering_is_exact() {
    assert_eq!(u64_to_dec(0), "0");
    assert_eq!(u64_to_dec(7), "7");
    assert_eq!(u64_to_dec(10), "10");
    assert_eq!(u64_to_dec(12345), "12345");
    assert_eq!(u64_to_dec(u64::MAX), "18446744073709551615");
}
