use pata::diagnostics::EditorDiagnostic;
use pata::doc_store::DocStore;
use pata::document_format::{Position, Range};
use std::cell::Cell;

/// `diagnostics_for` with a computation that counts its runs.
fn diagnose(store: &mut DocStore, uri: &str, text: &str, runs: &Cell<usize>) -> Vec<EditorDiagnostic> {
    store.diagnostics_for(uri, text, || {
        runs.set(runs.get() + 1);
        Vec::new()
    })
}

#[test]
fn diagnostics_for_computes_on_first_call() {
    let mut store = DocStore::new();
    let runs = Cell::new(0);
    let diags = diagnose(&mut store, "file:///a.as", "text v1", &runs);
    assert!(diags.is_empty());
    assert_eq!(runs.get(), 1);
}

#[test]
fn diagnostics_for_reuses_cache_on_identical_text() {
    let mut store = DocStore::new();
    let runs = Cell::new(0);
    let _ = diagnose(&mut store, "file:///a.as", "same text", &runs);
    let _ = store.diagnostics_for("file:///a.as", "same text", || -> Vec<EditorDiagnostic> {
        panic!("must not recompute on a hash match")
    });
    assert_eq!(runs.get(), 1, "second identical-text call must be a cache hit, not a second recompute");
}

#[test]
fn diagnostics_for_recomputes_on_changed_text() {
    let mut store = DocStore::new();
    let runs = Cell::new(0);
    let _ = diagnose(&mut store, "file:///a.as", "v1", &runs);
    let _ = diagnose(&mut store, "file:///a.as", "v2", &runs);
    assert_eq!(runs.get(), 2, "different text must genuinely recompute, not reuse v1's cache entry");
}

#[test]
fn invalidate_forces_recompute_even_with_identical_text() {
    let mut store = DocStore::new();
    let runs = Cell::new(0);
    let _ = diagnose(&mut store, "file:///a.as", "same text", &runs);
    store.invalidate("file:///a.as");
    let _ = diagnose(&mut store, "file:///a.as", "same text", &runs);
    assert_eq!(runs.get(), 2, "an explicit invalidate must force recomputation on the next call, even with unchanged text");
}

#[test]
fn remove_clears_both_text_and_cache() {
    let mut store = DocStore::new();
    let runs = Cell::new(0);
    store.insert("file:///a.as".to_string(), "text".to_string());
    let _ = diagnose(&mut store, "file:///a.as", "text", &runs);
    store.remove("file:///a.as");
    assert_eq!(store.get("file:///a.as"), None);
    let _ = diagnose(&mut store, "file:///a.as", "text", &runs);
    assert_eq!(runs.get(), 2, "remove() must clear the cache entry, not just the text");
}

#[test]
fn different_uris_have_independent_cache_entries() {
    let mut store = DocStore::new();
    let runs = Cell::new(0);
    let _ = diagnose(&mut store, "file:///a.as", "same text", &runs);
    let _ = diagnose(&mut store, "file:///b.as", "same text", &runs);
    assert_eq!(runs.get(), 2, "two different URIs with identical text must not share a cache entry");
}

#[test]
fn cached_diagnostics_and_texts_are_returned() {
    let mut store = DocStore::new();
    let d = EditorDiagnostic {
        range: Range { start: Position { line: 1, character: 2 }, end: Position { line: 1, character: 5 } },
        code: "LINT101".to_string(),
        source: "ukaguzi".to_string(),
        message: "ndefu".to_string(),
    };
    let first = store.diagnostics_for_hash("file:///a.as", 7, || vec![d.clone()]);
    let again = store.diagnostics_for_hash("file:///a.as", 7, Vec::new);
    let other = store.diagnostics_for_hash("file:///a.as", 8, Vec::new);
    assert!(other.is_empty());
    assert_eq!(first.len(), 1);
    assert_eq!(again.len(), 1);
    assert_eq!(again[0].code, "LINT101");
    assert!(again[0].range == d.range);
    store.insert("file:///a.as".to_string(), "v1".to_string());
    store.insert("file:///b.as".to_string(), "b".to_string());
    store.insert("file:///a.as".to_string(), "v2".to_string());
    assert_eq!(store.get("file:///a.as").as_deref(), Some("v2"));
    let mut all = store.all();
    all.sort();
    assert_eq!(all, vec![("file:///a.as".to_string(), "v2".to_string()), ("file:///b.as".to_string(), "b".to_string())]);
}
