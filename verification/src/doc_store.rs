//! The editor's open documents, and a diagnostics cache per document keyed by a hash of the
//! text it was computed for: a document whose text hashes the same is not analysed again.

use vstd::prelude::*;
use crate::diagnostics::EditorDiagnostic;
use crate::document_format::Range;
use crate::exports::{table_get, table_insert, table_map, table_remove};
use std::collections::hash_map::DefaultHasher;
use std::hash::{Hash, Hasher};

verus! {

/// The 64-bit hash that std's `DefaultHasher::new()` gives a text after `str::hash`.
pub uninterp spec fn text_hash(text: Seq<char>) -> u64;

/// Hashes `text` with a fresh `DefaultHasher` (`DefaultHasher::new`, `Hash::hash` for `str`,
/// `Hasher::finish`). std documents that every `DefaultHasher` made by `new` starts from the
/// same state (no per-process seed), so within one build of the program the hash depends on
/// the text alone; the algorithm itself is left unspecified and may differ between releases.
#[verifier::external_body]
fn hash_text(text: &str) -> (r: u64)
    ensures
        r == text_hash(text@),
{
    let mut h = DefaultHasher::new();
    text.hash(&mut h);
    h.finish()
}

/// A diagnostic as plain values: range, code, source, message.
pub type DiagnosticView = (Range, Seq<char>, Seq<char>, Seq<char>);

pub open spec fn diagnostic_view(d: EditorDiagnostic) -> DiagnosticView {
    (d.range, d.code@, d.source@, d.message@)
}

pub open spec fn diagnostics_view(v: Seq<EditorDiagnostic>) -> Seq<DiagnosticView> {
    v.map_values(|d: EditorDiagnostic| diagnostic_view(d))
}

fn copy_diagnostics(v: &Vec<EditorDiagnostic>) -> (r: Vec<EditorDiagnostic>)
    ensures
        diagnostics_view(r@) == diagnostics_view(v@),
{
    let mut out: Vec<EditorDiagnostic> = Vec::new();
    let mut i: usize = 0;
    while i < v.len()
        invariant
            i <= v.len(),
            out@.len() == i,
            forall|k: int| 0 <= k < i ==> diagnostic_view(#[trigger] out@[k]) == diagnostic_view(v@[k]),
        decreases v.len() - i,
    {
        let d = &v[i];
        out.push(
            EditorDiagnostic {
                range: d.range,
                code: d.code.clone(),
                source: d.source.clone(),
                message: d.message.clone(),
            },
        );
        i = i + 1;
    }
    assert(diagnostics_view(out@) =~= diagnostics_view(v@));
    out
}

/// Cached analyses by URI, as plain values.
pub type CacheView = Map<Seq<char>, (u64, Seq<DiagnosticView>)>;

/// Whether a request for `uri`'s diagnostics on `text` is answered from `cached`: an analysis
/// of `uri` is cached under the hash of `text`.
pub open spec fn is_hit(cached: CacheView, uri: Seq<char>, text: Seq<char>) -> bool {
    cached.contains_key(uri) && cached[uri].0 == text_hash(text)
}

/// What `diagnostics_for` leaves cached after a request for `uri` on `text` that computed
/// `fresh` when it was not a hit.
pub open spec fn cache_after(cached: CacheView, uri: Seq<char>, text: Seq<char>, fresh: Seq<DiagnosticView>) -> CacheView {
    if is_hit(cached, uri, text) {
        cached
    } else {
        cached.insert(uri, (text_hash(text), fresh))
    }
}

/// After a request for `uri` on `text`, a second request on the same text is a hit and gets
/// the diagnostics the first returned; once `uri` is invalidated or removed, the next request
/// computes afresh; the cached analyses of other URIs are left as they were.
pub proof fn law_cache_reuse(cached: CacheView, uri: Seq<char>, text: Seq<char>, fresh: Seq<DiagnosticView>, other: Seq<char>)
    requires
        other != uri,
    ensures
        is_hit(cache_after(cached, uri, text, fresh), uri, text),
        cache_after(cached, uri, text, fresh)[uri].1 == (if is_hit(cached, uri, text) {
            cached[uri].1
        } else {
            fresh
        }),
        !is_hit(cache_after(cached, uri, text, fresh).remove(uri), uri, text),
        cache_after(cached, uri, text, fresh).contains_key(other) == cached.contains_key(other),
        cached.contains_key(other) ==> cache_after(cached, uri, text, fresh)[other] == cached[other],
{
}

/// The diagnostics computed for a document and the hash of the text they were computed for.
pub struct CachedAnalysis {
    pub content_hash: u64,
    pub diagnostics: Vec<EditorDiagnostic>,
}

/// Open documents by URI, and the cached analysis of each.
pub struct DocStore {
    texts: Vec<(String, String)>,
    cache: Vec<(String, CachedAnalysis)>,
}

impl DocStore {
    /// The text of each open document, by URI.
    pub closed spec fn texts(&self) -> Map<Seq<char>, Seq<char>> {
        table_map(self.texts@).map_values(|t: String| t@)
    }

    /// The cached hash and diagnostics of each analysed document, by URI.
    pub closed spec fn cached(&self) -> CacheView {
        table_map(self.cache@).map_values(|c: CachedAnalysis| (c.content_hash, diagnostics_view(c.diagnostics@)))
    }

    /// No documents and nothing cached.
    pub fn new() -> (r: DocStore)
        ensures
            r.texts() == Map::<Seq<char>, Seq<char>>::empty(),
            r.cached() == Map::<Seq<char>, (u64, Seq<DiagnosticView>)>::empty(),
    {
        let r = DocStore { texts: Vec::new(), cache: Vec::new() };
        assert(r.texts() =~= Map::<Seq<char>, Seq<char>>::empty());
        assert(r.cached() =~= Map::<Seq<char>, (u64, Seq<DiagnosticView>)>::empty());
        r
    }

    /// Open or replace the document `uri`; the cache is left as it is.
    pub fn insert(&mut self, uri: String, text: String)
        ensures
            final(self).texts() == old(self).texts().insert(uri@, text@),
            final(self).cached() == old(self).cached(),
    {
        let ghost u = uri@;
        let ghost t = text@;
        let ghost before = self.texts@;
        table_insert(&mut self.texts, uri, text);
        assert(self.texts() =~= table_map(before).map_values(|s: String| s@).insert(u, t));
    }

    /// The text of the document `uri`, when it is open.
    pub fn get(&self, uri: &str) -> (r: Option<String>)
        ensures
            match r {
                Some(t) => self.texts().contains_key(uri@) && self.texts()[uri@] == t@,
                None => !self.texts().contains_key(uri@),
            },
    {
        match table_get(&self.texts, uri) {
            Some(t) => Some(t.clone()),
            None => None,
        }
    }

    /// Close the document `uri` and drop its cached analysis.
    pub fn remove(&mut self, uri: &str)
        ensures
            final(self).texts() == old(self).texts().remove(uri@),
            final(self).cached() == old(self).cached().remove(uri@),
    {
        let ghost t0 = self.texts@;
        let ghost c0 = self.cache@;
        table_remove(&mut self.texts, uri);
        table_remove(&mut self.cache, uri);
        assert(self.texts() =~= table_map(t0).map_values(|s: String| s@).remove(uri@));
        assert(self.cached() =~= table_map(c0).map_values(
            |c: CachedAnalysis| (c.content_hash, diagnostics_view(c.diagnostics@)),
        ).remove(uri@));
    }

    /// Every open document, as `(uri, text)`: read as a map from URIs, it is `texts()`.
    pub fn all(&self) -> (r: Vec<(String, String)>)
        ensures
            table_map(r@).map_values(|t: String| t@) == self.texts(),
    {
        let mut out: Vec<(String, String)> = Vec::new();
        let mut i: usize = 0;
        while i < self.texts.len()
            invariant
                i <= self.texts.len(),
                out@.len() == i,
                forall|k: int| 0 <= k < i ==> (#[trigger] out@[k]).0@ == self.texts@[k].0@ && out@[k].1@
                    == self.texts@[k].1@,
            decreases self.texts.len() - i,
        {
            out.push((self.texts[i].0.clone(), self.texts[i].1.clone()));
            i = i + 1;
        }
        proof {
            assert forall|n: Seq<char>| #[trigger] crate::exports::entry_from(out@, n, 0) is Some
                == crate::exports::entry_from(self.texts@, n, 0) is Some && (crate::exports::entry_from(
                out@,
                n,
                0,
            ) is Some ==> crate::exports::entry_from(out@, n, 0)->0@ == crate::exports::entry_from(
                self.texts@,
                n,
                0,
            )->0@) by {
                lemma_same_entries(out@, self.texts@, n, 0);
            }
            assert(table_map(out@).map_values(|t: String| t@) =~= self.texts());
        }
        out
    }

    /// Forget the cached analysis of `uri`.
    pub fn invalidate(&mut self, uri: &str)
        ensures
            final(self).texts() == old(self).texts(),
            final(self).cached() == old(self).cached().remove(uri@),
    {
        let ghost c0 = self.cache@;
        table_remove(&mut self.cache, uri);
        assert(self.cached() =~= table_map(c0).map_values(
            |c: CachedAnalysis| (c.content_hash, diagnostics_view(c.diagnostics@)),
        ).remove(uri@));
    }

    /// The diagnostics of `uri` for the text `text`: the cached ones when they were computed for
    /// a text with the same hash; otherwise `compute`'s, which are then cached under that hash.
    pub fn diagnostics_for<F: FnOnce() -> Vec<EditorDiagnostic>>(
        &mut self,
        uri: &str,
        text: &str,
        compute: F,
    ) -> (r: Vec<EditorDiagnostic>)
        requires
            call_requires(compute, ()),
        ensures
            final(self).texts() == old(self).texts(),
            ({
                let h = text_hash(text@);
                if is_hit(old(self).cached(), uri@, text@) {
                    &&& diagnostics_view(r@) == old(self).cached()[uri@].1
                    &&& final(self).cached() == old(self).cached()
                } else {
                    &&& call_ensures(compute, (), r)
                    &&& final(self).cached() == old(self).cached().insert(uri@, (h, diagnostics_view(r@)))
                }
            }),
    {
        let h = hash_text(text);
        self.diagnostics_for_hash(uri, h, compute)
    }

    /// The diagnostics of `uri` for a text hashing to `content_hash`: the cached ones when they
    /// were computed for that hash; otherwise `compute`'s, which are then cached for it.
    pub fn diagnostics_for_hash<F: FnOnce() -> Vec<EditorDiagnostic>>(
        &mut self,
        uri: &str,
        content_hash: u64,
        compute: F,
    ) -> (r: Vec<EditorDiagnostic>)
        requires
            call_requires(compute, ()),
        ensures
            final(self).texts() == old(self).texts(),
            ({
                let hit = old(self).cached().contains_key(uri@) && old(self).cached()[uri@].0 == content_hash;
                if hit {
                    &&& diagnostics_view(r@) == old(self).cached()[uri@].1
                    &&& final(self).cached() == old(self).cached()
                } else {
                    &&& call_ensures(compute, (), r)
                    &&& final(self).cached() == old(self).cached().insert(
                        uri@,
                        (content_hash, diagnostics_view(r@)),
                    )
                }
            }),
    {
        match table_get(&self.cache, uri) {
            Some(c) => {
                if c.content_hash == content_hash {
                    return copy_diagnostics(&c.diagnostics);
                }
            },
            None => {},
        }
        let diagnostics = compute();
        let kept = copy_diagnostics(&diagnostics);
        let ghost c0 = self.cache@;
        let ghost dv = diagnostics_view(kept@);
        let entry = CachedAnalysis { content_hash, diagnostics: kept };
        table_insert(&mut self.cache, uri.to_string(), entry);
        assert(self.cached() =~= table_map(c0).map_values(
            |c: CachedAnalysis| (c.content_hash, diagnostics_view(c.diagnostics@)),
        ).insert(uri@, (content_hash, dv)));
        diagnostics
    }
}

proof fn lemma_same_entries(a: Seq<(String, String)>, b: Seq<(String, String)>, n: Seq<char>, i: int)
    requires
        a.len() == b.len(),
        forall|k: int| 0 <= k < a.len() ==> (#[trigger] a[k]).0@ == b[k].0@ && a[k].1@ == b[k].1@,
    ensures
        crate::exports::entry_from(a, n, i) is Some == crate::exports::entry_from(b, n, i) is Some,
        crate::exports::entry_from(a, n, i) is Some ==> crate::exports::entry_from(a, n, i)->0@
            == crate::exports::entry_from(b, n, i)->0@,
    decreases a.len() - i,
{
    if 0 <= i < a.len() {
        assert(a[i].0@ == b[i].0@);
        lemma_same_entries(a, b, n, i + 1);
    }
}

} // verus!
