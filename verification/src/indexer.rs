//! Text chunking and file selection for directory indexing.

use vstd::prelude::*;

use crate::errors::RagError;

verus! {

/// The windows of `text` from offset `start` on: each is `size` characters,
/// except the last, which ends exactly at the end of the text; consecutive
/// windows start `step` characters apart.
pub open spec fn windows_from(text: Seq<char>, size: int, step: int, start: int) -> Seq<Seq<char>>
    decreases text.len() - start
        when 0 <= start < text.len() && 1 <= step <= size
{
    if start + size >= text.len() {
        seq![text.subrange(start, text.len() as int)]
    } else {
        seq![text.subrange(start, start + size)] + windows_from(text, size, step, start + step)
    }
}

/// The chunking of `text`: the whole text if it fits in one window, else
/// successive windows advancing by `chunk_size - overlap`.
pub open spec fn chunks_of(text: Seq<char>, chunk_size: int, overlap: int) -> Seq<Seq<char>> {
    if text.len() <= chunk_size {
        seq![text]
    } else {
        windows_from(text, chunk_size, chunk_size - overlap, 0)
    }
}

/// Text no longer than one window is one chunk, the text itself.
pub proof fn lemma_chunk_whole(text: Seq<char>, chunk_size: int, overlap: int)
    requires
        text.len() <= chunk_size,
    ensures
        chunks_of(text, chunk_size, overlap) == seq![text],
{
}

proof fn lemma_windows_index(text: Seq<char>, size: int, step: int, start: int, i: int)
    requires
        0 <= start < text.len(),
        1 <= step <= size,
        0 <= i < windows_from(text, size, step, start).len(),
    ensures
        start + i * step < text.len(),
        windows_from(text, size, step, start)[i] == text.subrange(
            start + i * step,
            vstd::math::min(start + i * step + size, text.len() as int),
        ),
    decreases i,
{
    if start + size >= text.len() {
        assert(i == 0);
        assert(i * step == 0) by (nonlinear_arith)
            requires
                i == 0,
        ;
    } else {
        if i == 0 {
            assert(i * step == 0) by (nonlinear_arith)
                requires
                    i == 0,
            ;
        } else {
            lemma_windows_index(text, size, step, start + step, i - 1);
            assert((start + step) + (i - 1) * step == start + i * step) by (nonlinear_arith);
            assert(windows_from(text, size, step, start)[i] == windows_from(
                text,
                size,
                step,
                start + step,
            )[i - 1]);
        }
    }
}

/// Chunk `i` is the `i`-th window in left-to-right scan order: it starts
/// exactly `i` steps in and ends one window later, or at the end of the
/// text.
pub proof fn lemma_chunk_window(text: Seq<char>, chunk_size: int, overlap: int, i: int)
    requires
        0 <= overlap < chunk_size,
        text.len() > chunk_size,
        0 <= i < chunks_of(text, chunk_size, overlap).len(),
    ensures
        i * (chunk_size - overlap) < text.len(),
        chunks_of(text, chunk_size, overlap)[i] == text.subrange(
            i * (chunk_size - overlap),
            vstd::math::min(i * (chunk_size - overlap) + chunk_size, text.len() as int),
        ),
{
    lemma_windows_index(text, chunk_size, chunk_size - overlap, 0, i);
}

/// Splits text into overlapping chunks.
///
/// Returns one chunk per window of `chunk_size` characters, stepping by
/// `chunk_size - overlap`; the final chunk ends exactly at the end of the
/// text. An overlap at or above the chunk size cannot advance and is
/// rejected as a configuration error.
pub fn chunk_text(text: &str, chunk_size: usize, overlap: usize) -> (r: Result<
    Vec<String>,
    RagError,
>)
    ensures
        overlap < chunk_size ==> match r {
            Ok(chunks) => chunks@.map_values(|s: String| s@) == chunks_of(
                text@,
                chunk_size as int,
                overlap as int,
            ),
            Err(_) => false,
        },
        overlap >= chunk_size ==> r == Err::<Vec<String>, RagError>(RagError::Config),
{
    if overlap >= chunk_size {
        return Err(RagError::Config);
    }
    let len = text.unicode_len();
    let mut chunks: Vec<String> = Vec::new();
    if len <= chunk_size {
        let whole = text.to_owned();
        chunks.push(whole);
        proof {
            assert(chunks@.map_values(|s: String| s@) =~= seq![text@]);
        }
        return Ok(chunks);
    }
    let step = chunk_size - overlap;
    let mut start: usize = 0;
    loop
        invariant
            overlap < chunk_size,
            step == chunk_size - overlap,
            1 <= step <= chunk_size,
            len == text@.len(),
            len > chunk_size,
            0 <= start < len,
            windows_from(text@, chunk_size as int, step as int, 0) == chunks@.map_values(
                |s: String| s@,
            ) + windows_from(text@, chunk_size as int, step as int, start as int),
        decreases len - start,
    {
        let end = if chunk_size < len - start {
            start + chunk_size
        } else {
            len
        };
        let window = text.substring_char(start, end).to_owned();
        let ghost pre_views = chunks@.map_values(|s: String| s@);
        chunks.push(window);
        proof {
            assert(chunks@.map_values(|s: String| s@) =~= pre_views.push(
                text@.subrange(start as int, end as int),
            ));
        }
        if end == len {
            proof {
                assert(windows_from(text@, chunk_size as int, step as int, start as int)
                    =~= seq![text@.subrange(start as int, len as int)]);
                assert(windows_from(text@, chunk_size as int, step as int, 0)
                    =~= chunks@.map_values(|s: String| s@));
            }
            return Ok(chunks);
        }
        proof {
            assert(windows_from(text@, chunk_size as int, step as int, start as int)
                =~= seq![text@.subrange(start as int, (start + chunk_size) as int)]
                + windows_from(text@, chunk_size as int, step as int, (start + step) as int));
            assert(pre_views + windows_from(text@, chunk_size as int, step as int, start as int)
                =~= chunks@.map_values(|s: String| s@) + windows_from(
                text@,
                chunk_size as int,
                step as int,
                (start + step) as int,
            ));
        }
        start = start + step;
    }
}

/// A file collected for indexing, with its path and contents.
#[derive(Debug, Clone)]
pub struct IndexedFile {
    /// Where the file was found.
    pub path: String,
    /// Its full text.
    pub content: String,
}

/// `s` ends in `.ext` inside its final path component: the extension is
/// preceded by a dot, the dot by a character of a non-empty stem, and no
/// path separator intervenes.
pub open spec fn has_extension(s: Seq<char>, ext: Seq<char>) -> bool {
    let n = s.len() as int;
    let k = ext.len() as int;
    &&& n > k + 1
    &&& s.subrange(n - k, n) == ext
    &&& s[n - k - 1] == '.'
    &&& s[n - k - 2] != '/'
    &&& forall|i: int| n - k <= i < n ==> s[i] != '/'
}

/// The extensions the directory indexer accepts.
pub open spec fn indexable_extension(p: Seq<char>) -> bool {
    ||| has_extension(p, "rs"@)
    ||| has_extension(p, "go"@)
    ||| has_extension(p, "py"@)
    ||| has_extension(p, "js"@)
    ||| has_extension(p, "ts"@)
    ||| has_extension(p, "tsx"@)
    ||| has_extension(p, "jsx"@)
    ||| has_extension(p, "md"@)
    ||| has_extension(p, "txt"@)
}

/// Checks if a file should be indexed, by its extension.
pub fn is_indexable(path: &str) -> (r: bool)
    ensures
        r == indexable_extension(path@),
{
    proof {
        reveal_strlit("rs");
        reveal_strlit("go");
        reveal_strlit("py");
        reveal_strlit("js");
        reveal_strlit("ts");
        reveal_strlit("tsx");
        reveal_strlit("jsx");
        reveal_strlit("md");
        reveal_strlit("txt");
    }
    has_ext(path, "rs") || has_ext(path, "go") || has_ext(path, "py") || has_ext(path, "js")
        || has_ext(path, "ts") || has_ext(path, "tsx") || has_ext(path, "jsx") || has_ext(
        path,
        "md",
    ) || has_ext(path, "txt")
}

/// Tests `has_extension` for one extension without a path separator.
fn has_ext(path: &str, ext: &str) -> (r: bool)
    requires
        ext@.len() < 100,
        forall|i: int| 0 <= i < ext@.len() ==> ext@[i] != '/',
    ensures
        r == has_extension(path@, ext@),
{
    let n = path.unicode_len();
    let k = ext.unicode_len();
    if n <= k + 1 {
        return false;
    }
    let suffix = path.substring_char(n - k, n).to_owned();
    let ext_string = ext.to_owned();
    if !suffix.eq(&ext_string) {
        return false;
    }
    proof {
        assert forall|i: int| n - k <= i < n implies path@[i] != '/' by {
            assert(path@.subrange(n - k, n as int)[i - (n - k)] == path@[i]);
        }
    }
    if path.get_char(n - k - 1) != '.' {
        return false;
    }
    let before = path.get_char(n - k - 2);
    before != '/'
}

} // verus!
