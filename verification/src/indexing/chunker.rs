//! Splitting source text into chunks of lines: by language boundaries where
//! the language is known, else by an overlapping sliding window.
use super::CodeChunk;
use crate::ids::new_uuid_v4;
use crate::text::{
    all_ws, chars_of, is_blank, join_line_range, join_lines, lines_view, split_lines, starts_with,
    spec_lines, string_from_chars, trim, trimmed_starts_with, str_eq,
};
use vstd::prelude::*;

verus! {

broadcast use vstd::string::group_string_axioms;

pub const MAX_CHUNK_LINES: usize = 50;

pub const MIN_CHUNK_LINES: usize = 5;

pub const OVERLAP_LINES: usize = 3;

/// A span of lines `[start, end)` with its chunk kind, as plain values.
pub open spec fn span_view(t: (usize, usize, String)) -> (int, int, Seq<char>) {
    (t.0 as int, t.1 as int, t.2@)
}

pub open spec fn spans_view(v: Seq<(usize, usize, String)>) -> Seq<(int, int, Seq<char>)> {
    v.map_values(|t: (usize, usize, String)| span_view(t))
}

/// The windows the sliding-window chunker produces from line `start` on, for
/// a text of `n` lines: at most `MAX_CHUNK_LINES` lines each, each next one
/// starting `OVERLAP_LINES` before the previous one ended, stopping once fewer
/// than `MIN_CHUNK_LINES` lines would follow the next start.
pub open spec fn windows_from(start: int, n: int) -> Seq<(int, int, Seq<char>)>
    decreases n - start,
{
    if start >= n {
        seq![]
    } else {
        let end = if n - start > 50 {
            start + 50
        } else {
            n
        };
        let next = if end >= 3 {
            end - 3
        } else {
            0
        };
        if n - next <= 5 {
            seq![(start, end, "window"@)]
        } else {
            seq![(start, end, "window"@)] + windows_from(next, n)
        }
    }
}

/// The sliding windows over a text of `n` lines.
pub open spec fn spec_windows(n: int) -> Seq<(int, int, Seq<char>)> {
    windows_from(0, n)
}

/// Spans moved `d` lines down.
pub open spec fn shift(s: Seq<(int, int, Seq<char>)>, d: int) -> Seq<(int, int, Seq<char>)> {
    s.map_values(|t: (int, int, Seq<char>)| (t.0 + d, t.1 + d, t.2))
}

/// The spans that the block of lines `[start, end)` between two boundaries
/// gives: windows when it is longer than `MAX_CHUNK_LINES`, the block itself
/// when it holds at least `MIN_CHUNK_LINES` lines, and none when it is
/// shorter.
pub open spec fn block_spans(start: int, end: int) -> Seq<(int, int, Seq<char>)> {
    if end - start > 50 {
        shift(spec_windows(end - start), start)
    } else if end - start >= 5 {
        seq![(start, end, "semantic"@)]
    } else {
        seq![]
    }
}

/// The spans of the first `k` blocks that the boundaries `b` delimit in a text
/// of `n` lines (the last block runs to the end of the text).
pub open spec fn blocks_upto(b: Seq<int>, n: int, k: int) -> Seq<(int, int, Seq<char>)>
    decreases k,
{
    if k <= 0 {
        seq![]
    } else {
        let next = if k < b.len() {
            b[k]
        } else {
            n
        };
        blocks_upto(b, n, k - 1) + block_spans(b[k - 1], next)
    }
}

/// The line prefixes that open a new block in each supported language.
pub open spec fn lang_patterns(lang: Seq<char>) -> Option<Seq<Seq<char>>> {
    if lang == "rust"@ {
        Some(seq!["fn "@, "pub fn "@, "impl "@, "struct "@, "enum "@, "trait "@, "mod "@])
    } else if lang == "python"@ {
        Some(seq!["def "@, "class "@, "async def "@])
    } else if lang == "javascript"@ || lang == "typescript"@ {
        Some(seq!["function "@, "class "@, "const "@, "export "@])
    } else if lang == "go"@ {
        Some(seq!["func "@, "type "@])
    } else {
        None
    }
}

/// The line, once trimmed, begins with one of the patterns.
pub open spec fn is_boundary(line: Seq<char>, pats: Seq<Seq<char>>) -> bool {
    exists|j: int| 0 <= j < pats.len() && starts_with(trim(line), #[trigger] pats[j])
}

/// A line opens a block for the patterns `pats` exactly when, trimmed, it
/// starts with one of them.
proof fn lemma_boundary_any(line: Seq<char>, pats: Seq<Seq<char>>)
    ensures
        is_boundary(line, pats) <==> exists|j: int| 0 <= j < pats.len() && starts_with(trim(line), pats[j]),
{
    if is_boundary(line, pats) {
        let j = choose|j: int| 0 <= j < pats.len() && starts_with(trim(line), #[trigger] pats[j]);
        assert(0 <= j < pats.len() && starts_with(trim(line), pats[j]));
    }
    if exists|j: int| 0 <= j < pats.len() && starts_with(trim(line), pats[j]) {
        let j = choose|j: int| 0 <= j < pats.len() && starts_with(trim(line), pats[j]);
        assert(starts_with(trim(line), pats[j]));
    }
}

/// The lines that open a block, language by language. Trimmed, a Python line
/// opens one when it starts with `def `, `class ` or `async def `; a Rust
/// line with `fn `, `pub fn `, `impl `, `struct `, `enum `, `trait ` or
/// `mod `; a JavaScript or TypeScript line with `function `, `class `,
/// `const ` or `export `; a Go line with `func ` or `type `.
pub proof fn lemma_block_openers(line: Seq<char>)
    ensures
        lang_patterns("python"@) matches Some(p) && (is_boundary(line, p) <==> (starts_with(
            trim(line),
            "def "@,
        ) || starts_with(trim(line), "class "@) || starts_with(trim(line), "async def "@))),
        lang_patterns("rust"@) matches Some(p) && (is_boundary(line, p) <==> (starts_with(
            trim(line),
            "fn "@,
        ) || starts_with(trim(line), "pub fn "@) || starts_with(trim(line), "impl "@) || starts_with(
            trim(line),
            "struct "@,
        ) || starts_with(trim(line), "enum "@) || starts_with(trim(line), "trait "@) || starts_with(
            trim(line),
            "mod "@,
        ))),
        lang_patterns("javascript"@) matches Some(p) && (is_boundary(line, p) <==> (starts_with(
            trim(line),
            "function "@,
        ) || starts_with(trim(line), "class "@) || starts_with(trim(line), "const "@) || starts_with(
            trim(line),
            "export "@,
        ))),
        lang_patterns("typescript"@) matches Some(p) && (is_boundary(line, p) <==> (starts_with(
            trim(line),
            "function "@,
        ) || starts_with(trim(line), "class "@) || starts_with(trim(line), "const "@) || starts_with(
            trim(line),
            "export "@,
        ))),
        lang_patterns("go"@) matches Some(p) && (is_boundary(line, p) <==> (starts_with(
            trim(line),
            "func "@,
        ) || starts_with(trim(line), "type "@))),
{
    reveal_strlit("rust");
    reveal_strlit("python");
    reveal_strlit("javascript");
    reveal_strlit("typescript");
    reveal_strlit("go");
    assert("python"@.len() == 6 && "rust"@.len() == 4 && "javascript"@.len() == 10);
    assert("typescript"@.len() == 10 && "go"@.len() == 2);
    assert("python"@ != "rust"@);
    assert("javascript"@ != "rust"@ && "javascript"@ != "python"@);
    assert("typescript"@[0] != "javascript"@[0]);
    assert("typescript"@ != "rust"@ && "typescript"@ != "python"@ && "typescript"@ != "javascript"@);
    assert("go"@ != "rust"@ && "go"@ != "python"@ && "go"@ != "javascript"@ && "go"@ != "typescript"@);
    let t = trim(line);
    let py = lang_patterns("python"@)->0;
    assert(py == seq!["def "@, "class "@, "async def "@]);
    lemma_boundary_any(line, py);
    if starts_with(t, "def "@) || starts_with(t, "class "@) || starts_with(t, "async def "@) {
        if starts_with(t, "def "@) {
            assert(starts_with(t, py[0]));
        } else if starts_with(t, "class "@) {
            assert(starts_with(t, py[1]));
        } else {
            assert(starts_with(t, py[2]));
        }
    }
    let rs = lang_patterns("rust"@)->0;
    assert(rs == seq!["fn "@, "pub fn "@, "impl "@, "struct "@, "enum "@, "trait "@, "mod "@]);
    lemma_boundary_any(line, rs);
    if starts_with(t, "fn "@) {
        assert(starts_with(t, rs[0]));
    }
    if starts_with(t, "pub fn "@) {
        assert(starts_with(t, rs[1]));
    }
    if starts_with(t, "impl "@) {
        assert(starts_with(t, rs[2]));
    }
    if starts_with(t, "struct "@) {
        assert(starts_with(t, rs[3]));
    }
    if starts_with(t, "enum "@) {
        assert(starts_with(t, rs[4]));
    }
    if starts_with(t, "trait "@) {
        assert(starts_with(t, rs[5]));
    }
    if starts_with(t, "mod "@) {
        assert(starts_with(t, rs[6]));
    }
    let js = lang_patterns("javascript"@)->0;
    assert(js == seq!["function "@, "class "@, "const "@, "export "@]);
    lemma_boundary_any(line, js);
    let ts = lang_patterns("typescript"@)->0;
    assert(ts == js);
    if starts_with(t, "function "@) {
        assert(starts_with(t, js[0]));
    }
    if starts_with(t, "class "@) {
        assert(starts_with(t, js[1]));
    }
    if starts_with(t, "const "@) {
        assert(starts_with(t, js[2]));
    }
    if starts_with(t, "export "@) {
        assert(starts_with(t, js[3]));
    }
    let go = lang_patterns("go"@)->0;
    assert(go == seq!["func "@, "type "@]);
    lemma_boundary_any(line, go);
    if starts_with(t, "func "@) {
        assert(starts_with(t, go[0]));
    }
    if starts_with(t, "type "@) {
        assert(starts_with(t, go[1]));
    }
}

/// Indices, in increasing order, of the boundary lines among the first `k`.
pub open spec fn bounds_upto(lines: Seq<Seq<char>>, pats: Seq<Seq<char>>, k: int) -> Seq<int>
    decreases k,
{
    if k <= 0 {
        seq![]
    } else if is_boundary(lines[k - 1], pats) {
        bounds_upto(lines, pats, k - 1).push(k - 1)
    } else {
        bounds_upto(lines, pats, k - 1)
    }
}

/// The starts of the chunks that the first `k` block boundaries `b` open: a
/// boundary fewer than `MIN_CHUNK_LINES` lines after the start of the chunk
/// being built does not open a chunk, so short blocks join the chunk before.
pub open spec fn group_starts(b: Seq<int>, k: int) -> Seq<int>
    decreases k,
{
    if k <= 1 {
        seq![b[0]]
    } else {
        let g = group_starts(b, k - 1);
        if b[k - 1] - g.last() >= 5 {
            g.push(b[k - 1])
        } else {
            g
        }
    }
}

/// The chunk starts for the boundaries `b` of a text of `n` lines: those of
/// `group_starts`, where a last chunk shorter than `MIN_CHUNK_LINES` lines
/// joins the one before it.
pub open spec fn merged_starts(b: Seq<int>, n: int) -> Seq<int> {
    let g = group_starts(b, b.len() as int);
    if g.len() > 1 && n - g.last() < 5 {
        g.drop_last()
    } else {
        g
    }
}

/// The spans of the file header, the `h` lines before the first block: the
/// header itself, or sliding windows over it when it is longer than
/// `MAX_CHUNK_LINES`.
pub open spec fn header_spans(h: int) -> Seq<(int, int, Seq<char>)> {
    if h > 50 {
        spec_windows(h)
    } else {
        seq![(0int, h, "header"@)]
    }
}

/// The spans that semantic chunking gives, or `None` where the language is
/// unsupported or no line opens a block: a header longer than
/// `MIN_CHUNK_LINES` lines, then the block between each boundary and the
/// next (the last running to the end of the text), each split into sliding
/// windows when longer than `MAX_CHUNK_LINES` and left out when shorter than
/// `MIN_CHUNK_LINES`. Where that leaves no span at all, short blocks are
/// joined instead: the chunks start at `merged_starts` (a lone chunk shorter
/// than `MIN_CHUNK_LINES` lines still gives no span).
pub open spec fn spec_semantic(lines: Seq<Seq<char>>, lang: Seq<char>) -> Option<
    Seq<(int, int, Seq<char>)>,
> {
    match lang_patterns(lang) {
        None => None,
        Some(pats) => {
            let n = lines.len() as int;
            let b = bounds_upto(lines, pats, n);
            if b.len() == 0 {
                None
            } else {
                let head = if b[0] > 5 {
                    header_spans(b[0])
                } else {
                    seq![]
                };
                let plain = head + blocks_upto(b, n, b.len() as int);
                if plain.len() > 0 {
                    Some(plain)
                } else {
                    let m = merged_starts(b, n);
                    Some(blocks_upto(m, n, m.len() as int))
                }
            }
        }
    }
}

/// Line indices in increasing order, each below `n`.
pub open spec fn increasing_below(m: Seq<int>, n: int) -> bool {
    &&& forall|i: int| 0 <= i < m.len() ==> 0 <= #[trigger] m[i] < n
    &&& forall|i: int, j: int| 0 <= i < j < m.len() ==> #[trigger] m[i] < #[trigger] m[j]
}

/// Chunk starts begin at the first boundary, lie below `n`, and any two are
/// at least `MIN_CHUNK_LINES` lines apart.
pub open spec fn starts_spaced(m: Seq<int>, first: int, n: int) -> bool {
    &&& m.len() >= 1
    &&& m[0] == first
    &&& forall|i: int| 0 <= i < m.len() ==> first <= #[trigger] m[i] < n
    &&& forall|i: int, j: int| 0 <= i < j < m.len() ==> #[trigger] m[j] - #[trigger] m[i] >= 5
}

proof fn lemma_group_starts(b: Seq<int>, n: int, k: int)
    requires
        1 <= k <= b.len(),
        forall|i: int| 0 <= i < b.len() ==> 0 <= #[trigger] b[i] < n,
        forall|i: int, j: int| 0 <= i < j < b.len() ==> #[trigger] b[i] < #[trigger] b[j],
    ensures
        starts_spaced(group_starts(b, k), b[0], n),
        group_starts(b, k).last() <= b[k - 1],
    decreases k,
{
    if k > 1 {
        lemma_group_starts(b, n, k - 1);
        let g = group_starts(b, k - 1);
        assert(b[k - 2] < b[k - 1]);
        if b[k - 1] - g.last() >= 5 {
            let h = g.push(b[k - 1]);
            assert forall|i: int| 0 <= i < h.len() implies b[0] <= #[trigger] h[i] < n by {
                if i < g.len() {
                    assert(h[i] == g[i]);
                }
                assert(b[0] <= b[k - 1]) by {
                    if k - 1 > 0 {
                        assert(b[0] < b[k - 1]);
                    }
                }
            }
            assert forall|i: int, j: int| 0 <= i < j < h.len() implies #[trigger] h[j] - #[trigger] h[i] >= 5 by {
                assert(h[i] == g[i]);
                if j < g.len() {
                    assert(h[j] == g[j]);
                } else {
                    if i < g.len() - 1 {
                        assert(g[g.len() - 1] - g[i] >= 5);
                    }
                }
            }
        }
    }
}

proof fn lemma_merged_starts(b: Seq<int>, n: int)
    requires
        b.len() >= 1,
        forall|i: int| 0 <= i < b.len() ==> 0 <= #[trigger] b[i] < n,
        forall|i: int, j: int| 0 <= i < j < b.len() ==> #[trigger] b[i] < #[trigger] b[j],
    ensures
        starts_spaced(merged_starts(b, n), b[0], n),
        merged_starts(b, n).len() == 1 || n - merged_starts(b, n).last() >= 5,
{
    lemma_group_starts(b, n, b.len() as int);
    let g = group_starts(b, b.len() as int);
    if g.len() > 1 && n - g.last() < 5 {
        let m = g.drop_last();
        assert forall|i: int| 0 <= i < m.len() implies b[0] <= #[trigger] m[i] < n by {
            assert(m[i] == g[i]);
        }
        assert forall|i: int, j: int| 0 <= i < j < m.len() implies #[trigger] m[j] - #[trigger] m[i] >= 5 by {
            assert(m[i] == g[i]);
            assert(m[j] == g[j]);
        }
        assert(g[g.len() - 1] - g[g.len() - 2] >= 5);
        assert(m.last() == g[g.len() - 2]);
    }
}

/// Every span lies inside a text of `n` lines and is non-empty.
pub open spec fn spans_within(s: Seq<(int, int, Seq<char>)>, n: int) -> bool {
    forall|k: int| 0 <= k < s.len() ==> 0 <= (#[trigger] s[k]).0 < s[k].1 <= n
}

/// Shape of the sliding windows: they start at `start`, each holds at most
/// `MAX_CHUNK_LINES` lines and exactly that many unless it reaches the end,
/// each next one starts `OVERLAP_LINES` before the previous one ends, and the
/// last ends at most two lines before the end of the text.
pub proof fn lemma_windows_from(start: int, n: int)
    requires
        0 <= start < n,
    ensures
        windows_from(start, n).len() >= 1,
        windows_from(start, n)[0].0 == start,
        spans_within(windows_from(start, n), n),
        forall|k: int|
            0 <= k < windows_from(start, n).len() ==> {
                let w = #[trigger] windows_from(start, n)[k];
                &&& start <= w.0
                &&& w.1 - w.0 <= 50
                &&& (w.1 - w.0 == 50 || w.1 == n)
                &&& w.2 == "window"@
            },
        forall|k: int|
            0 <= k < windows_from(start, n).len() - 1 ==> #[trigger] windows_from(start, n)[k
                + 1].0 == windows_from(start, n)[k].1 - 3,
        windows_from(start, n).last().1 >= n - 2,
    decreases n - start,
{
    let w = windows_from(start, n);
    let end = if n - start > 50 {
        start + 50
    } else {
        n
    };
    let next = if end >= 3 {
        end - 3
    } else {
        0
    };
    if n - next <= 5 {
    } else {
        lemma_windows_from(next, n);
        let rest = windows_from(next, n);
        assert(w == seq![(start, end, "window"@)] + rest);
        assert forall|k: int| 0 <= k < w.len() - 1 implies #[trigger] w[k + 1].0 == w[k].1 - 3 by {
            assert(w[k + 1] == rest[k]);
            assert(w[0] == (start, end, "window"@));
            assert(end == start + 50);
            if k > 0 {
                assert(w[k] == rest[k - 1]);
                assert(rest[(k - 1) + 1].0 == rest[k - 1].1 - 3);
            }
        }
        assert forall|k: int| 0 <= k < w.len() implies 0 <= (#[trigger] w[k]).0 < w[k].1 <= n by {
            if k > 0 {
                assert(w[k] == rest[k - 1]);
            }
        }
        assert forall|k: int|
            0 <= k < w.len() implies {
                let x = #[trigger] w[k];
                &&& start <= x.0
                &&& x.1 - x.0 <= 50
                &&& (x.1 - x.0 == 50 || x.1 == n)
                &&& x.2 == "window"@
            } by {
            if k > 0 {
                assert(w[k] == rest[k - 1]);
            }
        }
        assert(w.last() == rest.last());
    }
}

/// Sliding windows over `n` lines, the spans that `sliding_window_chunk` gives.
pub fn window_spans(n: usize) -> (r: Vec<(usize, usize, String)>)
    ensures
        spans_view(r@) == spec_windows(n as int),
{
    let mut chunks: Vec<(usize, usize, String)> = Vec::new();
    let mut start: usize = 0;
    while start < n
        invariant_except_break
            start <= n,
            spans_view(chunks@) + windows_from(start as int, n as int) == spec_windows(n as int),
        ensures
            spans_view(chunks@) == spec_windows(n as int),
        decreases n - start,
    {
        let end = if n - start > MAX_CHUNK_LINES {
            start + MAX_CHUNK_LINES
        } else {
            n
        };
        let ghost old_chunks = chunks@;
        let ghost s0 = start as int;
        let ghost rest = windows_from(start as int, n as int);
        chunks.push((start, end, String::from_str("window")));
        assert(spans_view(chunks@) =~= spans_view(old_chunks).push(
            (start as int, end as int, "window"@),
        ));
        start = if end >= OVERLAP_LINES {
            end - OVERLAP_LINES
        } else {
            0
        };
        if n - start <= MIN_CHUNK_LINES {
            assert(rest == seq![(s0, end as int, "window"@)]) by {
                assert(rest =~= seq![(s0, end as int, "window"@)]);
            }
            assert(spans_view(chunks@) =~= spans_view(old_chunks) + rest);
            break ;
        }
        assert(spans_view(chunks@) + windows_from(start as int, n as int) =~= spans_view(old_chunks)
            + rest);
    }
    chunks
}


/// Integer views of line indices.
pub open spec fn ints_view(s: Seq<usize>) -> Seq<int> {
    s.map_values(|x: usize| x as int)
}

/// The spans an optional list of spans stands for.
pub open spec fn opt_spans_view(o: Option<Vec<(usize, usize, String)>>) -> Option<
    Seq<(int, int, Seq<char>)>,
> {
    match o {
        None => None,
        Some(v) => Some(spans_view(v@)),
    }
}

/// The boundaries found among the first `k` lines are increasing indices
/// below `k`.
pub proof fn lemma_bounds_sorted(lines: Seq<Seq<char>>, pats: Seq<Seq<char>>, k: int)
    requires
        0 <= k <= lines.len(),
    ensures
        forall|i: int|
            0 <= i < bounds_upto(lines, pats, k).len() ==> 0 <= #[trigger] bounds_upto(
                lines,
                pats,
                k,
            )[i] < k,
        forall|i: int, j: int|
            0 <= i < j < bounds_upto(lines, pats, k).len() ==> #[trigger] bounds_upto(
                lines,
                pats,
                k,
            )[i] < #[trigger] bounds_upto(lines, pats, k)[j],
    decreases k,
{
    if k > 0 {
        lemma_bounds_sorted(lines, pats, k - 1);
        let prev = bounds_upto(lines, pats, k - 1);
        let cur = bounds_upto(lines, pats, k);
        if is_boundary(lines[k - 1], pats) {
            assert(cur == prev.push(k - 1));
            assert forall|i: int| 0 <= i < cur.len() implies 0 <= #[trigger] cur[i] < k by {
                if i < prev.len() {
                    assert(cur[i] == prev[i]);
                }
            }
            assert forall|i: int, j: int|
                0 <= i < j < cur.len() implies #[trigger] cur[i] < #[trigger] cur[j] by {
                assert(cur[i] == prev[i]);
                if j < prev.len() {
                    assert(cur[j] == prev[j]);
                }
            }
        } else {
            assert(cur == prev);
        }
    }
}

/// The block prefixes for `language`, as character vectors.
fn language_patterns(language: &str) -> (r: Option<Vec<Vec<char>>>)
    ensures
        match lang_patterns(language@) {
            None => r is None,
            Some(p) => r is Some && lines_view(r->0@) == p,
        },
{
    let mut v: Vec<Vec<char>> = Vec::new();
    if str_eq(language, "rust") {
        v.push(chars_of("fn "));
        v.push(chars_of("pub fn "));
        v.push(chars_of("impl "));
        v.push(chars_of("struct "));
        v.push(chars_of("enum "));
        v.push(chars_of("trait "));
        v.push(chars_of("mod "));
        assert(lines_view(v@) =~= seq![
            "fn "@,
            "pub fn "@,
            "impl "@,
            "struct "@,
            "enum "@,
            "trait "@,
            "mod "@,
        ]);
    } else if str_eq(language, "python") {
        v.push(chars_of("def "));
        v.push(chars_of("class "));
        v.push(chars_of("async def "));
        assert(lines_view(v@) =~= seq!["def "@, "class "@, "async def "@]);
    } else if str_eq(language, "javascript") || str_eq(language, "typescript") {
        v.push(chars_of("function "));
        v.push(chars_of("class "));
        v.push(chars_of("const "));
        v.push(chars_of("export "));
        assert(lines_view(v@) =~= seq!["function "@, "class "@, "const "@, "export "@]);
    } else if str_eq(language, "go") {
        v.push(chars_of("func "));
        v.push(chars_of("type "));
        assert(lines_view(v@) =~= seq!["func "@, "type "@]);
    } else {
        return None;
    }
    Some(v)
}

/// Whether `line` opens a block, given the block prefixes.
fn line_is_boundary(line: &Vec<char>, pats: &Vec<Vec<char>>) -> (r: bool)
    ensures
        r == is_boundary(line@, lines_view(pats@)),
{
    let mut j: usize = 0;
    while j < pats.len()
        invariant
            j <= pats@.len(),
            forall|i: int|
                0 <= i < j ==> !starts_with(trim(line@), #[trigger] lines_view(pats@)[i]),
        decreases pats@.len() - j,
    {
        if trimmed_starts_with(line, &pats[j]) {
            assert(starts_with(trim(line@), lines_view(pats@)[j as int]));
            return true;
        }
        j = j + 1;
    }
    false
}

/// Indices of the lines that open a block.
fn find_boundaries(lines: &Vec<Vec<char>>, pats: &Vec<Vec<char>>) -> (r: Vec<usize>)
    ensures
        ints_view(r@) == bounds_upto(lines_view(lines@), lines_view(pats@), lines@.len() as int),
{
    let mut b: Vec<usize> = Vec::new();
    let mut i: usize = 0;
    while i < lines.len()
        invariant
            i <= lines@.len(),
            ints_view(b@) == bounds_upto(lines_view(lines@), lines_view(pats@), i as int),
        decreases lines@.len() - i,
    {
        let ghost before = b@;
        assert(lines_view(lines@)[i as int] == lines@[i as int]@);
        if line_is_boundary(&lines[i], pats) {
            b.push(i);
            assert(ints_view(b@) =~= ints_view(before).push(i as int));
        }
        i = i + 1;
    }
    b
}

/// Appends the spans of the block `[start, end)`.
fn push_block_spans(chunks: &mut Vec<(usize, usize, String)>, start: usize, end: usize)
    requires
        start <= end,
    ensures
        spans_view(final(chunks)@) == spans_view(old(chunks)@) + block_spans(
            start as int,
            end as int,
        ),
{
    let len = end - start;
    if len > MAX_CHUNK_LINES {
        let sub = window_spans(len);
        let ghost target = spans_view(old(chunks)@) + block_spans(start as int, end as int);
        let mut k: usize = 0;
        while k < sub.len()
            invariant
                k <= sub@.len(),
                start <= end,
                len == end - start,
                len > 50,
                spans_view(sub@) == spec_windows(len as int),
                spans_view(chunks@) == spans_view(old(chunks)@) + shift(
                    spec_windows(len as int),
                    start as int,
                ).take(k as int),
            decreases sub@.len() - k,
        {
            proof {
                lemma_windows_from(0, len as int);
                assert(spans_view(sub@)[k as int] == span_view(sub@[k as int]));
            }
            let s = sub[k].0;
            let e = sub[k].1;
            let t = sub[k].2.clone();
            let ghost before = chunks@;
            chunks.push((start + s, start + e, t));
            proof {
                assert(spans_view(chunks@) =~= spans_view(before).push(
                    (start + s, start + e, t@),
                ));
                assert(shift(spec_windows(len as int), start as int).take(k + 1) =~= shift(
                    spec_windows(len as int),
                    start as int,
                ).take(k as int).push((start + s, start + e, t@)));
            }
            k = k + 1;
        }
        assert(shift(spec_windows(len as int), start as int).take(sub@.len() as int) =~= shift(
            spec_windows(len as int),
            start as int,
        ));
    } else if len >= MIN_CHUNK_LINES {
        let ghost before = chunks@;
        chunks.push((start, end, String::from_str("semantic")));
        assert(spans_view(chunks@) =~= spans_view(before).push(
            (start as int, end as int, "semantic"@),
        ));
    } else {
        assert(spans_view(chunks@) =~= spans_view(old(chunks)@) + block_spans(
            start as int,
            end as int,
        ));
    }
}

/// The chunk starts that `merged_starts` gives for the boundaries `b` of a
/// text of `n` lines.
fn merged_chunk_starts(b: &Vec<usize>, n: usize) -> (g: Vec<usize>)
    requires
        b@.len() >= 1,
        increasing_below(ints_view(b@), n as int),
    ensures
        ints_view(g@) == merged_starts(ints_view(b@), n as int),
{
    let ghost bv = ints_view(b@);
    assert(bv.len() == b@.len());
    let mut g: Vec<usize> = Vec::new();
    g.push(b[0]);
    assert(ints_view(g@) =~= group_starts(bv, 1));
    let mut k: usize = 1;
    while k < b.len()
        invariant
            1 <= k <= b@.len(),
            bv == ints_view(b@),
            bv.len() == b@.len(),
            increasing_below(bv, n as int),
            ints_view(g@) == group_starts(bv, k as int),
        decreases b@.len() - k,
    {
        proof {
            lemma_group_starts(bv, n as int, k as int);
            assert(bv[k as int] == b@[k as int]);
            assert(bv[k - 1] < bv[k as int]);
        }
        let last = g[g.len() - 1];
        assert(last as int == group_starts(bv, k as int).last());
        let ghost before = g@;
        if b[k] - last >= MIN_CHUNK_LINES {
            g.push(b[k]);
            assert(ints_view(g@) =~= ints_view(before).push(bv[k as int]));
        }
        assert(group_starts(bv, (k + 1) as int) == if bv[(k + 1) - 1] - group_starts(
            bv,
            k as int,
        ).last() >= 5 {
            group_starts(bv, k as int).push(bv[(k + 1) - 1])
        } else {
            group_starts(bv, k as int)
        });
        k = k + 1;
    }
    proof {
        lemma_group_starts(bv, n as int, bv.len() as int);
    }
    let gl = g.len();
    if gl > 1 && n - g[gl - 1] < MIN_CHUNK_LINES {
        let ghost before = g@;
        g.pop();
        assert(ints_view(g@) =~= ints_view(before).drop_last());
    }
    g
}

/// Appends the spans of the blocks that start at `starts` in a text of `n`
/// lines (the last block running to the end of the text).
fn push_blocks(chunks: &mut Vec<(usize, usize, String)>, starts: &Vec<usize>, n: usize)
    requires
        increasing_below(ints_view(starts@), n as int),
    ensures
        spans_view(final(chunks)@) == spans_view(old(chunks)@) + blocks_upto(
            ints_view(starts@),
            n as int,
            starts@.len() as int,
        ),
{
    let ghost mv = ints_view(starts@);
    let ghost head = spans_view(chunks@);
    assert(mv.len() == starts@.len());
    assert(head + blocks_upto(mv, n as int, 0) =~= head);
    let mut k: usize = 0;
    while k < starts.len()
        invariant
            k <= starts@.len(),
            mv == ints_view(starts@),
            mv.len() == starts@.len(),
            increasing_below(mv, n as int),
            head == spans_view(old(chunks)@),
            spans_view(chunks@) == head + blocks_upto(mv, n as int, k as int),
        decreases starts@.len() - k,
    {
        let start = starts[k];
        let end = if k + 1 < starts.len() {
            starts[k + 1]
        } else {
            n
        };
        proof {
            assert(mv[k as int] == start);
            if k + 1 < starts.len() {
                assert(mv[k + 1] == end);
                assert(mv[k as int] < mv[k + 1]);
            }
        }
        push_block_spans(chunks, start, end);
        assert(head + blocks_upto(mv, n as int, k + 1) =~= head + blocks_upto(mv, n as int, k as int)
            + block_spans(start as int, end as int));
        k = k + 1;
    }
}

/// Semantic spans over lines given as character vectors.
pub fn semantic_spans(lines: &Vec<Vec<char>>, language: &str) -> (r: Option<
    Vec<(usize, usize, String)>,
>)
    ensures
        opt_spans_view(r) == spec_semantic(lines_view(lines@), language@),
{
    let pats = match language_patterns(language) {
        None => return None,
        Some(p) => p,
    };
    let ghost lv = lines_view(lines@);
    let ghost pv = lines_view(pats@);
    let n = lines.len();
    let b = find_boundaries(lines, &pats);
    if b.len() == 0 {
        return None;
    }
    proof {
        lemma_bounds_sorted(lv, pv, n as int);
    }
    let ghost bv = ints_view(b@);
    assert(bv.len() == b@.len());
    assert(increasing_below(bv, n as int));
    let b0 = b[0];
    assert(bv[0] == b0);
    let mut chunks: Vec<(usize, usize, String)> = if b0 > MAX_CHUNK_LINES {
        window_spans(b0)
    } else if b0 > MIN_CHUNK_LINES {
        let mut h: Vec<(usize, usize, String)> = Vec::new();
        h.push((0, b0, String::from_str("header")));
        assert(spans_view(h@) =~= header_spans(b0 as int));
        h
    } else {
        Vec::new()
    };
    let ghost head = spans_view(chunks@);
    assert(b0 <= 5 ==> head =~= Seq::<(int, int, Seq<char>)>::empty());
    push_blocks(&mut chunks, &b, n);
    if chunks.len() > 0 {
        return Some(chunks);
    }
    let g = merged_chunk_starts(&b, n);
    proof {
        lemma_merged_starts(bv, n as int);
        let mv = ints_view(g@);
        assert forall|i: int, j: int| 0 <= i < j < mv.len() implies #[trigger] mv[i] < #[trigger] mv[j] by {
            assert(mv[j] - mv[i] >= 5);
        }
    }
    let mut body: Vec<(usize, usize, String)> = Vec::new();
    push_blocks(&mut body, &g, n);
    assert(spans_view(body@) =~= blocks_upto(ints_view(g@), n as int, g@.len() as int));
    Some(body)
}


/// Every span lies inside a text of `n` lines and holds at most
/// `MAX_CHUNK_LINES` lines.
pub open spec fn spans_bounded(s: Seq<(int, int, Seq<char>)>, n: int) -> bool {
    &&& spans_within(s, n)
    &&& forall|k: int| 0 <= k < s.len() ==> (#[trigger] s[k]).1 - s[k].0 <= 50
}

/// Every span holds at least `MIN_CHUNK_LINES` lines.
pub open spec fn spans_sized(s: Seq<(int, int, Seq<char>)>) -> bool {
    forall|k: int| 0 <= k < s.len() ==> (#[trigger] s[k]).1 - s[k].0 >= 5
}

proof fn lemma_windows_bounded(n: int)
    requires
        0 <= n,
    ensures
        spans_bounded(spec_windows(n), n),
        forall|k: int| 0 <= k < spec_windows(n).len() ==> (#[trigger] spec_windows(n)[k]).2 == "window"@,
{
    if n > 0 {
        lemma_windows_from(0, n);
    }
}

proof fn lemma_windows_min(start: int, n: int)
    requires
        0 <= start,
        n - start > 5,
    ensures
        forall|k: int| 0 <= k < windows_from(start, n).len() ==> (#[trigger] windows_from(start, n)[k]).1
            - windows_from(start, n)[k].0 > 5,
    decreases n - start,
{
    let end = if n - start > 50 {
        start + 50
    } else {
        n
    };
    let next = if end >= 3 {
        end - 3
    } else {
        0
    };
    let w = windows_from(start, n);
    if n - next > 5 {
        lemma_windows_min(next, n);
        let rest = windows_from(next, n);
        assert(w == seq![(start, end, "window"@)] + rest);
        assert forall|k: int| 0 <= k < w.len() implies (#[trigger] w[k]).1 - w[k].0 > 5 by {
            if k > 0 {
                assert(w[k] == rest[k - 1]);
            }
        }
    }
}

proof fn lemma_block_spans_bounded(start: int, end: int)
    requires
        0 <= start < end,
    ensures
        spans_bounded(block_spans(start, end), end),
        spans_sized(block_spans(start, end)),
        forall|k: int| 0 <= k < block_spans(start, end).len() ==> start <= (#[trigger] block_spans(start, end)[k]).0,
{
    let len = end - start;
    if len > 50 {
        lemma_windows_from(0, len);
        lemma_windows_min(0, len);
        let w = spec_windows(len);
        let sh = shift(w, start);
        assert forall|k: int| 0 <= k < sh.len() implies 0 <= (#[trigger] sh[k]).0 < sh[k].1 <= end by {
            assert(sh[k] == (w[k].0 + start, w[k].1 + start, w[k].2));
        }
        assert forall|k: int| 0 <= k < sh.len() implies start <= (#[trigger] sh[k]).0 && sh[k].1 - sh[k].0 <= 50
            && sh[k].1 - sh[k].0 >= 5 by {
            assert(sh[k] == (w[k].0 + start, w[k].1 + start, w[k].2));
        }
    }
}

proof fn lemma_blocks_bounded(m: Seq<int>, n: int, k: int)
    requires
        0 <= k <= m.len(),
        increasing_below(m, n),
    ensures
        spans_bounded(blocks_upto(m, n, k), n),
        spans_sized(blocks_upto(m, n, k)),
    decreases k,
{
    if k > 0 {
        lemma_blocks_bounded(m, n, k - 1);
        let prev = blocks_upto(m, n, k - 1);
        let next = if k < m.len() {
            m[k]
        } else {
            n
        };
        if k < m.len() {
            assert(m[k - 1] < m[k]);
        }
        assert(0 <= m[k - 1] < n);
        lemma_block_spans_bounded(m[k - 1], next);
        let blk = block_spans(m[k - 1], next);
        let cur = blocks_upto(m, n, k);
        assert(cur == prev + blk);
        assert forall|i: int| 0 <= i < cur.len() implies 0 <= (#[trigger] cur[i]).0 < cur[i].1 <= n && (cur[i].1
            - cur[i].0 <= 50) && cur[i].1 - cur[i].0 >= 5 by {
            if i < prev.len() {
                assert(cur[i] == prev[i]);
            } else {
                assert(cur[i] == blk[i - prev.len()]);
            }
        }
    }
}

/// Semantic spans lie inside the text and each holds from `MIN_CHUNK_LINES`
/// to `MAX_CHUNK_LINES` lines.
pub proof fn lemma_semantic_bounded(lines: Seq<Seq<char>>, lang: Seq<char>)
    ensures
        spec_semantic(lines, lang) matches Some(s) ==> spans_bounded(s, lines.len() as int)
            && spans_sized(s),
{
    if let Some(pats) = lang_patterns(lang) {
        let n = lines.len() as int;
        let b = bounds_upto(lines, pats, n);
        if b.len() > 0 {
            lemma_bounds_sorted(lines, pats, n);
            lemma_blocks_bounded(b, n, b.len() as int);
            let body = blocks_upto(b, n, b.len() as int);
            let head = if b[0] > 5 {
                header_spans(b[0])
            } else {
                seq![]
            };
            if b[0] > 50 {
                lemma_windows_bounded(b[0]);
                lemma_windows_min(0, b[0]);
            }
            let s = head + body;
            assert forall|k: int| 0 <= k < s.len() implies 0 <= (#[trigger] s[k]).0 < s[k].1 <= n
                && s[k].1 - s[k].0 <= 50 && s[k].1 - s[k].0 >= 5 by {
                if k < head.len() {
                    assert(s[k] == head[k]);
                } else {
                    assert(s[k] == body[k - head.len()]);
                }
            }
            lemma_merged_starts(b, n);
            let m = merged_starts(b, n);
            assert forall|i: int, j: int| 0 <= i < j < m.len() implies #[trigger] m[i] < #[trigger] m[j] by {
                assert(m[j] - m[i] >= 5);
            }
            lemma_blocks_bounded(m, n, m.len() as int);
        }
    }
}

/// The character views of a slice of string slices.
pub open spec fn str_lines_view(v: Seq<&str>) -> Seq<Seq<char>> {
    v.map_values(|l: &str| l@)
}

fn lines_to_chars(lines: &[&str]) -> (r: Vec<Vec<char>>)
    ensures
        lines_view(r@) == str_lines_view(lines@),
{
    let mut r: Vec<Vec<char>> = Vec::new();
    let mut i: usize = 0;
    while i < lines.len()
        invariant
            i <= lines@.len(),
            lines_view(r@) == str_lines_view(lines@).take(i as int),
        decreases lines@.len() - i,
    {
        let ghost before = r@;
        let line: &str = lines[i];
        let cv = chars_of(line);
        assert(cv@ == lines@[i as int]@);
        r.push(cv);
        assert(lines_view(r@) =~= lines_view(before).push(cv@));
        assert(str_lines_view(lines@).take(i + 1) =~= str_lines_view(lines@).take(i as int).push(
            lines@[i as int]@,
        ));
        i = i + 1;
    }
    assert(str_lines_view(lines@).take(lines@.len() as int) =~= str_lines_view(lines@));
    r
}

/// Sliding-window chunking with overlap: spans `(start, end, "window")` of
/// at most `MAX_CHUNK_LINES` lines, see `spec_windows`.
pub fn sliding_window_chunk(lines: &[&str]) -> (r: Vec<(usize, usize, String)>)
    ensures
        spans_view(r@) == spec_windows(lines@.len() as int),
{
    window_spans(lines.len())
}

/// Semantic chunking by language block boundaries, see `spec_semantic`;
/// `None` for an unsupported language or when no line opens a block.
pub fn semantic_chunk(lines: &[&str], language: &str) -> (r: Option<Vec<(usize, usize, String)>>)
    ensures
        opt_spans_view(r) == spec_semantic(str_lines_view(lines@), language@),
{
    let v = lines_to_chars(lines);
    semantic_spans(&v, language)
}

/// An optional string as an optional character sequence.
pub open spec fn opt_str_view(o: Option<String>) -> Option<Seq<char>> {
    match o {
        Some(s) => Some(s@),
        None => None,
    }
}

/// The spans chunking uses: semantic ones where the language supports them,
/// sliding windows otherwise.
pub open spec fn spec_spans_for(lines: Seq<Seq<char>>, language: Option<Seq<char>>) -> Seq<
    (int, int, Seq<char>),
> {
    match language {
        Some(l) => match spec_semantic(lines, l) {
            Some(s) => s,
            None => spec_windows(lines.len() as int),
        },
        None => spec_windows(lines.len() as int),
    }
}

/// The text of a span: its lines joined with newlines.
pub open spec fn span_text(lines: Seq<Seq<char>>, t: (int, int, Seq<char>)) -> Seq<char> {
    join_lines(lines.subrange(t.0, t.1))
}

/// The first `k` spans, without those whose text is all whitespace.
pub open spec fn kept_spans(lines: Seq<Seq<char>>, spans: Seq<(int, int, Seq<char>)>, k: int) -> Seq<
    (int, int, Seq<char>),
>
    decreases k,
{
    if k <= 0 {
        seq![]
    } else if all_ws(span_text(lines, spans[k - 1])) {
        kept_spans(lines, spans, k - 1)
    } else {
        kept_spans(lines, spans, k - 1).push(spans[k - 1])
    }
}

/// `c` is the chunk of `file_path` in `repo_path` that span `t` of `lines` gives.
pub open spec fn chunk_of(
    c: CodeChunk,
    lines: Seq<Seq<char>>,
    t: (int, int, Seq<char>),
    file_path: Seq<char>,
    repo_path: Seq<char>,
    language: Option<Seq<char>>,
) -> bool {
    &&& c.id@.len() == 36
    &&& c.file_path@ == file_path
    &&& c.repo_path@ == repo_path
    &&& c.content@ == span_text(lines, t)
    &&& opt_str_view(c.language) == language
    &&& c.start_line == t.0 + 1
    &&& c.end_line == t.1
    &&& c.chunk_type@ == t.2
}

/// The chunks of a file's text, as `chunk_file` gives them once the file is
/// read: one per span of `spec_spans_for` over the text's lines whose text is
/// not blank, in order, each with a fresh identifier and 1-based first line.
pub open spec fn chunks_of_text(
    r: Seq<CodeChunk>,
    content: Seq<char>,
    file_path: Seq<char>,
    repo_path: Seq<char>,
    language: Option<Seq<char>>,
) -> bool {
    let lines = spec_lines(content);
    let spans = spec_spans_for(lines, language);
    let kept = kept_spans(lines, spans, spans.len() as int);
    &&& r.len() == kept.len()
    &&& forall|i: int|
        0 <= i < r.len() ==> chunk_of(
            #[trigger] r[i],
            lines,
            kept[i],
            file_path,
            repo_path,
            language,
        )
}

proof fn lemma_kept_from(lines: Seq<Seq<char>>, spans: Seq<(int, int, Seq<char>)>, k: int)
    requires
        0 <= k <= spans.len(),
    ensures
        forall|i: int|
            0 <= i < kept_spans(lines, spans, k).len() ==> exists|j: int|
                0 <= j < k && #[trigger] kept_spans(lines, spans, k)[i] == spans[j],
    decreases k,
{
    if k > 0 {
        lemma_kept_from(lines, spans, k - 1);
        let prev = kept_spans(lines, spans, k - 1);
        let cur = kept_spans(lines, spans, k);
        assert forall|i: int| 0 <= i < cur.len() implies exists|j: int|
            0 <= j < k && #[trigger] cur[i] == spans[j] by {
            if i < prev.len() {
                assert(cur[i] == prev[i]);
                let j = choose|j: int| 0 <= j < k - 1 && prev[i] == spans[j];
                assert(cur[i] == spans[j]);
            } else {
                assert(cur[i] == spans[k - 1]);
            }
        }
    }
}

/// The spans start at strictly increasing lines, all in `[lo, hi)`.
pub open spec fn starts_ordered(s: Seq<(int, int, Seq<char>)>, lo: int, hi: int) -> bool {
    &&& forall|i: int| 0 <= i < s.len() ==> lo <= (#[trigger] s[i]).0 < hi
    &&& forall|i: int, j: int| 0 <= i < j < s.len() ==> (#[trigger] s[i]).0 < (#[trigger] s[j]).0
}

proof fn lemma_windows_ordered(start: int, n: int)
    requires
        0 <= start,
    ensures
        starts_ordered(windows_from(start, n), start, n),
    decreases n - start,
{
    if start < n {
        let end = if n - start > 50 {
            start + 50
        } else {
            n
        };
        let next = if end >= 3 {
            end - 3
        } else {
            0
        };
        let w = windows_from(start, n);
        if n - next > 5 {
            lemma_windows_ordered(next, n);
            let rest = windows_from(next, n);
            assert(w == seq![(start, end, "window"@)] + rest);
            assert(next > start);
            assert forall|i: int| 0 <= i < w.len() implies start <= (#[trigger] w[i]).0 < n by {
                if i > 0 {
                    assert(w[i] == rest[i - 1]);
                }
            }
            assert forall|i: int, j: int| 0 <= i < j < w.len() implies (#[trigger] w[i]).0 < (
            #[trigger] w[j]).0 by {
                assert(w[j] == rest[j - 1]);
                if i > 0 {
                    assert(w[i] == rest[i - 1]);
                }
            }
        }
    }
}

proof fn lemma_block_ordered(start: int, end: int)
    requires
        0 <= start < end,
    ensures
        starts_ordered(block_spans(start, end), start, end),
{
    let len = end - start;
    if len > 50 {
        lemma_windows_ordered(0, len);
        let w = spec_windows(len);
        let sh = shift(w, start);
        assert forall|i: int| 0 <= i < sh.len() implies start <= (#[trigger] sh[i]).0 < end by {
            assert(sh[i] == (w[i].0 + start, w[i].1 + start, w[i].2));
        }
        assert forall|i: int, j: int| 0 <= i < j < sh.len() implies (#[trigger] sh[i]).0 < (
        #[trigger] sh[j]).0 by {
            assert(sh[i] == (w[i].0 + start, w[i].1 + start, w[i].2));
            assert(sh[j] == (w[j].0 + start, w[j].1 + start, w[j].2));
        }
    }
}

proof fn lemma_blocks_ordered(b: Seq<int>, n: int, k: int)
    requires
        0 < k <= b.len(),
        forall|i: int| 0 <= i < b.len() ==> 0 <= #[trigger] b[i] < n,
        forall|i: int, j: int| 0 <= i < j < b.len() ==> #[trigger] b[i] < #[trigger] b[j],
    ensures
        starts_ordered(blocks_upto(b, n, k), b[0], if k < b.len() { b[k] } else { n }),
    decreases k,
{
    let next = if k < b.len() {
        b[k]
    } else {
        n
    };
    let prev = blocks_upto(b, n, k - 1);
    let blk = block_spans(b[k - 1], next);
    let cur = blocks_upto(b, n, k);
    assert(cur == prev + blk);
    lemma_block_ordered(b[k - 1], next);
    if k > 1 {
        lemma_blocks_ordered(b, n, k - 1);
    } else {
        assert(prev.len() == 0);
    }
    assert forall|i: int| 0 <= i < cur.len() implies b[0] <= (#[trigger] cur[i]).0 < next by {
        if i < prev.len() {
            assert(cur[i] == prev[i]);
        } else {
            assert(cur[i] == blk[i - prev.len()]);
            if k > 1 {
                assert(b[0] < b[k - 1]);
            }
        }
    }
    assert forall|i: int, j: int| 0 <= i < j < cur.len() implies (#[trigger] cur[i]).0 < (
    #[trigger] cur[j]).0 by {
        if j < prev.len() {
            assert(cur[i] == prev[i]);
            assert(cur[j] == prev[j]);
        } else if i < prev.len() {
            assert(cur[i] == prev[i]);
            assert(cur[j] == blk[j - prev.len()]);
        } else {
            assert(cur[i] == blk[i - prev.len()]);
            assert(cur[j] == blk[j - prev.len()]);
        }
    }
}

proof fn lemma_spans_ordered(lines: Seq<Seq<char>>, language: Option<Seq<char>>)
    ensures
        starts_ordered(spec_spans_for(lines, language), 0, lines.len() as int),
{
    let n = lines.len() as int;
    lemma_windows_ordered(0, n);
    if let Some(l) = language {
        if let Some(pats) = lang_patterns(l) {
            let b = bounds_upto(lines, pats, n);
            if b.len() > 0 {
                lemma_bounds_sorted(lines, pats, n);
                lemma_merged_starts(b, n);
                let m = merged_starts(b, n);
                assert forall|i: int, j: int| 0 <= i < j < m.len() implies #[trigger] m[i] < #[trigger] m[j] by {
                    assert(m[j] - m[i] >= 5);
                }
                lemma_blocks_ordered(m, n, m.len() as int);
                lemma_blocks_ordered(b, n, b.len() as int);
                let body = blocks_upto(b, n, b.len() as int);
                if b[0] > 5 {
                    let h = header_spans(b[0]);
                    lemma_windows_ordered(0, b[0]);
                    assert(starts_ordered(h, 0, b[0]));
                    let s = h + body;
                    assert forall|i: int| 0 <= i < s.len() implies 0 <= (#[trigger] s[i]).0 < n by {
                        if i < h.len() {
                            assert(s[i] == h[i]);
                        } else {
                            assert(s[i] == body[i - h.len()]);
                        }
                    }
                    assert forall|i: int, j: int| 0 <= i < j < s.len() implies (#[trigger] s[i]).0 < (
                    #[trigger] s[j]).0 by {
                        if j < h.len() {
                            assert(s[i] == h[i]);
                            assert(s[j] == h[j]);
                        } else if i < h.len() {
                            assert(s[i] == h[i]);
                            assert(s[j] == body[j - h.len()]);
                        } else {
                            assert(s[i] == body[i - h.len()]);
                            assert(s[j] == body[j - h.len()]);
                        }
                    }
                }
            }
        }
    }
}

proof fn lemma_kept_ordered(lines: Seq<Seq<char>>, spans: Seq<(int, int, Seq<char>)>, k: int)
    requires
        0 <= k <= spans.len(),
        forall|i: int, j: int| 0 <= i < j < spans.len() ==> (#[trigger] spans[i]).0 < (#[trigger] spans[j]).0,
    ensures
        forall|i: int, j: int|
            0 <= i < j < kept_spans(lines, spans, k).len() ==> (#[trigger] kept_spans(lines, spans, k)[i]).0
                < (#[trigger] kept_spans(lines, spans, k)[j]).0,
    decreases k,
{
    if k > 0 {
        lemma_kept_ordered(lines, spans, k - 1);
        lemma_kept_from(lines, spans, k - 1);
        let prev = kept_spans(lines, spans, k - 1);
        let cur = kept_spans(lines, spans, k);
        assert forall|i: int, j: int| 0 <= i < j < cur.len() implies (#[trigger] cur[i]).0 < (
        #[trigger] cur[j]).0 by {
            if j < prev.len() {
                assert(cur[i] == prev[i]);
                assert(cur[j] == prev[j]);
            } else {
                assert(cur[j] == spans[k - 1]);
                assert(cur[i] == prev[i]);
                let m = choose|m: int| 0 <= m < k - 1 && prev[i] == spans[m];
                assert(spans[m].0 < spans[k - 1].0);
            }
        }
    }
}

/// The chunks of a file's text come in file order: each starts on a later
/// line than the one before it.
pub proof fn lemma_chunk_order(
    r: Seq<CodeChunk>,
    content: Seq<char>,
    file_path: Seq<char>,
    repo_path: Seq<char>,
    language: Option<Seq<char>>,
)
    requires
        chunks_of_text(r, content, file_path, repo_path, language),
    ensures
        forall|i: int, j: int| 0 <= i < j < r.len() ==> (#[trigger] r[i]).start_line < (#[trigger] r[j]).start_line,
{
    let lines = spec_lines(content);
    let spans = spec_spans_for(lines, language);
    let kept = kept_spans(lines, spans, spans.len() as int);
    lemma_spans_ordered(lines, language);
    lemma_kept_ordered(lines, spans, spans.len() as int);
    assert forall|i: int, j: int| 0 <= i < j < r.len() implies (#[trigger] r[i]).start_line < (
    #[trigger] r[j]).start_line by {
        assert(chunk_of(r[i], lines, kept[i], file_path, repo_path, language));
        assert(chunk_of(r[j], lines, kept[j], file_path, repo_path, language));
        assert(kept[i].0 < kept[j].0);
    }
}

/// The chunks of a file's text cover lines of it: each runs from a 1-based
/// first line to a last line no later than the text's last, and each holds
/// at most `MAX_CHUNK_LINES` lines.
pub proof fn lemma_chunk_lines(
    r: Seq<CodeChunk>,
    content: Seq<char>,
    file_path: Seq<char>,
    repo_path: Seq<char>,
    language: Option<Seq<char>>,
)
    requires
        chunks_of_text(r, content, file_path, repo_path, language),
    ensures
        forall|i: int|
            0 <= i < r.len() ==> 1 <= (#[trigger] r[i]).start_line <= r[i].end_line <= spec_lines(
                content,
            ).len(),
        forall|i: int| 0 <= i < r.len() ==> (#[trigger] r[i]).end_line - r[i].start_line + 1 <= 50,
{
    let lines = spec_lines(content);
    let n = lines.len() as int;
    let spans = spec_spans_for(lines, language);
    let kept = kept_spans(lines, spans, spans.len() as int);
    lemma_windows_bounded(n);
    match language {
        Some(l) => lemma_semantic_bounded(lines, l),
        None => {},
    }
    assert(spans_bounded(spans, n));
    lemma_kept_from(lines, spans, spans.len() as int);
    assert forall|i: int| 0 <= i < r.len() implies 1 <= (#[trigger] r[i]).start_line
        <= r[i].end_line <= n && r[i].end_line - r[i].start_line + 1 <= 50 by {
        assert(chunk_of(r[i], lines, kept[i], file_path, repo_path, language));
        let j = choose|j: int| 0 <= j < spans.len() && kept[i] == spans[j];
        assert(0 <= spans[j].0 < spans[j].1 <= n);
    }
}

fn clone_opt_string(o: &Option<String>) -> (r: Option<String>)
    ensures
        opt_str_view(r) == opt_str_view(*o),
{
    match o {
        Some(s) => Some(s.clone()),
        None => None,
    }
}

/// Chunks the text of a file: semantic chunking when the language supports
/// it, else sliding windows; blank chunks are dropped.
pub fn chunk_text(content: &str, file_path: &str, repo_path: &str, language: &Option<String>) -> (r:
    Vec<CodeChunk>)
    ensures
        chunks_of_text(r@, content@, file_path@, repo_path@, opt_str_view(*language)),
{
    let cs = chars_of(content);
    let lines = split_lines(&cs);
    let n = lines.len();
    let ghost lv = lines_view(lines@);
    let ghost lang = opt_str_view(*language);
    let spans = match language {
        Some(l) => match semantic_spans(&lines, l.as_str()) {
            Some(s) => s,
            None => window_spans(n),
        },
        None => window_spans(n),
    };
    let ghost sv = spans_view(spans@);
    proof {
        assert(sv == spec_spans_for(lv, lang));
        lemma_windows_bounded(n as int);
        match lang {
            Some(l) => lemma_semantic_bounded(lv, l),
            None => {},
        }
        assert(spans_within(sv, n as int));
    }
    let mut out: Vec<CodeChunk> = Vec::new();
    let mut k: usize = 0;
    while k < spans.len()
        invariant
            k <= spans@.len(),
            n == lines@.len(),
            lv == lines_view(lines@),
            sv == spans_view(spans@),
            spans_within(sv, n as int),
            lang == opt_str_view(*language),
            out@.len() == kept_spans(lv, sv, k as int).len(),
            forall|i: int|
                0 <= i < out@.len() ==> chunk_of(
                    #[trigger] out@[i],
                    lv,
                    kept_spans(lv, sv, k as int)[i],
                    file_path@,
                    repo_path@,
                    lang,
                ),
        decreases spans@.len() - k,
    {
        let s = spans[k].0;
        let e = spans[k].1;
        proof {
            assert(sv[k as int] == span_view(spans@[k as int]));
            assert(0 <= sv[k as int].0 < sv[k as int].1 <= n);
        }
        let text = join_line_range(&lines, s, e);
        let ghost prev = kept_spans(lv, sv, k as int);
        if !is_blank(&text) {
            let chunk = CodeChunk {
                id: new_uuid_v4(),
                file_path: String::from_str(file_path),
                repo_path: String::from_str(repo_path),
                content: string_from_chars(&text),
                language: clone_opt_string(language),
                start_line: s + 1,
                end_line: e,
                chunk_type: spans[k].2.clone(),
            };
            out.push(chunk);
            proof {
                let cur = kept_spans(lv, sv, k + 1);
                assert(cur == prev.push(sv[k as int]));
                assert forall|i: int|
                    0 <= i < out@.len() implies chunk_of(
                    #[trigger] out@[i],
                    lv,
                    cur[i],
                    file_path@,
                    repo_path@,
                    lang,
                ) by {
                    if i < prev.len() {
                        assert(cur[i] == prev[i]);
                    }
                }
            }
        } else {
            assert(kept_spans(lv, sv, k + 1) == prev);
        }
        k = k + 1;
    }
    out
}

} // verus!
