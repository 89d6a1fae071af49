//! Remapping of checker matches from block-local coordinates back into
//! file-local coordinates.
//!
//! The remote checker reports each match against a block's normalized text —
//! the newline-joined reconstruction of its decoded lines. That text shares
//! no coordinates with the file: every file line carries a comment marker
//! and possibly one stripped space that the normalized text lacks. Remapping
//! finds the block line the match starts on, rebases the offset onto that
//! line's place in the file, and widens the length and context of a match
//! that crosses line boundaries by the marker width of every crossed line.
//!
//! All offsets are 0-based character positions; line and column fields are
//! 1-based file coordinates as reported by the token source.

use vstd::prelude::*;

use crate::doc::{join_texts, line_texts, Doc, DocLine, DocV, Docs, LineV, RawDocs, RawLit};
use crate::languagetool::{CheckMatch, CheckResponse, ContextV, MatchV, RemappedMatch};
use crate::text::{chars_of, copy_chars, copy_chars_vec, subvec};

verus! {

/// Characters a one-line comment marker occupies in the file before the
/// comment text begins.
pub const MARKER_WIDTH: usize = 3;

/// Why a match could not be remapped. Each names a way the checker's answer
/// (or the block's spans) contradicts the file; such answers are reported,
/// never silently clamped.
#[derive(Debug, Clone, Copy, PartialEq, Eq, Structural)]
pub enum RemapError {
    /// The match offset lies beyond the block's normalized text.
    OffsetOutOfBlock,
    /// The newline count at the match offset names no line of the block.
    RowOutOfRange,
    /// The match offset lies before the start of the line it should be on.
    OffsetBeforeLine,
    /// The block names a file line that the file does not have.
    LineOutOfFile,
    /// A remapped coordinate does not fit the machine's integer range.
    Overflow,
}

/// The number of newline characters in `s[0..end]`.
pub open spec fn count_newlines(s: Seq<char>, end: int) -> nat
    recommends
        end <= s.len(),
    decreases end,
{
    if end <= 0 {
        0
    } else {
        count_newlines(s, end - 1) + (if s[end - 1] == '\n' {
            1nat
        } else {
            0nat
        })
    }
}

/// The offset in the joined block text at which line `k` starts: the sum of
/// (text length + 1) over the lines before it, the +1 for the joining
/// newline.
pub open spec fn doc_prefix_len(lines: Seq<LineV>, k: int) -> int
    recommends
        k <= lines.len(),
    decreases k,
{
    if k <= 0 {
        0
    } else {
        doc_prefix_len(lines, k - 1) + lines[k - 1].text.len() + 1
    }
}

/// The index of the first newline of `s` at or after `from`, if any.
pub open spec fn next_newline(s: Seq<char>, from: int) -> Option<int>
    decreases s.len() - from,
{
    if from < 0 || from >= s.len() {
        None
    } else if s[from] == '\n' {
        Some(from)
    } else {
        next_newline(s, from + 1)
    }
}

/// The offset in `s` at which its 0-based line `p` starts: the position just
/// after the `p`-th newline. `None` when `s` has fewer than `p` newlines.
pub open spec fn line_start(s: Seq<char>, p: int) -> Option<int>
    decreases p,
{
    if p <= 0 {
        Some(0)
    } else {
        match line_start(s, p - 1) {
            Some(q) => match next_newline(s, q) {
                Some(nl) => Some(nl + 1),
                None => None,
            },
            None => None,
        }
    }
}

/// The length of the line of `s` starting at `p`: the characters up to the
/// next newline, or to the end of `s` when no newline follows.
pub open spec fn line_len_at(s: Seq<char>, p: int) -> int {
    match next_newline(s, p) {
        Some(nl) => nl - p,
        None => s.len() - p,
    }
}

/// The forward walk for a match's context and length extension: block lines
/// from `dr` in parallel with file lines from position `fp`, while the match
/// (ending at `end` in the block text, with `consumed` block characters
/// already behind the walk) still reaches into the line. Returns the
/// accumulated file-side context length, and the length delta — `cb` (the
/// line's base column width) for every line boundary the match crosses.
pub open spec fn spec_walk(
    lines: Seq<LineV>,
    dr: int,
    src: Seq<char>,
    fp: int,
    consumed: int,
    end: int,
    cb: int,
) -> (int, int)
    decreases lines.len() - dr,
{
    if dr < 0 || dr >= lines.len() || fp < 0 || fp >= src.len() {
        (0, 0)
    } else {
        let fl = line_len_at(src, fp);
        let consumed2 = consumed + lines[dr].text.len() + 1;
        if end < consumed2 {
            (fl + 1, 0)
        } else {
            let rest = spec_walk(lines, dr + 1, src, fp + fl + 1, consumed2, end, cb);
            (fl + 1 + rest.0, cb + rest.1)
        }
    }
}

/// The remapping of one match from block-local to file-local coordinates:
///
/// 1. the row is the number of newlines before the match offset, and names
///    the block line the match starts on;
/// 2. the offset within that line is the match offset minus the line's start
///    in the block text;
/// 3. the file column adds the line's start column and the marker width;
/// 4. the file offset adds the start of the line's file line;
/// 5. the length and context grow by the walk over any crossed lines, and
///    the context text is the file's own text from the line start to the end
///    of the walk, stopping at the end of the file.
///
/// Identity fields (message, rule, category, replacements) are unchanged.
pub open spec fn spec_remap(lines: Seq<LineV>, src: Seq<char>, m: MatchV) -> Result<
    MatchV,
    RemapError,
> {
    let t = join_texts(line_texts(lines));
    if m.offset > t.len() {
        Err(RemapError::OffsetOutOfBlock)
    } else {
        let row = count_newlines(t, m.offset) as int;
        if row >= lines.len() {
            Err(RemapError::RowOutOfRange)
        } else {
            let dpl = doc_prefix_len(lines, row);
            if m.offset < dpl {
                Err(RemapError::OffsetBeforeLine)
            } else {
                let dlo = m.offset - dpl;
                let line_row = lines[row].span.start.line as int;
                let cb = lines[row].span.start.column + MARKER_WIDTH;
                let flo = cb + dlo;
                if line_row < 1 {
                    Err(RemapError::LineOutOfFile)
                } else {
                    match line_start(src, line_row - 1) {
                        None => Err(RemapError::LineOutOfFile),
                        Some(fbo) => {
                            let new_offset = fbo + flo;
                            let walked = spec_walk(
                                lines,
                                row,
                                src,
                                fbo,
                                dpl,
                                m.offset + m.length,
                                cb,
                            );
                            let new_len = m.length + walked.1;
                            let ctx_end = if fbo + walked.0 > src.len() {
                                src.len() as int
                            } else {
                                fbo + walked.0
                            };
                            if flo > usize::MAX || new_offset > usize::MAX || new_len
                                > usize::MAX {
                                Err(RemapError::Overflow)
                            } else {
                                Ok(
                                    MatchV {
                                        offset: new_offset,
                                        length: new_len,
                                        message: m.message,
                                        rule_id: m.rule_id,
                                        rule_description: m.rule_description,
                                        category_id: m.category_id,
                                        replacements: m.replacements,
                                        context: ContextV {
                                            text: src.subrange(fbo, ctx_end),
                                            offset: flo,
                                            length: new_len,
                                        },
                                    },
                                )
                            }
                        },
                    }
                }
            }
        }
    }
}

/// `doc_prefix_len` grows with its index, by at least one per line.
pub proof fn lemma_doc_prefix_monotone(lines: Seq<LineV>, j: int, k: int)
    requires
        0 <= j <= k,
    ensures
        doc_prefix_len(lines, j) + (k - j) <= doc_prefix_len(lines, k),
    decreases k,
{
    if k > j {
        lemma_doc_prefix_monotone(lines, j, k - 1);
    }
}

/// The joined text of a block is, up to the one missing final newline, as
/// long as the sum of its line lengths plus one per line.
pub proof fn lemma_join_len(lines: Seq<LineV>)
    ensures
        lines.len() == 0 ==> join_texts(line_texts(lines)).len() == 0,
        lines.len() >= 1 ==> join_texts(line_texts(lines)).len() + 1 == doc_prefix_len(
            lines,
            lines.len() as int,
        ),
    decreases lines.len(),
{
    let ts = line_texts(lines);
    assert(ts.len() == lines.len());
    if lines.len() == 0 {
    } else if lines.len() == 1 {
        assert(ts[0] == lines[0].text);
        assert(join_texts(ts) == ts[0]);
        assert(doc_prefix_len(lines, 0) == 0);
        assert(doc_prefix_len(lines, 1) == lines[0].text.len() + 1);
    } else {
        lemma_join_len(lines.drop_last());
        assert(line_texts(lines.drop_last()) =~= ts.drop_last());
        lemma_doc_prefix_agree(lines.drop_last(), lines, lines.len() - 1);
        assert(ts.last() == lines[lines.len() - 1].text);
        assert(join_texts(ts).len() == join_texts(ts.drop_last()).len() + 1 + lines[lines.len()
            - 1].text.len());
        assert(doc_prefix_len(lines, lines.len() as int) == doc_prefix_len(lines, lines.len() - 1)
            + lines[lines.len() - 1].text.len() + 1);
    }
}

/// `doc_prefix_len` reads only the lines before its index.
proof fn lemma_doc_prefix_agree(a: Seq<LineV>, b: Seq<LineV>, k: int)
    requires
        forall|i: int| 0 <= i < k ==> a[i] == b[i],
    ensures
        doc_prefix_len(a, k) == doc_prefix_len(b, k),
    decreases k,
{
    if k > 0 {
        lemma_doc_prefix_agree(a, b, k - 1);
    }
}

/// Both components of the walk are non-negative.
pub proof fn lemma_walk_nonneg(
    lines: Seq<LineV>,
    dr: int,
    src: Seq<char>,
    fp: int,
    consumed: int,
    end: int,
    cb: int,
)
    requires
        cb >= 0,
    ensures
        spec_walk(lines, dr, src, fp, consumed, end, cb).0 >= 0,
        spec_walk(lines, dr, src, fp, consumed, end, cb).1 >= 0,
    decreases lines.len() - dr,
{
    if dr < 0 || dr >= lines.len() || fp < 0 || fp >= src.len() {
    } else {
        let fl = line_len_at(src, fp);
        lemma_next_newline_bounds(src, fp);
        lemma_walk_nonneg(lines, dr + 1, src, fp + fl + 1, consumed + lines[dr].text.len() + 1, end, cb);
    }
}

/// A found newline lies between the search start and the end of the text.
pub proof fn lemma_next_newline_bounds(s: Seq<char>, from: int)
    ensures
        next_newline(s, from) matches Some(nl) ==> from <= nl < s.len(),
    decreases s.len() - from,
{
    if from < 0 || from >= s.len() {
    } else if s[from] == '\n' {
    } else {
        lemma_next_newline_bounds(s, from + 1);
    }
}

/// Once `line_start` runs out of lines it stays out for any later line.
proof fn lemma_line_start_none(s: Seq<char>, p: int, q: int)
    requires
        0 <= p <= q,
        line_start(s, p) is None,
    ensures
        line_start(s, q) is None,
    decreases q - p,
{
    if q > p {
        lemma_line_start_none(s, p, q - 1);
    }
}

/// The index of the first newline of `src` at or after `from`, if any.
fn find_newline(src: &Vec<char>, from: usize) -> (r: Option<usize>)
    requires
        from <= src@.len(),
    ensures
        match r {
            Some(nl) => next_newline(src@, from as int) == Some(nl as int) && from <= nl
                < src@.len(),
            None => next_newline(src@, from as int) is None,
        },
{
    let mut j = from;
    while j < src.len()
        invariant
            from <= j <= src@.len(),
            next_newline(src@, from as int) == next_newline(src@, j as int),
        decreases src@.len() - j,
    {
        if src[j] == '\n' {
            return Some(j);
        }
        j = j + 1;
    }
    None
}

/// Remaps one checker match from block-local to file-local coordinates, per
/// [`spec_remap`]. A malformed match — one that does not fit the block, or
/// names coordinates outside the file — is rejected with the matching
/// [`RemapError`], never clamped.
#[verifier::loop_isolation(false)]
pub fn remap_match(doc: &Doc, source: &Vec<char>, m: &CheckMatch) -> (r: Result<
    RemappedMatch,
    RemapError,
>)
    ensures
        match r {
            Ok(rm) => spec_remap(doc@.lines, source@, m@) == Ok::<MatchV, RemapError>(rm@),
            Err(e) => spec_remap(doc@.lines, source@, m@) == Err::<MatchV, RemapError>(e),
        },
{
    let ghost lines = doc@.lines;
    let t = doc.joined_text();
    if m.offset > t.len() {
        return Err(RemapError::OffsetOutOfBlock);
    }
    // Step 1: the row is the number of newlines before the match offset.
    let mut row: usize = 0;
    let mut i: usize = 0;
    while i < m.offset
        invariant
            i <= m.offset,
            row as nat == count_newlines(t@, i as int),
            row <= i,
        decreases m.offset - i,
    {
        if t[i] == '\n' {
            row = row + 1;
        }
        i = i + 1;
    }
    if row >= doc.text.len() {
        return Err(RemapError::RowOutOfRange);
    }
    proof {
        lemma_join_len(lines);
    }
    // Step 2: the offset of the row's line within the block text.
    let mut dpl: u128 = 0;
    let mut j: usize = 0;
    while j < row
        invariant
            j <= row,
            dpl as int == doc_prefix_len(lines, j as int),
        decreases row - j,
    {
        proof {
            lemma_doc_prefix_monotone(lines, j + 1, lines.len() as int);
        }
        dpl = dpl + doc.text[j].text.len() as u128 + 1;
        j = j + 1;
    }
    if (m.offset as u128) < dpl {
        return Err(RemapError::OffsetBeforeLine);
    }
    let dlo: u128 = m.offset as u128 - dpl;
    // Step 3: the file column: start column of the line, plus the marker.
    let line_row = doc.text[row].span.start.line;
    let cb: u128 = doc.text[row].span.start.column as u128 + MARKER_WIDTH as u128;
    let flo: u128 = cb + dlo;
    if line_row < 1 {
        return Err(RemapError::LineOutOfFile);
    }
    // Step 4: the file offset at which the line's file line starts.
    let n_src = source.len();
    let target = line_row - 1;
    let mut k: usize = 0;
    let mut fbo: usize = 0;
    while k < target
        invariant
            k <= target,
            line_start(source@, k as int) == Some(fbo as int),
            fbo <= n_src,
            n_src == source@.len(),
        decreases target - k,
    {
        match find_newline(source, fbo) {
            Some(nl) => {
                fbo = nl + 1;
                k = k + 1;
            },
            None => {
                proof {
                    lemma_line_start_none(source@, k + 1 as int, target as int);
                }
                return Err(RemapError::LineOutOfFile);
            },
        }
    }
    // Steps 5 and 6: walk the crossed lines for context and length delta.
    let end: u128 = m.offset as u128 + m.length as u128;
    let ghost full = spec_walk(
        lines,
        row as int,
        source@,
        fbo as int,
        doc_prefix_len(lines, row as int),
        m@.offset + m@.length,
        cb as int,
    );
    let mut dr: usize = row;
    let mut fp: usize = fbo;
    let mut consumed: u128 = dpl;
    let mut ncl: u128 = 0;
    let mut delta: u128 = 0;
    let mut done: bool = false;
    let mut overflowed: bool = false;
    while !done
        invariant
            row <= dr <= lines.len(),
            fbo <= fp <= source@.len(),
            !done ==> ncl as int == fp - fbo,
            ncl as int <= source@.len() + 1,
            !overflowed ==> delta as int <= usize::MAX as int,
            !done ==> consumed as int == doc_prefix_len(lines, dr as int),
            !done ==> full.0 == ncl + spec_walk(
                lines,
                dr as int,
                source@,
                fp as int,
                consumed as int,
                m@.offset + m@.length,
                cb as int,
            ).0 && full.1 == delta + spec_walk(
                lines,
                dr as int,
                source@,
                fp as int,
                consumed as int,
                m@.offset + m@.length,
                cb as int,
            ).1,
            done && !overflowed ==> full.0 == ncl as int && full.1 == delta as int,
            overflowed ==> done && full.1 > usize::MAX,
        decreases lines.len() - dr, (if done {
            0int
        } else {
            1int
        }),
    {
        if dr >= doc.text.len() || fp >= source.len() {
            done = true;
        } else {
            let ghost rest = spec_walk(
                lines,
                dr as int,
                source@,
                fp as int,
                consumed as int,
                m@.offset + m@.length,
                cb as int,
            );
            let nl_opt = find_newline(source, fp);
            let fl = match nl_opt {
                Some(nl) => nl - fp,
                None => source.len() - fp,
            };
            proof {
                assert(fl as int == line_len_at(source@, fp as int));
                lemma_doc_prefix_monotone(lines, dr + 1 as int, lines.len() as int);
            }
            let consumed2 = consumed + doc.text[dr].text.len() as u128 + 1;
            let ncl2 = ncl + fl as u128 + 1;
            if end < consumed2 {
                ncl = ncl2;
                done = true;
            } else {
                proof {
                    lemma_walk_nonneg(
                        lines,
                        dr + 1 as int,
                        source@,
                        fp + fl + 1 as int,
                        consumed2 as int,
                        m@.offset + m@.length,
                        cb as int,
                    );
                }
                delta = delta + cb;
                if delta > usize::MAX as u128 {
                    proof {
                        assert(rest.1 == cb + spec_walk(
                            lines,
                            dr + 1 as int,
                            source@,
                            fp + fl + 1 as int,
                            consumed2 as int,
                            m@.offset + m@.length,
                            cb as int,
                        ).1);
                        assert(full.1 > usize::MAX);
                    }
                    overflowed = true;
                    done = true;
                } else {
                    ncl = ncl2;
                    consumed = consumed2;
                    dr = dr + 1;
                    match nl_opt {
                        Some(nl) => {
                            fp = nl + 1;
                        },
                        None => {
                            proof {
                                assert(spec_walk(
                                    lines,
                                    dr as int,
                                    source@,
                                    fp + fl + 1 as int,
                                    consumed as int,
                                    m@.offset + m@.length,
                                    cb as int,
                                ) == (0int, 0int));
                            }
                            done = true;
                        },
                    }
                }
            }
        }
    }
    if overflowed {
        proof {
            assert(m@.length + full.1 > usize::MAX);
        }
        return Err(RemapError::Overflow);
    }
    // The remapped coordinates, validated against the machine range.
    let new_offset: u128 = fbo as u128 + flo;
    let new_len: u128 = m.length as u128 + delta;
    if flo > usize::MAX as u128 || new_offset > usize::MAX as u128 || new_len > usize::MAX
        as u128 {
        return Err(RemapError::Overflow);
    }
    let ctx_end_u: u128 = fbo as u128 + ncl;
    let ctx_end: usize = if ctx_end_u > source.len() as u128 {
        source.len()
    } else {
        ctx_end_u as usize
    };
    let ctx_text = subvec(source, fbo, ctx_end);
    let rm = CheckMatch {
        offset: new_offset as usize,
        length: new_len as usize,
        message: copy_chars(&m.message),
        rule_id: copy_chars(&m.rule_id),
        rule_description: copy_chars(&m.rule_description),
        category_id: copy_chars(&m.category_id),
        replacements: copy_chars_vec(&m.replacements),
        context: crate::languagetool::MatchContext {
            text: ctx_text,
            offset: flo as usize,
            length: new_len as usize,
        },
    };
    proof {
        assert(rm@.replacements =~= m@.replacements);
        let res = spec_remap(lines, source@, m@);
        assert(res is Ok);
        assert(rm@ =~= res->Ok_0);
    }
    Ok(rm)
}

/// The remapping of a block's matches, in order; the first failure wins.
pub open spec fn spec_remap_all(lines: Seq<LineV>, src: Seq<char>, ms: Seq<MatchV>) -> Result<
    Seq<MatchV>,
    RemapError,
>
    decreases ms.len(),
{
    if ms.len() == 0 {
        Ok(Seq::empty())
    } else {
        match spec_remap_all(lines, src, ms.drop_last()) {
            Ok(init) => match spec_remap(lines, src, ms.last()) {
                Ok(m2) => Ok(init.push(m2)),
                Err(e) => Err(e),
            },
            Err(e) => Err(e),
        }
    }
}

/// The transformation of one block: a block that has no response yet is
/// unchanged; otherwise every match of its response is remapped.
pub open spec fn spec_transform_doc(d: DocV, src: Seq<char>) -> Result<DocV, RemapError> {
    match d.response {
        None => Ok(d),
        Some(ms) => match spec_remap_all(d.lines, src, ms) {
            Ok(ms2) => Ok(DocV { lines: d.lines, response: Some(ms2) }),
            Err(e) => Err(e),
        },
    }
}

/// The transformation of a file's blocks, in order; the first failure wins.
pub open spec fn spec_transform_docs(ds: Seq<DocV>, src: Seq<char>) -> Result<
    Seq<DocV>,
    RemapError,
>
    decreases ds.len(),
{
    if ds.len() == 0 {
        Ok(Seq::empty())
    } else {
        match spec_transform_docs(ds.drop_last(), src) {
            Ok(init) => match spec_transform_doc(ds.last(), src) {
                Ok(d2) => Ok(init.push(d2)),
                Err(e) => Err(e),
            },
            Err(e) => Err(e),
        }
    }
}

/// A copy of a block's lines.
fn copy_lines(v: &Vec<DocLine>) -> (r: Vec<DocLine>)
    ensures
        r@.map_values(|l: DocLine| l@) == v@.map_values(|l: DocLine| l@),
{
    let mut r: Vec<DocLine> = Vec::new();
    let mut i: usize = 0;
    while i < v.len()
        invariant
            i <= v@.len(),
            r@.len() == i,
            forall|j: int| 0 <= j < i ==> (#[trigger] r@[j])@ == v@[j]@,
        decreases v@.len() - i,
    {
        let l = &v[i];
        r.push(DocLine { text: copy_chars(&l.text), span: l.span });
        i = i + 1;
    }
    proof {
        assert(r@.map_values(|l: DocLine| l@) =~= v@.map_values(|l: DocLine| l@));
    }
    r
}

/// A copy of the raw literals.
fn copy_raw(v: &RawDocs) -> (r: RawDocs)
    ensures
        r@ == v@,
{
    let mut out: Vec<RawLit> = Vec::new();
    let mut i: usize = 0;
    while i < v.0.len()
        invariant
            i <= v.0@.len(),
            out@.len() == i,
            forall|j: int| 0 <= j < i ==> (#[trigger] out@[j])@ == v.0@[j]@,
        decreases v.0@.len() - i,
    {
        let l = &v.0[i];
        out.push(RawLit { repr: l.repr.clone(), span: l.span });
        i = i + 1;
    }
    proof {
        assert(out@.map_values(|l: RawLit| l@) =~= v.0@.map_values(|l: RawLit| l@));
    }
    RawDocs(out)
}

impl Docs {
    /// Remaps every match of every checked block from block-local to
    /// file-local coordinates against the file text `source`, per
    /// [`spec_transform_docs`]: a fresh value is returned and the input is
    /// left as it was. The first match that cannot be remapped fails the
    /// whole transformation with its [`RemapError`].
    #[verifier::loop_isolation(false)]
    pub fn transform_matches(&self, source: &str) -> (r: Result<Docs, RemapError>)
        ensures
            match r {
                Ok(d2) => {
                    &&& spec_transform_docs(self.fixed@.map_values(|d: Doc| d@), source@)
                        == Ok::<Seq<DocV>, RemapError>(d2.fixed@.map_values(|d: Doc| d@))
                    &&& d2.original@ == self.original@
                },
                Err(e) => spec_transform_docs(self.fixed@.map_values(|d: Doc| d@), source@)
                    == Err::<Seq<DocV>, RemapError>(e),
            },
    {
        let src = chars_of(source);
        let ghost ds = self.fixed@.map_values(|d: Doc| d@);
        let mut fixed: Vec<Doc> = Vec::new();
        let mut i: usize = 0;
        proof {
            assert(ds.subrange(0, 0) =~= Seq::<DocV>::empty());
            assert(fixed@.map_values(|d: Doc| d@) =~= Seq::<DocV>::empty());
        }
        while i < self.fixed.len()
            invariant
                i <= self.fixed@.len(),
                ds == self.fixed@.map_values(|d: Doc| d@),
                src@ == source@,
                spec_transform_docs(ds.subrange(0, i as int), source@) == Ok::<
                    Seq<DocV>,
                    RemapError,
                >(fixed@.map_values(|d: Doc| d@)),
            decreases self.fixed@.len() - i,
        {
            let doc = &self.fixed[i];
            let ghost pre = ds.subrange(0, i as int);
            let ghost cur = ds.subrange(0, i + 1 as int);
            proof {
                assert(cur.drop_last() =~= pre);
                assert(cur.last() == ds[i as int]);
            }
            let new_doc = match &doc.check_response {
                None => {
                    let nd = Doc { text: copy_lines(&doc.text), check_response: None };
                    proof {
                        assert(nd@ =~= ds[i as int]);
                    }
                    nd
                },
                Some(resp) => {
                    let ghost ms = resp@;
                    let mut out: Vec<CheckMatch> = Vec::new();
                    let mut k: usize = 0;
                    proof {
                        assert(ms.subrange(0, 0) =~= Seq::<MatchV>::empty());
                        assert(out@.map_values(|m: CheckMatch| m@) =~= Seq::<MatchV>::empty());
                    }
                    while k < resp.matches.len()
                        invariant
                            k <= resp.matches@.len(),
                            ms == resp@,
                            src@ == source@,
                            ds == self.fixed@.map_values(|d: Doc| d@),
                            i < self.fixed@.len(),
                            self.fixed@[i as int].check_response == Some(*resp),
                            spec_remap_all(ds[i as int].lines, source@, ms.subrange(0, k as int))
                                == Ok::<Seq<MatchV>, RemapError>(out@.map_values(|m: CheckMatch| m@)),
                        decreases resp.matches@.len() - k,
                    {
                        let ghost mpre = ms.subrange(0, k as int);
                        let ghost mcur = ms.subrange(0, k + 1 as int);
                        proof {
                            assert(mcur.drop_last() =~= mpre);
                            assert(mcur.last() == ms[k as int]);
                        }
                        match remap_match(doc, &src, &resp.matches[k]) {
                            Ok(rm) => {
                                let ghost old_map = out@.map_values(|m: CheckMatch| m@);
                                out.push(rm);
                                proof {
                                    assert(out@.map_values(|m: CheckMatch| m@) =~= old_map.push(
                                        rm@,
                                    ));
                                }
                            },
                            Err(e) => {
                                proof {
                                    lemma_remap_all_fail(ds[i as int].lines, source@, ms, k as int);
                                    lemma_transform_docs_fail(ds, source@, i as int);
                                }
                                return Err(e);
                            },
                        }
                        k = k + 1;
                    }
                    proof {
                        assert(ms.subrange(0, ms.len() as int) =~= ms);
                    }
                    let nd = Doc {
                        text: copy_lines(&doc.text),
                        check_response: Some(CheckResponse { matches: out }),
                    };
                    proof {
                        assert(nd@ =~= DocV {
                            lines: ds[i as int].lines,
                            response: Some(out@.map_values(|m: CheckMatch| m@)),
                        });
                    }
                    nd
                },
            };
            proof {
                assert(spec_transform_doc(ds[i as int], source@) == Ok::<DocV, RemapError>(
                    new_doc@,
                ));
            }
            let ghost old_fixed_map = fixed@.map_values(|d: Doc| d@);
            fixed.push(new_doc);
            proof {
                assert(fixed@.map_values(|d: Doc| d@) =~= old_fixed_map.push(new_doc@));
            }
            i = i + 1;
        }
        proof {
            assert(ds.subrange(0, ds.len() as int) =~= ds);
        }
        Ok(Docs { original: copy_raw(&self.original), fixed })
    }
}

/// When one match fails to remap, remapping the whole sequence fails with
/// the error of the first failing match.
proof fn lemma_remap_all_fail(lines: Seq<LineV>, src: Seq<char>, ms: Seq<MatchV>, k: int)
    requires
        0 <= k < ms.len(),
        spec_remap_all(lines, src, ms.subrange(0, k)) is Ok,
        spec_remap(lines, src, ms[k]) is Err,
    ensures
        spec_remap_all(lines, src, ms) == Err::<Seq<MatchV>, RemapError>(
            spec_remap(lines, src, ms[k])->Err_0,
        ),
    decreases ms.len(),
{
    if ms.len() > 0 {
        if k == ms.len() - 1 {
            assert(ms.subrange(0, k) =~= ms.drop_last());
        } else {
            assert(ms.drop_last().subrange(0, k) =~= ms.subrange(0, k));
            lemma_remap_all_fail(lines, src, ms.drop_last(), k);
        }
    }
}

/// When one block fails to transform, transforming the whole file fails
/// with that block's error.
proof fn lemma_transform_docs_fail(ds: Seq<DocV>, src: Seq<char>, i: int)
    requires
        0 <= i < ds.len(),
        spec_transform_docs(ds.subrange(0, i), src) is Ok,
        spec_transform_doc(ds[i], src) is Err,
    ensures
        spec_transform_docs(ds, src) == Err::<Seq<DocV>, RemapError>(
            spec_transform_doc(ds[i], src)->Err_0,
        ),
    decreases ds.len(),
{
    if ds.len() > 0 {
        if i == ds.len() - 1 {
            assert(ds.subrange(0, i) =~= ds.drop_last());
        } else {
            assert(ds.drop_last().subrange(0, i) =~= ds.subrange(0, i));
            lemma_transform_docs_fail(ds.drop_last(), src, i);
        }
    }
}

/// Whether no line text holds a raw newline — true of every line decoded
/// from a one-line comment literal.
pub open spec fn no_embedded_newlines(lines: Seq<LineV>) -> bool {
    forall|i: int, j: int|
        0 <= i < lines.len() && 0 <= j < lines[i].text.len() ==> (#[trigger] lines[i].text[j])
            != '\n'
}

/// Counting newlines in a prefix of `a` ignores what follows `a`.
proof fn lemma_count_prefix(a: Seq<char>, b: Seq<char>, j: int)
    requires
        0 <= j <= a.len(),
    ensures
        count_newlines(a + b, j) == count_newlines(a, j),
    decreases j,
{
    if j > 0 {
        lemma_count_prefix(a, b, j - 1);
        assert((a + b)[j - 1] == a[j - 1]);
    }
}

/// Newline counts add across a concatenation boundary.
proof fn lemma_count_concat(a: Seq<char>, b: Seq<char>, k: int)
    requires
        0 <= k <= b.len(),
    ensures
        count_newlines(a + b, a.len() + k) == count_newlines(a, a.len() as int) + count_newlines(
            b,
            k,
        ),
    decreases k,
{
    if k == 0 {
        lemma_count_prefix(a, b, a.len() as int);
    } else {
        lemma_count_concat(a, b, k - 1);
        assert((a + b)[a.len() + k - 1] == b[k - 1]);
    }
}

/// A text without newlines has newline count zero.
proof fn lemma_count_none(s: Seq<char>, k: int)
    requires
        0 <= k <= s.len(),
        forall|j: int| 0 <= j < s.len() ==> s[j] != '\n',
    ensures
        count_newlines(s, k) == 0,
    decreases k,
{
    if k > 0 {
        lemma_count_none(s, k - 1);
    }
}

/// A block of `n` lines without embedded newlines joins to a text with
/// exactly `n - 1` newlines.
proof fn lemma_join_total_newlines(lines: Seq<LineV>)
    requires
        lines.len() >= 1,
        no_embedded_newlines(lines),
    ensures
        count_newlines(
            join_texts(line_texts(lines)),
            join_texts(line_texts(lines)).len() as int,
        ) == lines.len() - 1,
    decreases lines.len(),
{
    let ts = line_texts(lines);
    let t = join_texts(ts);
    assert(ts.len() == lines.len());
    if lines.len() == 1 {
        assert(t == ts[0]);
        assert(ts[0] == lines[0].text);
        lemma_count_none(t, t.len() as int);
    } else {
        let prev = lines.drop_last();
        let tp = join_texts(line_texts(prev));
        assert(line_texts(prev) =~= ts.drop_last());
        assert(no_embedded_newlines(prev)) by {
            assert forall|i: int, j: int|
                0 <= i < prev.len() && 0 <= j < prev[i].text.len() implies (
            #[trigger] prev[i].text[j]) != '\n' by {
                assert(prev[i] == lines[i]);
            }
        }
        lemma_join_total_newlines(prev);
        let last = lines[lines.len() - 1].text;
        assert(ts.last() == last);
        let tail = seq!['\n'] + last;
        assert(t =~= tp + tail);
        lemma_count_concat(tp, tail, tail.len() as int);
        assert(count_newlines(tail, tail.len() as int) == 1) by {
            lemma_count_concat(seq!['\n'], last, last.len() as int);
            assert(seq!['\n'] + last =~= tail);
            assert(seq!['\n'][0] == '\n');
            assert(count_newlines(seq!['\n'], 0) == 0);
            assert(count_newlines(seq!['\n'], 1) == 1);
            lemma_count_none(last, last.len() as int);
        }
    }
}

/// Where an offset into the joined text falls: on the line named by the
/// newline count before it, at or after that line's start, and no further
/// than that line's end.
proof fn lemma_offset_in_row(lines: Seq<LineV>, o: int)
    requires
        lines.len() >= 1,
        no_embedded_newlines(lines),
        0 <= o <= join_texts(line_texts(lines)).len(),
    ensures
        count_newlines(join_texts(line_texts(lines)), o) < lines.len(),
        doc_prefix_len(lines, count_newlines(join_texts(line_texts(lines)), o) as int) <= o,
        o <= doc_prefix_len(lines, count_newlines(join_texts(line_texts(lines)), o) as int)
            + lines[count_newlines(join_texts(line_texts(lines)), o) as int].text.len(),
    decreases lines.len(),
{
    let ts = line_texts(lines);
    let t = join_texts(ts);
    assert(ts.len() == lines.len());
    if lines.len() == 1 {
        assert(t == ts[0]);
        assert(ts[0] == lines[0].text);
        lemma_count_none(t, o);
        assert(doc_prefix_len(lines, 0) == 0);
    } else {
        let prev = lines.drop_last();
        let tp = join_texts(line_texts(prev));
        assert(line_texts(prev) =~= ts.drop_last());
        assert(no_embedded_newlines(prev)) by {
            assert forall|i: int, j: int|
                0 <= i < prev.len() && 0 <= j < prev[i].text.len() implies (
            #[trigger] prev[i].text[j]) != '\n' by {
                assert(prev[i] == lines[i]);
            }
        }
        let last = lines[lines.len() - 1].text;
        assert(ts.last() == last);
        let tail = seq!['\n'] + last;
        assert(t =~= tp + tail);
        if o <= tp.len() {
            lemma_count_prefix(tp, tail, o);
            lemma_offset_in_row(prev, o);
            let r = count_newlines(tp, o) as int;
            lemma_doc_prefix_agree(prev, lines, r);
            assert(prev[r] == lines[r]);
        } else {
            // The offset lies on the last line, after the joining newline.
            let k = o - tp.len();
            assert(1 <= k <= tail.len());
            lemma_count_concat(tp, tail, k);
            lemma_join_total_newlines(prev);
            assert(count_newlines(tail, k) == 1) by {
                lemma_count_concat(seq!['\n'], last, k - 1);
                assert(seq!['\n'] + last =~= tail);
                assert(seq!['\n'][0] == '\n');
                assert(count_newlines(seq!['\n'], 0) == 0);
                assert(count_newlines(seq!['\n'], 1) == 1);
                lemma_count_none(last, k - 1);
            }
            assert(count_newlines(t, o) == lines.len() - 1);
            lemma_join_len(prev);
            lemma_doc_prefix_agree(prev, lines, lines.len() - 1);
            assert(doc_prefix_len(lines, lines.len() - 1) == tp.len() + 1);
        }
    }
}

/// The boundary law: a match that ends exactly at the last character of a
/// block's normalized text — the end of the block's last line — is never
/// rejected as out of bounds. Provided the block is well formed (its lines
/// hold no raw newlines, carry 1-based file lines, and name lines the file
/// has), remapping it succeeds, except on the machine-limits rejection when
/// a remapped coordinate exceeds the integer range.
pub proof fn lemma_remap_boundary(lines: Seq<LineV>, src: Seq<char>, m: MatchV)
    requires
        lines.len() >= 1,
        no_embedded_newlines(lines),
        m.offset >= 0,
        m.length >= 0,
        m.offset + m.length == join_texts(line_texts(lines)).len(),
        forall|r: int| 0 <= r < lines.len() ==> (#[trigger] lines[r].span).start.line >= 1,
        forall|r: int|
            0 <= r < lines.len() ==> line_start(src, (#[trigger] lines[r].span).start.line - 1)
                is Some,
    ensures
        spec_remap(lines, src, m) is Ok || spec_remap(lines, src, m) == Err::<
            MatchV,
            RemapError,
        >(RemapError::Overflow),
{
    let t = join_texts(line_texts(lines));
    lemma_offset_in_row(lines, m.offset);
    let row = count_newlines(t, m.offset) as int;
    assert(row < lines.len());
    assert(doc_prefix_len(lines, row) <= m.offset);
    assert(lines[row].span.start.line >= 1);
    assert(line_start(src, lines[row].span.start.line - 1) is Some);
}

/// Remapping is a pure function of the block, the file text and the match:
/// the same inputs always yield the same remapped match, so remapping the
/// same match twice cannot give two different answers.
pub proof fn lemma_remap_deterministic(
    lines: Seq<LineV>,
    src: Seq<char>,
    m: MatchV,
    r1: Result<MatchV, RemapError>,
    r2: Result<MatchV, RemapError>,
)
    requires
        r1 == spec_remap(lines, src, m),
        r2 == spec_remap(lines, src, m),
    ensures
        r1 == r2,
{
}

} // verus!
