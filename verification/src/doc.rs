//! Documentation-comment data model: positions, spans, lines and blocks,
//! and the aggregation of doc-comment literals out of a token tree.

use vstd::prelude::*;

use crate::cache::{get_or_post, request_key, CacheStatus, SledCacheStore};
use crate::cli::{spec_check_request, Config};
use crate::languagetool::{CheckRequest, CheckResponse, MatchV, RemoteError};
use crate::literal::{dec_lit, decode_string_literal, DecodeError};
use crate::text::str_eq;

verus! {

/// A 1-based line / column position in a source file.
#[derive(Debug, Copy, Clone, PartialEq, Eq, Structural)]
pub struct DocPos {
    pub line: usize,
    pub column: usize,
}

/// A region of a source file, from `start` to `end` inclusive.
#[derive(Debug, Copy, Clone, PartialEq, Eq, Structural)]
pub struct DocSpan {
    pub start: DocPos,
    pub end: DocPos,
}

impl DocPos {
    pub fn new(line: usize, column: usize) -> (r: DocPos)
        ensures
            r.line == line,
            r.column == column,
    {
        DocPos { line, column }
    }
}

impl DocSpan {
    pub fn new(start: DocPos, end: DocPos) -> (r: DocSpan)
        ensures
            r.start == start,
            r.end == end,
    {
        DocSpan { start, end }
    }
}

/// One token of the host language's token tree, with the parts this library
/// reads: identifiers by name, literals by their undecoded string form and
/// source span, groups by their nested tokens.
pub enum Token {
    Ident(String),
    Literal { repr: String, span: DocSpan },
    Group(Vec<Token>),
    Punct,
}

/// One raw doc-comment literal: the undecoded string-literal text and the
/// span it occupies in the file.
#[derive(Debug, Clone)]
pub struct RawLit {
    pub repr: String,
    pub span: DocSpan,
}

/// The mathematical value of a [`RawLit`].
#[verifier::ext_equal]
pub struct LitV {
    pub repr: Seq<char>,
    pub span: DocSpan,
}

impl View for RawLit {
    type V = LitV;

    open spec fn view(&self) -> LitV {
        LitV { repr: self.repr@, span: self.span }
    }
}

/// The doc-comment literals of a token sequence, in order. A literal counts
/// as a doc comment when the latest identifier seen on the same nesting
/// level was the doc marker; groups are scanned with a fresh marker state.
pub open spec fn doc_lits(ts: Seq<Token>, is_doc: bool) -> Seq<LitV>
    decreases ts,
{
    if ts.len() == 0 {
        Seq::empty()
    } else {
        let rest = ts.subrange(1, ts.len() as int);
        match ts[0] {
            Token::Ident(name) => doc_lits(rest, name@ == "doc"@),
            Token::Literal { repr, span } => {
                if is_doc {
                    seq![LitV { repr: repr@, span }] + doc_lits(rest, is_doc)
                } else {
                    doc_lits(rest, is_doc)
                }
            },
            Token::Group(inner) => doc_lits(inner@, false) + doc_lits(rest, is_doc),
            Token::Punct => doc_lits(rest, is_doc),
        }
    }
}

/// The ordered doc-comment literals collected from one file's token tree.
#[derive(Debug, Clone)]
pub struct RawDocs(pub Vec<RawLit>);

impl View for RawDocs {
    type V = Seq<LitV>;

    open spec fn view(&self) -> Seq<LitV> {
        self.0@.map_values(|l: RawLit| l@)
    }
}

impl RawDocs {
    /// Scans a token tree and collects its doc-comment literals, in order.
    pub fn from_tokens(tokens: &Vec<Token>) -> (r: RawDocs)
        ensures
            r@ == doc_lits(tokens@, false),
        decreases tokens@,
    {
        let mut out: Vec<RawLit> = Vec::new();
        let mut is_doc = false;
        let mut i: usize = 0;
        proof {
            assert(tokens@.subrange(0, tokens@.len() as int) =~= tokens@);
            assert(Seq::<RawLit>::empty().map_values(|l: RawLit| l@) + doc_lits(tokens@, false)
                =~= doc_lits(tokens@, false));
        }
        while i < tokens.len()
            invariant
                i <= tokens@.len(),
                doc_lits(tokens@, false) == out@.map_values(|l: RawLit| l@) + doc_lits(
                    tokens@.subrange(i as int, tokens@.len() as int),
                    is_doc,
                ),
            decreases tokens@.len() - i,
        {
            let ghost pre = tokens@.subrange(i as int, tokens@.len() as int);
            proof {
                assert(pre[0] == tokens@[i as int]);
                assert(pre.subrange(1, pre.len() as int) =~= tokens@.subrange(
                    i + 1 as int,
                    tokens@.len() as int,
                ));
            }
            match &tokens[i] {
                Token::Ident(name) => {
                    is_doc = str_eq(name.as_str(), "doc");
                },
                Token::Literal { repr, span } => {
                    if is_doc {
                        let lit = RawLit { repr: repr.clone(), span: *span };
                        let ghost old_map = out@.map_values(|l: RawLit| l@);
                        let ghost rest = pre.subrange(1, pre.len() as int);
                        out.push(lit);
                        proof {
                            assert(out@.map_values(|l: RawLit| l@) =~= old_map + seq![lit@]);
                            assert(old_map + (seq![lit@] + doc_lits(rest, is_doc)) =~= (old_map
                                + seq![lit@]) + doc_lits(rest, is_doc));
                        }
                    }
                },
                Token::Group(inner) => {
                    proof {
                        assert(tokens@[i as int] == Token::Group(*inner));
                        assert(decreases_to!(tokens@ => tokens@[i as int]));
                        assert(decreases_to!(tokens@[i as int] => tokens@[i as int]->Group_0));
                        assert(decreases_to!(*inner => inner@));
                    }
                    let mut nested = RawDocs::from_tokens(inner);
                    let ghost old_map = out@.map_values(|l: RawLit| l@);
                    let ghost nested_seq = nested.0@;
                    let ghost rest = pre.subrange(1, pre.len() as int);
                    out.append(&mut nested.0);
                    proof {
                        assert(out@.map_values(|l: RawLit| l@) =~= old_map + nested_seq.map_values(
                            |l: RawLit| l@,
                        ));
                        assert(old_map + (doc_lits(inner@, false) + doc_lits(rest, is_doc))
                            =~= (old_map + doc_lits(inner@, false)) + doc_lits(rest, is_doc));
                    }
                },
                Token::Punct => {},
            }
            i = i + 1;
        }
        proof {
            assert(tokens@.subrange(tokens@.len() as int, tokens@.len() as int)
                =~= Seq::<Token>::empty());
            assert(out@.map_values(|l: RawLit| l@) + Seq::<LitV>::empty() =~= out@.map_values(
                |l: RawLit| l@,
            ));
        }
        RawDocs(out)
    }

    /// Returns true if empty.
    #[must_use]
    pub fn is_empty(&self) -> (r: bool)
        ensures
            r == (self@.len() == 0),
    {
        self.0.is_empty()
    }
}

/// One decoded doc-comment line: its plain text and the span of the literal
/// it came from.
#[derive(Debug)]
pub struct DocLine {
    pub text: Vec<char>,
    pub span: DocSpan,
}

/// The mathematical value of a [`DocLine`].
#[verifier::ext_equal]
pub struct LineV {
    pub text: Seq<char>,
    pub span: DocSpan,
}

impl View for DocLine {
    type V = LineV;

    open spec fn view(&self) -> LineV {
        LineV { text: self.text@, span: self.span }
    }
}

/// One block of vertically-adjacent doc-comment lines, with the checker's
/// response for the block once one has been obtained.
#[derive(Debug)]
pub struct Doc {
    pub text: Vec<DocLine>,
    pub check_response: Option<CheckResponse>,
}

/// The mathematical value of a [`Doc`].
#[verifier::ext_equal]
pub struct DocV {
    pub lines: Seq<LineV>,
    pub response: Option<Seq<MatchV>>,
}

impl View for Doc {
    type V = DocV;

    open spec fn view(&self) -> DocV {
        DocV {
            lines: self.text@.map_values(|l: DocLine| l@),
            response: match self.check_response {
                Some(r) => Some(r@),
                None => None,
            },
        }
    }
}

/// The decoded form of one raw literal: the quoted form is decoded, and when
/// the decoded text starts with a single space, that space is stripped and
/// the line's start column advanced by one (the visual marker already sits
/// before the stripped space). `None` when the literal does not decode, or
/// when the column cannot be advanced.
pub open spec fn decode_line(l: LitV) -> Option<LineV> {
    match dec_lit(l.repr) {
        Some(t) => {
            if t.len() > 0 && t[0] == ' ' {
                if l.span.start.column == usize::MAX {
                    None
                } else {
                    Some(
                        LineV {
                            text: t.subrange(1, t.len() as int),
                            span: DocSpan {
                                start: DocPos {
                                    line: l.span.start.line,
                                    column: (l.span.start.column + 1) as usize,
                                },
                                end: l.span.end,
                            },
                        },
                    )
                }
            } else {
                Some(LineV { text: t, span: l.span })
            }
        },
        None => None,
    }
}

/// The decoded forms of a sequence of raw literals; `None` when any literal
/// fails to decode.
pub open spec fn decode_lines(ls: Seq<LitV>) -> Option<Seq<LineV>>
    decreases ls.len(),
{
    if ls.len() == 0 {
        Some(Seq::empty())
    } else {
        match decode_lines(ls.drop_last()) {
            Some(init) => match decode_line(ls.last()) {
                Some(l) => Some(init.push(l)),
                None => None,
            },
            None => None,
        }
    }
}

/// Whether `next` sits on the file line directly below the end of `prev`:
/// exactly the condition for the two lines to share a block.
pub open spec fn adjacent(prev: LineV, next: LineV) -> bool {
    next.span.start.line - prev.span.end.line == 1
}

/// Folds a sequence of decoded lines into blocks: each line joins the
/// current block when it is adjacent to that block's last line, and starts
/// a new block otherwise.
pub open spec fn group_blocks(ls: Seq<LineV>) -> Seq<Seq<LineV>>
    decreases ls.len(),
{
    if ls.len() == 0 {
        Seq::empty()
    } else {
        let init = group_blocks(ls.drop_last());
        let l = ls.last();
        if init.len() == 0 {
            seq![seq![l]]
        } else {
            let lastb = init.last();
            if lastb.len() > 0 && adjacent(lastb.last(), l) {
                init.update(init.len() - 1, lastb.push(l))
            } else {
                init.push(seq![l])
            }
        }
    }
}

/// A file's doc comments: the raw literals they came from, and the decoded
/// lines grouped into blocks.
#[derive(Debug)]
pub struct Docs {
    pub original: RawDocs,
    pub fixed: Vec<Doc>,
}

impl Docs {
    /// The blocks of this value, each as its sequence of decoded lines.
    pub open spec fn blocks(&self) -> Seq<Seq<LineV>> {
        self.fixed@.map_values(|d: Doc| d@.lines)
    }

    /// Decodes a file's raw doc-comment literals and groups them into
    /// blocks of vertically-adjacent lines. Fails loudly when a literal is
    /// not a well-formed quoted string.
    pub fn try_from_raw(original: RawDocs) -> (r: Result<Docs, DecodeError>)
        ensures
            match r {
                Ok(docs) => {
                    &&& decode_lines(original@) matches Some(ls) && docs.blocks() == group_blocks(
                        ls,
                    )
                    &&& forall|i: int|
                        0 <= i < docs.fixed@.len() ==> (#[trigger] docs.fixed@[i])@.response
                            is None
                    &&& docs.original@ == original@
                },
                Err(e) => decode_lines(original@) is None && e == DecodeError,
            },
    {
        let mut fixed: Vec<Doc> = Vec::new();
        let mut j: usize = 0;
        let ghost lits = original@;
        let ghost mut decoded: Seq<LineV> = Seq::empty();
        proof {
            assert(lits.subrange(0, 0) =~= Seq::<LitV>::empty());
            assert(fixed@.map_values(|d: Doc| d@.lines) =~= group_blocks(decoded));
        }
        while j < original.0.len()
            invariant
                j <= original.0@.len(),
                lits == original@,
                lits.len() == original.0@.len(),
                decode_lines(lits.subrange(0, j as int)) == Some(decoded),
                fixed@.map_values(|d: Doc| d@.lines) == group_blocks(decoded),
                forall|i: int| 0 <= i < fixed@.len() ==> (#[trigger] fixed@[i]).text@.len() >= 1,
                forall|i: int|
                    0 <= i < fixed@.len() ==> (#[trigger] fixed@[i])@.response is None,
                decoded.len() > 0 ==> fixed@.len() > 0 && fixed@.last()@.lines.last()
                    == decoded.last(),
                decoded.len() == 0 ==> fixed@.len() == 0,
            decreases original.0@.len() - j,
        {
            let lit = &original.0[j];
            let mut text = match decode_string_literal(lit.repr.as_str()) {
                Ok(t) => t,
                Err(e) => {
                    proof {
                        lemma_decode_lines_fail(lits, j as int);
                    }
                    return Err(e);
                },
            };
            let mut span = lit.span;
            if text.len() > 0 && text[0] == ' ' {
                if span.start.column == usize::MAX {
                    proof {
                        lemma_decode_lines_fail(lits, j as int);
                    }
                    return Err(DecodeError);
                }
                text.remove(0);
                span = DocSpan {
                    start: DocPos { line: span.start.line, column: span.start.column + 1 },
                    end: span.end,
                };
                proof {
                    assert(text@ =~= dec_lit(lits[j as int].repr)->Some_0.subrange(
                        1,
                        dec_lit(lits[j as int].repr)->Some_0.len() as int,
                    ));
                }
            }
            let line = DocLine { text, span };
            let ghost lv = line@;
            proof {
                assert(decode_line(lits[j as int]) == Some(lv));
                assert(lits.subrange(0, j + 1 as int).drop_last() =~= lits.subrange(0, j as int));
                assert(lits.subrange(0, j + 1 as int).last() == lits[j as int]);
                assert(decode_lines(lits.subrange(0, j + 1 as int)) == Some(decoded.push(lv)));
                assert(decoded.push(lv).drop_last() =~= decoded);
            }
            let adjacent_to_last = if fixed.len() > 0 {
                let d = &fixed[fixed.len() - 1];
                let prev_end = d.text[d.text.len() - 1].span.end.line;
                prev_end < usize::MAX && line.span.start.line == prev_end + 1
            } else {
                false
            };
            let ghost old_fixed = fixed@;
            if adjacent_to_last {
                let mut d = fixed.pop().unwrap();
                d.text.push(line);
                fixed.push(d);
                proof {
                    assert(fixed@.map_values(|d: Doc| d@.lines) =~= group_blocks(
                        decoded.push(lv),
                    )) by {
                        assert(old_fixed.map_values(|d: Doc| d@.lines).last().push(lv)
                            =~= fixed@.map_values(|d: Doc| d@.lines).last());
                        assert(group_blocks(decoded.push(lv)) =~= group_blocks(decoded).update(
                            group_blocks(decoded).len() - 1,
                            group_blocks(decoded).last().push(lv),
                        ));
                    }
                }
            } else {
                let d = Doc { text: vec![line], check_response: None };
                proof {
                    assert(d@.lines =~= seq![lv]);
                }
                fixed.push(d);
                proof {
                    if decoded.len() == 0 {
                        assert(fixed@.map_values(|d: Doc| d@.lines) =~= seq![seq![lv]]);
                        assert(group_blocks(decoded.push(lv)) =~= seq![seq![lv]]);
                    } else {
                        assert(fixed@.map_values(|d: Doc| d@.lines) =~= group_blocks(
                            decoded,
                        ).push(seq![lv]));
                        assert(group_blocks(decoded.push(lv)) =~= group_blocks(decoded).push(
                            seq![lv],
                        ));
                    }
                }
            }
            proof {
                decoded = decoded.push(lv);
            }
            j = j + 1;
        }
        proof {
            assert(lits.subrange(0, lits.len() as int) =~= lits);
        }
        Ok(Docs { original, fixed })
    }
}

/// The newline-joined reconstruction of a block's line texts: the normalized
/// text sent to the remote checker.
pub open spec fn join_texts(ts: Seq<Seq<char>>) -> Seq<char>
    decreases ts.len(),
{
    if ts.len() == 0 {
        Seq::empty()
    } else if ts.len() == 1 {
        ts[0]
    } else {
        join_texts(ts.drop_last()) + seq!['\n'] + ts.last()
    }
}

/// The texts of a block's lines.
pub open spec fn line_texts(lines: Seq<LineV>) -> Seq<Seq<char>> {
    lines.map_values(|l: LineV| l.text)
}

impl Doc {
    /// The block's normalized text: its line texts joined with newlines.
    pub fn joined_text(&self) -> (r: Vec<char>)
        ensures
            r@ == join_texts(line_texts(self@.lines)),
    {
        let ghost ts = line_texts(self@.lines);
        let mut out: Vec<char> = Vec::new();
        let mut i: usize = 0;
        proof {
            assert(ts.subrange(0, 0) =~= Seq::<Seq<char>>::empty());
            assert(out@ =~= join_texts(ts.subrange(0, 0)));
        }
        while i < self.text.len()
            invariant
                i <= self.text@.len(),
                ts == line_texts(self@.lines),
                ts.len() == self.text@.len(),
                out@ == join_texts(ts.subrange(0, i as int)),
            decreases self.text@.len() - i,
        {
            let ghost pre = ts.subrange(0, i as int);
            let ghost cur = ts.subrange(0, i + 1 as int);
            if i > 0 {
                out.push('\n');
            }
            let line = &self.text[i];
            let mut k: usize = 0;
            let ghost mid = out@;
            while k < line.text.len()
                invariant
                    k <= line.text@.len(),
                    out@ == mid + line.text@.subrange(0, k as int),
                decreases line.text@.len() - k,
            {
                out.push(line.text[k]);
                proof {
                    assert(mid + line.text@.subrange(0, k as int).push(line.text@[k as int]) =~= mid
                        + line.text@.subrange(0, k + 1 as int));
                }
                k = k + 1;
            }
            proof {
                assert(line.text@.subrange(0, line.text@.len() as int) =~= line.text@);
                assert(cur.drop_last() =~= pre);
                assert(cur.last() == ts[i as int]);
                assert(ts[i as int] == line.text@);
                if i == 0 {
                    assert(out@ =~= join_texts(cur));
                } else {
                    assert(out@ =~= join_texts(pre) + seq!['\n'] + line.text@);
                }
            }
            i = i + 1;
        }
        proof {
            assert(ts.subrange(0, ts.len() as int) =~= ts);
        }
        out
    }
}

/// What checking one block did.
#[derive(Debug, Clone, Copy, PartialEq, Eq, Structural)]
pub enum CheckOutcome {
    /// The block was checked; how the cache took part.
    Checked(CacheStatus),
    /// The block's result was already cached and was deliberately not
    /// obtained or reported again.
    Skipped,
}

impl DocV {
    /// The check request value that checking this block builds.
    pub open spec fn request(self, c: Config) -> crate::languagetool::RequestV {
        spec_check_request(join_texts(line_texts(self.lines)), c)
    }
}

impl Doc {
    /// Obtains this block's check response, as configuration directs:
    /// with "no cache" set, a fresh check is computed and overwrites the
    /// cache entry; otherwise, with "show all" set or no cached entry
    /// present, the response comes from the cache or a fresh check that is
    /// written through; otherwise the block is skipped — its result was
    /// already seen — with no network call and no cache write. A cache
    /// that cannot be read disables caching and computes directly.
    ///
    /// `check_fn` performs the remote check itself; what it returns is the
    /// caller's to decide, so this function promises only where the
    /// response came from, never that the check succeeds.
    pub fn checked<F: FnOnce(CheckRequest) -> Result<CheckResponse, RemoteError>>(
        &mut self,
        config: &Config,
        cache: &mut SledCacheStore,
        check_fn: F,
    ) -> (r: Result<CheckOutcome, RemoteError>)
        requires
            forall|q: CheckRequest| call_requires(check_fn, (q,)),
        ensures
            final(self)@.lines == old(self)@.lines,
            match r {
                Ok(CheckOutcome::Skipped) => {
                    &&& !config.no_cache && !config.show_all
                    &&& old(cache)@.contains_key(request_key(old(self)@.request(*config)))
                    &&& final(self).check_response == old(self).check_response
                    &&& final(cache)@ == old(cache)@
                },
                Ok(CheckOutcome::Checked(st)) => {
                    &&& final(self)@.response matches Some(ms) && get_or_post(
                        old(cache)@,
                        final(cache)@,
                        old(self)@.request(*config),
                        ms,
                        st,
                    ) && (st != CacheStatus::Hit ==> exists|q: CheckRequest, resp: CheckResponse|
                        q@ == old(self)@.request(*config) && resp@ == ms && call_ensures(
                            check_fn,
                            (q,),
                            Ok(resp),
                        ))
                    &&& config.no_cache ==> st != CacheStatus::Hit
                },
                Err(e) => final(self).check_response == old(self).check_response
                    && final(cache)@ == old(cache)@,
            },
    {
        let text = self.joined_text();
        let req = config.check_request(text);
        let ghost reqg = req;
        let ghost rv = old(self)@.request(*config);
        proof {
            assert(reqg@ == rv);
        }
        if config.no_cache {
            match cache.set_and_get(req, check_fn) {
                Ok((resp, st)) => {
                    let ghost respg = resp;
                    self.check_response = Some(resp);
                    proof {
                        assert(reqg@ == rv && respg@ == respg@ && call_ensures(
                            check_fn,
                            (reqg,),
                            Ok(respg),
                        ));
                    }
                    Ok(CheckOutcome::Checked(st))
                },
                Err(e) => Err(e),
            }
        } else if config.show_all {
            match cache.get_or(req, check_fn) {
                Ok((resp, st)) => {
                    let ghost respg = resp;
                    self.check_response = Some(resp);
                    proof {
                        if st != CacheStatus::Hit {
                            assert(reqg@ == rv && call_ensures(check_fn, (reqg,), Ok(respg)));
                        }
                    }
                    Ok(CheckOutcome::Checked(st))
                },
                Err(e) => Err(e),
            }
        } else {
            let cached = match cache.hits(&req) {
                Ok(b) => b,
                Err(_) => false,
            };
            if cached {
                Ok(CheckOutcome::Skipped)
            } else {
                match cache.get_or(req, check_fn) {
                    Ok((resp, st)) => {
                        let ghost respg = resp;
                        self.check_response = Some(resp);
                        proof {
                            if st != CacheStatus::Hit {
                                assert(reqg@ == rv && call_ensures(check_fn, (reqg,), Ok(respg)));
                            }
                        }
                        Ok(CheckOutcome::Checked(st))
                    },
                    Err(e) => Err(e),
                }
            }
        }
    }
}

impl Docs {
    /// Checks every block in order, continuing past per-block failures so
    /// that one failing block cannot keep its siblings from being checked;
    /// the per-block outcomes are returned in block order, for the caller
    /// to report once all blocks have been attempted.
    pub fn checked<F: Fn(CheckRequest) -> Result<CheckResponse, RemoteError>>(
        &mut self,
        config: &Config,
        cache: &mut SledCacheStore,
        check_fn: &F,
    ) -> (outcomes: Vec<Result<CheckOutcome, RemoteError>>)
        requires
            forall|q: CheckRequest| call_requires(*check_fn, (q,)),
        ensures
            outcomes@.len() == old(self).fixed@.len(),
            final(self).fixed@.len() == old(self).fixed@.len(),
            forall|i: int|
                0 <= i < outcomes@.len() ==> (#[trigger] final(self).fixed@[i])@.lines == old(
                    self,
                ).fixed@[i]@.lines,
            forall|i: int|
                0 <= i < outcomes@.len() ==> ((#[trigger] outcomes@[i]) matches Ok(
                    CheckOutcome::Checked(_),
                ) ==> final(self).fixed@[i]@.response is Some),
            forall|i: int|
                0 <= i < outcomes@.len() ==> (!((#[trigger] outcomes@[i]) matches Ok(
                    CheckOutcome::Checked(_),
                )) ==> final(self).fixed@[i].check_response == old(self).fixed@[
                    i
                ].check_response),
    {
        let n = self.fixed.len();
        let mut outcomes: Vec<Result<CheckOutcome, RemoteError>> = Vec::new();
        let mut i: usize = 0;
        while i < n
            invariant
                i <= n,
                n == old(self).fixed@.len(),
                self.fixed@.len() == n,
                outcomes@.len() == i,
                forall|q: CheckRequest| call_requires(*check_fn, (q,)),
                forall|j: int| i <= j < n ==> self.fixed@[j] == old(self).fixed@[j],
                forall|j: int|
                    0 <= j < i ==> (#[trigger] self.fixed@[j])@.lines == old(self).fixed@[
                        j
                    ]@.lines,
                forall|j: int|
                    0 <= j < i ==> ((#[trigger] outcomes@[j]) matches Ok(
                        CheckOutcome::Checked(_),
                    ) ==> self.fixed@[j]@.response is Some),
                forall|j: int|
                    0 <= j < i ==> (!((#[trigger] outcomes@[j]) matches Ok(
                        CheckOutcome::Checked(_),
                    )) ==> self.fixed@[j].check_response == old(self).fixed@[j].check_response),
            decreases n - i,
        {
            let g = |q: CheckRequest| -> (out: Result<CheckResponse, RemoteError>)
                requires
                    call_requires(*check_fn, (q,)),
                ensures
                    call_ensures(*check_fn, (q,), out),
                { check_fn(q) };
            let outcome = self.fixed[i].checked(config, cache, g);
            outcomes.push(outcome);
            i = i + 1;
        }
        outcomes
    }
}

/// The number of lines over all blocks.
pub open spec fn total_lines(blocks: Seq<Seq<LineV>>) -> nat
    decreases blocks.len(),
{
    if blocks.len() == 0 {
        0
    } else {
        total_lines(blocks.drop_last()) + blocks.last().len()
    }
}

/// Aggregation partitions the lines: the blocks of `group_blocks(ls)`,
/// concatenated in order, are exactly `ls`, so every decoded doc-comment
/// line stands in exactly one block, and the blocks' line counts add up to
/// the number of lines.
/// Decoding keeps the count: one decoded line per literal.
proof fn lemma_decode_lines_len(ls: Seq<LitV>)
    requires
        decode_lines(ls) is Some,
    ensures
        decode_lines(ls)->Some_0.len() == ls.len(),
    decreases ls.len(),
{
    if ls.len() > 0 {
        lemma_decode_lines_len(ls.drop_last());
    }
}

/// Aggregation partitions the doc-comment literals of a token tree: once
/// every literal decodes, each decoded line stands in exactly one block,
/// and the blocks' line counts add up to the number of doc-comment
/// literals the tree holds.
pub proof fn lemma_aggregate_partitions(ts: Seq<Token>)
    requires
        decode_lines(doc_lits(ts, false)) is Some,
    ensures
        group_blocks(decode_lines(doc_lits(ts, false))->Some_0).flatten() == decode_lines(
            doc_lits(ts, false),
        )->Some_0,
        total_lines(group_blocks(decode_lines(doc_lits(ts, false))->Some_0)) == doc_lits(
            ts,
            false,
        ).len(),
{
    lemma_decode_lines_len(doc_lits(ts, false));
    lemma_blocks_partition(decode_lines(doc_lits(ts, false))->Some_0);
}

pub proof fn lemma_blocks_partition(ls: Seq<LineV>)
    ensures
        group_blocks(ls).flatten() == ls,
        total_lines(group_blocks(ls)) == ls.len(),
{
    lemma_blocks_partition_alt(ls);
    group_blocks(ls).lemma_flatten_and_flatten_alt_are_equivalent();
}

/// As [`lemma_blocks_partition`], stated over `flatten_alt`.
proof fn lemma_blocks_partition_alt(ls: Seq<LineV>)
    ensures
        group_blocks(ls).flatten_alt() == ls,
        total_lines(group_blocks(ls)) == ls.len(),
    decreases ls.len(),
{
    if ls.len() == 0 {
        assert(group_blocks(ls).flatten_alt() =~= ls);
    } else {
        let init_ls = ls.drop_last();
        let l = ls.last();
        let init = group_blocks(init_ls);
        lemma_blocks_partition_alt(init_ls);
        if init.len() == 0 {
            assert(init.flatten_alt() =~= Seq::<LineV>::empty());
            let blocks = seq![seq![l]];
            assert(blocks.drop_last() =~= Seq::<Seq<LineV>>::empty());
            assert(blocks.flatten_alt() =~= ls);
        } else {
            let lastb = init.last();
            if lastb.len() > 0 && adjacent(lastb.last(), l) {
                let blocks = init.update(init.len() - 1, lastb.push(l));
                assert(blocks.drop_last() =~= init.drop_last());
                assert(blocks.last() == lastb.push(l));
                assert(blocks.flatten_alt() == init.drop_last().flatten_alt() + lastb.push(l));
                assert(init.flatten_alt() == init.drop_last().flatten_alt() + lastb);
                assert(init.drop_last().flatten_alt() + lastb.push(l) =~= (init.drop_last()
                    .flatten_alt() + lastb).push(l));
                assert(init_ls.push(l) =~= ls);
            } else {
                let blocks = init.push(seq![l]);
                assert(blocks.drop_last() =~= init);
                assert(blocks.flatten_alt() == init.flatten_alt() + seq![l]);
                assert(init_ls + seq![l] =~= ls);
            }
        }
    }
}

/// Block shape: every block is non-empty; any two consecutive lines within
/// one block are vertically adjacent; and across a block boundary the first
/// line of the later block is not adjacent to the last line of the earlier
/// one — exactly where a new block starts.
pub proof fn lemma_blocks_adjacency(ls: Seq<LineV>)
    ensures
        forall|b: int|
            0 <= b < group_blocks(ls).len() ==> (#[trigger] group_blocks(ls)[b]).len() >= 1,
        forall|b: int, i: int|
            0 <= b < group_blocks(ls).len() && 0 < i < group_blocks(ls)[b].len() ==> adjacent(
                group_blocks(ls)[b][i - 1],
                #[trigger] group_blocks(ls)[b][i],
            ),
        forall|b: int|
            0 < b < group_blocks(ls).len() ==> !adjacent(
                group_blocks(ls)[b - 1].last(),
                #[trigger] group_blocks(ls)[b][0],
            ),
    decreases ls.len(),
{
    if ls.len() == 0 {
    } else {
        let init_ls = ls.drop_last();
        let l = ls.last();
        let init = group_blocks(init_ls);
        let blocks = group_blocks(ls);
        lemma_blocks_adjacency(init_ls);
        if init.len() == 0 {
            assert(blocks =~= seq![seq![l]]);
        } else {
            let lastb = init.last();
            if lastb.len() > 0 && adjacent(lastb.last(), l) {
                let k = init.len() - 1;
                assert(blocks == init.update(k, lastb.push(l)));
                assert forall|b: int, i: int|
                    0 <= b < blocks.len() && 0 < i < blocks[b].len() implies adjacent(
                    blocks[b][i - 1],
                    #[trigger] blocks[b][i],
                ) by {
                    if b == k {
                        if i < lastb.len() {
                            assert(blocks[b][i] == lastb[i]);
                            assert(blocks[b][i - 1] == lastb[i - 1]);
                        } else {
                            assert(i == lastb.len());
                            assert(blocks[b][i] == l);
                            assert(blocks[b][i - 1] == lastb.last());
                        }
                    } else {
                        assert(blocks[b] == init[b]);
                    }
                }
                assert forall|b: int| 0 < b < blocks.len() implies !adjacent(
                    blocks[b - 1].last(),
                    #[trigger] blocks[b][0],
                ) by {
                    if b == k {
                        assert(blocks[b][0] == lastb[0]);
                        assert(blocks[b - 1] == init[b - 1]);
                        assert(init[b][0] == lastb[0]);
                    } else {
                        assert(blocks[b] == init[b]);
                        assert(blocks[b - 1] == init[b - 1]);
                    }
                }
            } else {
                assert(blocks == init.push(seq![l]));
                assert(lastb.len() >= 1);
                assert(!adjacent(lastb.last(), l));
                assert forall|b: int| 0 < b < blocks.len() implies !adjacent(
                    blocks[b - 1].last(),
                    #[trigger] blocks[b][0],
                ) by {
                    if b == blocks.len() - 1 {
                        assert(blocks[b][0] == l);
                        assert(blocks[b - 1] == init.last());
                    } else {
                        assert(blocks[b] == init[b]);
                        assert(blocks[b - 1] == init[b - 1]);
                    }
                }
            }
        }
    }
}

/// When one literal of `ls` fails to decode, the whole sequence fails.
proof fn lemma_decode_lines_fail(ls: Seq<LitV>, j: int)
    requires
        0 <= j < ls.len(),
        decode_line(ls[j]) is None,
    ensures
        decode_lines(ls) is None,
    decreases ls.len(),
{
    if ls.len() > 0 {
        if j == ls.len() - 1 {
        } else {
            lemma_decode_lines_fail(ls.drop_last(), j);
        }
    }
}

} // verus!
