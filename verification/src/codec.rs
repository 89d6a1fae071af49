//! The cache's serialization format.
//!
//! Cached values must come back as they went in, and a request must always
//! serialize to the same bytes so that equal requests hash to the same
//! cache key. This module defines a small binary format — little-endian
//! length-prefixed fields in a fixed order — with an encoder and decoder
//! that invert one another.

use vstd::prelude::*;

use crate::languagetool::{
    CheckLevel, CheckMatch, CheckRequest, CheckResponse, ContextV, MatchContext, MatchV, RequestV,
};
use crate::literal::scalar_value;

verus! {

/// The eight little-endian bytes of a 64-bit value.
#[verifier::opaque]
pub open spec fn enc_u64(v: u64) -> Seq<u8> {
    seq![
        (v & 0xff) as u8,
        ((v >> 8) & 0xff) as u8,
        ((v >> 16) & 0xff) as u8,
        ((v >> 24) & 0xff) as u8,
        ((v >> 32) & 0xff) as u8,
        ((v >> 40) & 0xff) as u8,
        ((v >> 48) & 0xff) as u8,
        ((v >> 56) & 0xff) as u8,
    ]
}

/// The four little-endian bytes of a 32-bit value.
#[verifier::opaque]
pub open spec fn enc_u32(v: u32) -> Seq<u8> {
    seq![(v & 0xff) as u8, ((v >> 8) & 0xff) as u8, ((v >> 16) & 0xff) as u8, ((v >> 24)
        & 0xff) as u8]
}

/// A 64-bit value encodes to eight bytes.
pub proof fn lemma_enc_u64_len(v: u64)
    ensures
        enc_u64(v).len() == 8,
{
    reveal(enc_u64);
}

/// A 32-bit value encodes to four bytes.
pub proof fn lemma_enc_u32_len(v: u32)
    ensures
        enc_u32(v).len() == 4,
{
    reveal(enc_u32);
}

/// The characters of `s`, each as its 32-bit scalar value.
pub open spec fn enc_char_seq(s: Seq<char>) -> Seq<u8>
    decreases s.len(),
{
    if s.len() == 0 {
        Seq::empty()
    } else {
        enc_u32(s[0] as u32) + enc_char_seq(s.subrange(1, s.len() as int))
    }
}

/// A length-prefixed character string.
pub open spec fn enc_chars(s: Seq<char>) -> Seq<u8> {
    enc_u64(s.len() as u64) + enc_char_seq(s)
}

/// An optional string: a presence byte, then the string when present.
pub open spec fn enc_opt_chars(o: Option<Seq<char>>) -> Seq<u8> {
    match o {
        None => seq![0u8],
        Some(s) => seq![1u8] + enc_chars(s),
    }
}

/// A boolean as one byte.
pub open spec fn enc_bool(b: bool) -> Seq<u8> {
    seq![if b {
        1u8
    } else {
        0u8
    }]
}

/// A strictness level as one byte.
pub open spec fn enc_level(l: CheckLevel) -> Seq<u8> {
    match l {
        CheckLevel::Default => seq![0u8],
        CheckLevel::Picky => seq![1u8],
    }
}

/// The strings of a list, each length-prefixed.
pub open spec fn enc_str_seq(xs: Seq<Seq<char>>) -> Seq<u8>
    decreases xs.len(),
{
    if xs.len() == 0 {
        Seq::empty()
    } else {
        enc_chars(xs[0]) + enc_str_seq(xs.subrange(1, xs.len() as int))
    }
}

/// A length-prefixed list of strings.
pub open spec fn enc_str_list(xs: Seq<Seq<char>>) -> Seq<u8> {
    enc_u64(xs.len() as u64) + enc_str_seq(xs)
}

/// The serialized form of a check request: its fields in declaration
/// order. The form is a function of the request value alone, so equal
/// requests always serialize, and therefore hash, identically.
pub open spec fn enc_request(r: RequestV) -> Seq<u8> {
    enc_chars(r.text) + enc_chars(r.language) + enc_opt_chars(r.username) + enc_opt_chars(
        r.api_key,
    ) + enc_level(r.level) + enc_str_list(r.enabled_categories) + enc_str_list(
        r.disabled_categories,
    ) + enc_str_list(r.enabled_rules) + enc_str_list(r.disabled_rules) + enc_bool(r.enabled_only)
}

/// The serialized form of a match context.
pub open spec fn enc_context(c: ContextV) -> Seq<u8> {
    enc_chars(c.text) + enc_u64(c.offset as u64) + enc_u64(c.length as u64)
}

/// The serialized form of one match.
#[verifier::opaque]
pub open spec fn enc_match(m: MatchV) -> Seq<u8> {
    enc_u64(m.offset as u64) + enc_u64(m.length as u64) + enc_chars(m.message) + enc_chars(
        m.rule_id,
    ) + enc_chars(m.rule_description) + enc_chars(m.category_id) + enc_str_list(m.replacements)
        + enc_context(m.context)
}

/// The matches of a response, in order.
pub open spec fn enc_match_seq(ms: Seq<MatchV>) -> Seq<u8>
    decreases ms.len(),
{
    if ms.len() == 0 {
        Seq::empty()
    } else {
        enc_match(ms[0]) + enc_match_seq(ms.subrange(1, ms.len() as int))
    }
}

/// The serialized form of a check response: its matches, length-prefixed.
pub open spec fn enc_response(ms: Seq<MatchV>) -> Seq<u8> {
    enc_u64(ms.len() as u64) + enc_match_seq(ms)
}

/// Appends the little-endian bytes of `v`.
fn push_u64(out: &mut Vec<u8>, v: u64)
    ensures
        final(out)@ == old(out)@ + enc_u64(v),
{
    proof {
        reveal(enc_u64);
    }
    let ghost pre = out@;
    out.push((v & 0xff) as u8);
    out.push(((v >> 8) & 0xff) as u8);
    out.push(((v >> 16) & 0xff) as u8);
    out.push(((v >> 24) & 0xff) as u8);
    out.push(((v >> 32) & 0xff) as u8);
    out.push(((v >> 40) & 0xff) as u8);
    out.push(((v >> 48) & 0xff) as u8);
    out.push(((v >> 56) & 0xff) as u8);
    proof {
        assert(out@ =~= pre + enc_u64(v));
    }
}

/// Appends the little-endian bytes of `v`.
fn push_u32(out: &mut Vec<u8>, v: u32)
    ensures
        final(out)@ == old(out)@ + enc_u32(v),
{
    proof {
        reveal(enc_u32);
    }
    let ghost pre = out@;
    out.push((v & 0xff) as u8);
    out.push(((v >> 8) & 0xff) as u8);
    out.push(((v >> 16) & 0xff) as u8);
    out.push(((v >> 24) & 0xff) as u8);
    proof {
        assert(out@ =~= pre + enc_u32(v));
    }
}

/// `enc_char_seq` distributes over concatenation.
proof fn lemma_enc_char_seq_concat(a: Seq<char>, b: Seq<char>)
    ensures
        enc_char_seq(a + b) == enc_char_seq(a) + enc_char_seq(b),
    decreases a.len(),
{
    if a.len() == 0 {
        assert(a + b =~= b);
        assert(enc_char_seq(a) + enc_char_seq(b) =~= enc_char_seq(b));
    } else {
        lemma_enc_char_seq_concat(a.subrange(1, a.len() as int), b);
        assert((a + b).subrange(1, (a + b).len() as int) =~= a.subrange(1, a.len() as int) + b);
        assert((a + b)[0] == a[0]);
        assert(enc_u32(a[0] as u32) + (enc_char_seq(a.subrange(1, a.len() as int)) + enc_char_seq(
            b,
        )) =~= (enc_u32(a[0] as u32) + enc_char_seq(a.subrange(1, a.len() as int)))
            + enc_char_seq(b));
    }
}

/// `enc_str_seq` distributes over concatenation.
proof fn lemma_enc_str_seq_concat(a: Seq<Seq<char>>, b: Seq<Seq<char>>)
    ensures
        enc_str_seq(a + b) == enc_str_seq(a) + enc_str_seq(b),
    decreases a.len(),
{
    if a.len() == 0 {
        assert(a + b =~= b);
        assert(enc_str_seq(a) + enc_str_seq(b) =~= enc_str_seq(b));
    } else {
        lemma_enc_str_seq_concat(a.subrange(1, a.len() as int), b);
        assert((a + b).subrange(1, (a + b).len() as int) =~= a.subrange(1, a.len() as int) + b);
        assert((a + b)[0] == a[0]);
        assert(enc_chars(a[0]) + (enc_str_seq(a.subrange(1, a.len() as int)) + enc_str_seq(b))
            =~= (enc_chars(a[0]) + enc_str_seq(a.subrange(1, a.len() as int))) + enc_str_seq(b));
    }
}

/// `enc_match_seq` distributes over concatenation.
proof fn lemma_enc_match_seq_concat(a: Seq<MatchV>, b: Seq<MatchV>)
    ensures
        enc_match_seq(a + b) == enc_match_seq(a) + enc_match_seq(b),
    decreases a.len(),
{
    if a.len() == 0 {
        assert(a + b =~= b);
        assert(enc_match_seq(a) + enc_match_seq(b) =~= enc_match_seq(b));
    } else {
        lemma_enc_match_seq_concat(a.subrange(1, a.len() as int), b);
        assert((a + b).subrange(1, (a + b).len() as int) =~= a.subrange(1, a.len() as int) + b);
        assert((a + b)[0] == a[0]);
        assert(enc_match(a[0]) + (enc_match_seq(a.subrange(1, a.len() as int)) + enc_match_seq(
            b,
        )) =~= (enc_match(a[0]) + enc_match_seq(a.subrange(1, a.len() as int))) + enc_match_seq(
            b,
        ));
    }
}

/// Appends the length-prefixed characters of `s`.
#[verifier::loop_isolation(false)]
fn push_chars(out: &mut Vec<u8>, s: &Vec<char>)
    ensures
        final(out)@ == old(out)@ + enc_chars(s@),
{
    push_u64(out, s.len() as u64);
    let ghost pre = out@;
    let mut i: usize = 0;
    proof {
        assert(s@.subrange(0, 0) =~= Seq::<char>::empty());
        assert(pre + enc_char_seq(s@.subrange(0, 0)) =~= pre);
    }
    while i < s.len()
        invariant
            i <= s@.len(),
            out@ == pre + enc_char_seq(s@.subrange(0, i as int)),
        decreases s@.len() - i,
    {
        push_u32(out, s[i] as u32);
        proof {
            let a = s@.subrange(0, i as int);
            let c = seq![s@[i as int]];
            lemma_enc_char_seq_concat(a, c);
            assert(a + c =~= s@.subrange(0, i + 1 as int));
            assert(enc_char_seq(c) =~= enc_u32(s@[i as int] as u32) + enc_char_seq(
                c.subrange(1, 1),
            ));
            assert(enc_char_seq(c.subrange(1, 1)) =~= Seq::<u8>::empty());
            assert(enc_char_seq(c) =~= enc_u32(s@[i as int] as u32));
            assert(out@ =~= pre + enc_char_seq(s@.subrange(0, i + 1 as int)));
        }
        i = i + 1;
    }
    proof {
        assert(s@.subrange(0, s@.len() as int) =~= s@);
        assert(out@ =~= old(out)@ + enc_chars(s@));
    }
}

/// Appends the length-prefixed characters of a string slice's view.
fn push_string(out: &mut Vec<u8>, s: &String)
    ensures
        final(out)@ == old(out)@ + enc_chars(s@),
{
    let v = crate::text::chars_of(s.as_str());
    push_chars(out, &v)
}

/// Appends an optional credential string.
fn push_opt_string(out: &mut Vec<u8>, o: &Option<String>)
    ensures
        final(out)@ == old(out)@ + enc_opt_chars(crate::languagetool::opt_string_view(*o)),
{
    let ghost pre = out@;
    match o {
        None => {
            out.push(0u8);
            proof {
                assert(out@ =~= pre + seq![0u8]);
            }
        },
        Some(s) => {
            out.push(1u8);
            let ghost mid = out@;
            proof {
                assert(mid =~= pre + seq![1u8]);
            }
            push_string(out, s);
            proof {
                assert(out@ =~= pre + (seq![1u8] + enc_chars(s@)));
            }
        },
    }
}

/// Appends a length-prefixed list of strings.
#[verifier::loop_isolation(false)]
fn push_string_list(out: &mut Vec<u8>, xs: &Vec<String>)
    ensures
        final(out)@ == old(out)@ + enc_str_list(xs@.map_values(|s: String| s@)),
{
    let ghost vs = xs@.map_values(|s: String| s@);
    push_u64(out, xs.len() as u64);
    let ghost pre = out@;
    let mut i: usize = 0;
    proof {
        assert(vs.subrange(0, 0) =~= Seq::<Seq<char>>::empty());
        assert(pre + enc_str_seq(vs.subrange(0, 0)) =~= pre);
    }
    while i < xs.len()
        invariant
            i <= xs@.len(),
            out@ == pre + enc_str_seq(vs.subrange(0, i as int)),
        decreases xs@.len() - i,
    {
        push_string(out, &xs[i]);
        proof {
            let a = vs.subrange(0, i as int);
            let c = seq![vs[i as int]];
            lemma_enc_str_seq_concat(a, c);
            assert(a + c =~= vs.subrange(0, i + 1 as int));
            assert(enc_str_seq(c.subrange(1, 1)) =~= Seq::<u8>::empty());
            assert(enc_str_seq(c) =~= enc_chars(vs[i as int]) + enc_str_seq(c.subrange(1, 1)));
            assert(enc_str_seq(c) =~= enc_chars(vs[i as int]));
            assert(out@ =~= pre + enc_str_seq(vs.subrange(0, i + 1 as int)));
        }
        i = i + 1;
    }
    proof {
        assert(vs.subrange(0, vs.len() as int) =~= vs);
        assert(out@ =~= old(out)@ + enc_str_list(vs));
    }
}

/// Serializes a check request to its canonical bytes.
pub fn encode_request(r: &CheckRequest) -> (out: Vec<u8>)
    ensures
        out@ == enc_request(r@),
{
    let mut out: Vec<u8> = Vec::new();
    push_chars(&mut out, &r.text);
    push_string(&mut out, &r.language);
    push_opt_string(&mut out, &r.username);
    push_opt_string(&mut out, &r.api_key);
    match r.level {
        CheckLevel::Default => out.push(0u8),
        CheckLevel::Picky => out.push(1u8),
    }
    push_string_list(&mut out, &r.enabled_categories);
    push_string_list(&mut out, &r.disabled_categories);
    push_string_list(&mut out, &r.enabled_rules);
    push_string_list(&mut out, &r.disabled_rules);
    out.push(if r.enabled_only {
        1u8
    } else {
        0u8
    });
    proof {
        assert(out@ =~= enc_request(r@));
    }
    out
}

/// Appends the serialized form of one match.
fn push_match(out: &mut Vec<u8>, m: &CheckMatch)
    ensures
        final(out)@ == old(out)@ + enc_match(m@),
{
    push_u64(out, m.offset as u64);
    push_u64(out, m.length as u64);
    push_chars(out, &m.message);
    push_chars(out, &m.rule_id);
    push_chars(out, &m.rule_description);
    push_chars(out, &m.category_id);
    let ghost reps = m.replacements@.map_values(|s: Vec<char>| s@);
    push_u64(out, m.replacements.len() as u64);
    let ghost pre = out@;
    let mut i: usize = 0;
    proof {
        assert(reps.subrange(0, 0) =~= Seq::<Seq<char>>::empty());
        assert(pre + enc_str_seq(reps.subrange(0, 0)) =~= pre);
    }
    while i < m.replacements.len()
        invariant
            i <= m.replacements@.len(),
            reps == m.replacements@.map_values(|s: Vec<char>| s@),
            reps.len() == m.replacements@.len(),
            out@ == pre + enc_str_seq(reps.subrange(0, i as int)),
        decreases m.replacements@.len() - i,
    {
        push_chars(out, &m.replacements[i]);
        proof {
            let a = reps.subrange(0, i as int);
            let c = seq![reps[i as int]];
            lemma_enc_str_seq_concat(a, c);
            assert(a + c =~= reps.subrange(0, i + 1 as int));
            assert(enc_str_seq(c.subrange(1, 1)) =~= Seq::<u8>::empty());
            assert(enc_str_seq(c) =~= enc_chars(reps[i as int]) + enc_str_seq(c.subrange(1, 1)));
            assert(enc_str_seq(c) =~= enc_chars(reps[i as int]));
            assert(out@ =~= pre + enc_str_seq(reps.subrange(0, i + 1 as int)));
        }
        i = i + 1;
    }
    proof {
        assert(reps.subrange(0, reps.len() as int) =~= reps);
    }
    push_chars(out, &m.context.text);
    push_u64(out, m.context.offset as u64);
    push_u64(out, m.context.length as u64);
    proof {
        reveal(enc_match);
        assert(out@ =~= old(out)@ + enc_match(m@));
    }
}

/// Serializes a check response to bytes.
pub fn encode_response(r: &CheckResponse) -> (out: Vec<u8>)
    ensures
        out@ == enc_response(r@),
{
    let ghost ms = r@;
    let mut out: Vec<u8> = Vec::new();
    push_u64(&mut out, r.matches.len() as u64);
    let ghost pre = out@;
    let mut i: usize = 0;
    proof {
        assert(ms.subrange(0, 0) =~= Seq::<MatchV>::empty());
        assert(pre + enc_match_seq(ms.subrange(0, 0)) =~= pre);
    }
    while i < r.matches.len()
        invariant
            i <= r.matches@.len(),
            ms == r@,
            ms.len() == r.matches@.len(),
            out@ == pre + enc_match_seq(ms.subrange(0, i as int)),
        decreases r.matches@.len() - i,
    {
        push_match(&mut out, &r.matches[i]);
        proof {
            let a = ms.subrange(0, i as int);
            let c = seq![ms[i as int]];
            lemma_enc_match_seq_concat(a, c);
            assert(a + c =~= ms.subrange(0, i + 1 as int));
            assert(enc_match_seq(c.subrange(1, 1)) =~= Seq::<u8>::empty());
            assert(enc_match_seq(c) =~= enc_match(ms[i as int]) + enc_match_seq(
                c.subrange(1, 1),
            ));
            assert(enc_match_seq(c) =~= enc_match(ms[i as int]));
            assert(out@ =~= pre + enc_match_seq(ms.subrange(0, i + 1 as int)));
        }
        i = i + 1;
    }
    proof {
        assert(ms.subrange(0, ms.len() as int) =~= ms);
        assert(out@ =~= enc_response(ms));
    }
    out
}

/// The 64-bit value of the eight little-endian bytes at `p`.
pub open spec fn u64_at(b: Seq<u8>, p: int) -> u64 {
    (b[p] as u64) | (b[p + 1] as u64) << 8 | (b[p + 2] as u64) << 16 | (b[p + 3] as u64) << 24 | (
    b[p + 4] as u64) << 32 | (b[p + 5] as u64) << 40 | (b[p + 6] as u64) << 48 | (b[p
        + 7] as u64) << 56
}

/// Reads a 64-bit value at `p`: the value and the next position.
pub open spec fn dec_u64(b: Seq<u8>, p: int) -> Option<(u64, int)> {
    if 0 <= p && p + 8 <= b.len() {
        Some((u64_at(b, p), p + 8))
    } else {
        None
    }
}

/// The 32-bit value of the four little-endian bytes at `p`.
pub open spec fn u32_at(b: Seq<u8>, p: int) -> u32 {
    (b[p] as u32) | (b[p + 1] as u32) << 8 | (b[p + 2] as u32) << 16 | (b[p + 3] as u32) << 24
}

/// Reads a 32-bit value at `p`: the value and the next position.
pub open spec fn dec_u32(b: Seq<u8>, p: int) -> Option<(u32, int)> {
    if 0 <= p && p + 4 <= b.len() {
        Some((u32_at(b, p), p + 4))
    } else {
        None
    }
}

/// Reads `n` characters at `p`; a value that is not a Unicode scalar fails.
pub open spec fn dec_char_seq(b: Seq<u8>, p: int, n: nat) -> Option<(Seq<char>, int)>
    decreases n,
{
    if n == 0 {
        Some((Seq::empty(), p))
    } else {
        match dec_u32(b, p) {
            Some((v, p2)) => {
                if scalar_value(v) {
                    match dec_char_seq(b, p2, (n - 1) as nat) {
                        Some((s, p3)) => Some((seq![v as char] + s, p3)),
                        None => None,
                    }
                } else {
                    None
                }
            },
            None => None,
        }
    }
}

/// Reads a length-prefixed character string at `p`.
pub open spec fn dec_chars(b: Seq<u8>, p: int) -> Option<(Seq<char>, int)> {
    match dec_u64(b, p) {
        Some((n, p2)) => {
            if n <= usize::MAX {
                dec_char_seq(b, p2, n as nat)
            } else {
                None
            }
        },
        None => None,
    }
}

/// Reads `n` length-prefixed strings at `p`.
pub open spec fn dec_str_seq(b: Seq<u8>, p: int, n: nat) -> Option<(Seq<Seq<char>>, int)>
    decreases n,
{
    if n == 0 {
        Some((Seq::empty(), p))
    } else {
        match dec_chars(b, p) {
            Some((s, p2)) => match dec_str_seq(b, p2, (n - 1) as nat) {
                Some((xs, p3)) => Some((seq![s] + xs, p3)),
                None => None,
            },
            None => None,
        }
    }
}

/// Reads a length-prefixed list of strings at `p`.
pub open spec fn dec_str_list(b: Seq<u8>, p: int) -> Option<(Seq<Seq<char>>, int)> {
    match dec_u64(b, p) {
        Some((n, p2)) => {
            if n <= usize::MAX {
                dec_str_seq(b, p2, n as nat)
            } else {
                None
            }
        },
        None => None,
    }
}

/// Reads one match at `p`. A coordinate beyond the machine's integer range
/// fails: such bytes were not produced by the encoder.
pub open spec fn dec_match(b: Seq<u8>, p: int) -> Option<(MatchV, int)> {
    match dec_u64(b, p) {
        Some((off, p1)) => {
            if off <= usize::MAX {
                match dec_u64(b, p1) {
                    Some((len, p2)) => {
                        if len <= usize::MAX {
                            match dec_chars(b, p2) {
                                Some((msg, p3)) => match dec_chars(b, p3) {
                                    Some((rid, p4)) => match dec_chars(b, p4) {
                                        Some((rdesc, p5)) => match dec_chars(b, p5) {
                                            Some((cid, p6)) => match dec_str_list(b, p6) {
                                                Some((reps, p7)) => match dec_chars(b, p7) {
                                                    Some((ctext, p8)) => match dec_u64(b, p8) {
                                                        Some((coff, p9)) => {
                                                            if coff <= usize::MAX {
                                                                match dec_u64(b, p9) {
                                                                    Some((clen, p10)) => {
                                                                        if clen <= usize::MAX {
                                                                            Some(
                                                                                (
                                                                                    MatchV {
                                                                                        offset: off as int,
                                                                                        length: len as int,
                                                                                        message: msg,
                                                                                        rule_id: rid,
                                                                                        rule_description: rdesc,
                                                                                        category_id: cid,
                                                                                        replacements: reps,
                                                                                        context: ContextV {
                                                                                            text: ctext,
                                                                                            offset: coff as int,
                                                                                            length: clen as int,
                                                                                        },
                                                                                    },
                                                                                    p10,
                                                                                ),
                                                                            )
                                                                        } else {
                                                                            None
                                                                        }
                                                                    },
                                                                    None => None,
                                                                }
                                                            } else {
                                                                None
                                                            }
                                                        },
                                                        None => None,
                                                    },
                                                    None => None,
                                                },
                                                None => None,
                                            },
                                            None => None,
                                        },
                                        None => None,
                                    },
                                    None => None,
                                },
                                None => None,
                            }
                        } else {
                            None
                        }
                    },
                    None => None,
                }
            } else {
                None
            }
        },
        None => None,
    }
}

/// Whether string lengths fit the machine's integer range; true of any
/// list of strings held in memory.
pub open spec fn wf_strs(xs: Seq<Seq<char>>) -> bool {
    xs.len() <= usize::MAX && forall|i: int|
        0 <= i < xs.len() ==> (#[trigger] xs[i]).len() <= usize::MAX
}

/// Whether a match value's coordinates and text lengths fit the machine's
/// integer range; true of the view of any [`CheckMatch`].
pub open spec fn wf_match_v(m: MatchV) -> bool {
    &&& 0 <= m.offset <= usize::MAX
    &&& 0 <= m.length <= usize::MAX
    &&& m.message.len() <= usize::MAX
    &&& m.rule_id.len() <= usize::MAX
    &&& m.rule_description.len() <= usize::MAX
    &&& m.category_id.len() <= usize::MAX
    &&& wf_strs(m.replacements)
    &&& m.context.text.len() <= usize::MAX
    &&& 0 <= m.context.offset <= usize::MAX
    &&& 0 <= m.context.length <= usize::MAX
}

/// Whether a response value is machine-representable; true of the view of
/// any [`CheckResponse`].
pub open spec fn wf_response_v(ms: Seq<MatchV>) -> bool {
    ms.len() <= usize::MAX && forall|i: int| 0 <= i < ms.len() ==> wf_match_v(#[trigger] ms[i])
}

/// The view of a response held in memory is machine-representable.
pub proof fn lemma_response_wf(r: &CheckResponse)
    ensures
        wf_response_v(r@),
{
    assert(r.matches.len() == r.matches@.len());
    assert forall|i: int| 0 <= i < r@.len() implies wf_match_v(#[trigger] r@[i]) by {
        let m = r.matches@[i];
        assert(m.message.len() == m.message@.len());
        assert(m.rule_id.len() == m.rule_id@.len());
        assert(m.rule_description.len() == m.rule_description@.len());
        assert(m.category_id.len() == m.category_id@.len());
        assert(m.replacements.len() == m.replacements@.len());
        assert forall|j: int| 0 <= j < m@.replacements.len() implies (#[trigger] m@.replacements[
            j
        ]).len() <= usize::MAX by {
            assert(m.replacements@[j].len() == m.replacements@[j]@.len());
        }
        assert(m.context.text.len() == m.context.text@.len());
        assert(r@[i] == m@);
    }
}

/// Decoding a 64-bit value from its own encoding gives it back, wherever
/// the encoding sits.
proof fn lemma_dec_enc_u64(pre: Seq<u8>, v: u64, suf: Seq<u8>)
    ensures
        dec_u64(pre + enc_u64(v) + suf, pre.len() as int) == Some((v, pre.len() + 8 as int)),
{
    reveal(enc_u64);
    let b = pre + enc_u64(v) + suf;
    let p = pre.len() as int;
    assert(b[p] == enc_u64(v)[0]);
    assert(b[p + 1] == enc_u64(v)[1]);
    assert(b[p + 2] == enc_u64(v)[2]);
    assert(b[p + 3] == enc_u64(v)[3]);
    assert(b[p + 4] == enc_u64(v)[4]);
    assert(b[p + 5] == enc_u64(v)[5]);
    assert(b[p + 6] == enc_u64(v)[6]);
    assert(b[p + 7] == enc_u64(v)[7]);
    assert(((v & 0xff) as u8 as u64) | (((v >> 8) & 0xff) as u8 as u64) << 8 | (((v >> 16)
        & 0xff) as u8 as u64) << 16 | (((v >> 24) & 0xff) as u8 as u64) << 24 | (((v >> 32)
        & 0xff) as u8 as u64) << 32 | (((v >> 40) & 0xff) as u8 as u64) << 40 | (((v >> 48)
        & 0xff) as u8 as u64) << 48 | (((v >> 56) & 0xff) as u8 as u64) << 56 == v)
        by (bit_vector);
    assert(u64_at(b, p) == v);
}

/// Decoding a 32-bit value from its own encoding gives it back.
proof fn lemma_dec_enc_u32(pre: Seq<u8>, v: u32, suf: Seq<u8>)
    ensures
        dec_u32(pre + enc_u32(v) + suf, pre.len() as int) == Some((v, pre.len() + 4 as int)),
{
    reveal(enc_u32);
    let b = pre + enc_u32(v) + suf;
    let p = pre.len() as int;
    assert(b[p] == enc_u32(v)[0]);
    assert(b[p + 1] == enc_u32(v)[1]);
    assert(b[p + 2] == enc_u32(v)[2]);
    assert(b[p + 3] == enc_u32(v)[3]);
    assert(((v & 0xff) as u8 as u32) | (((v >> 8) & 0xff) as u8 as u32) << 8 | (((v >> 16)
        & 0xff) as u8 as u32) << 16 | (((v >> 24) & 0xff) as u8 as u32) << 24 == v)
        by (bit_vector);
    assert(u32_at(b, p) == v);
}

/// Decoding characters from their own encoding gives them back.
proof fn lemma_dec_enc_char_seq(pre: Seq<u8>, s: Seq<char>, suf: Seq<u8>)
    ensures
        dec_char_seq(pre + enc_char_seq(s) + suf, pre.len() as int, s.len()) == Some(
            (s, pre.len() + enc_char_seq(s).len() as int),
        ),
    decreases s.len(),
{
    let b = pre + enc_char_seq(s) + suf;
    if s.len() == 0 {
        assert(enc_char_seq(s) =~= Seq::<u8>::empty());
        assert(Seq::<char>::empty() =~= s);
    } else {
        let c = s[0];
        let v = c as u32;
        let rest = s.subrange(1, s.len() as int);
        assert(enc_char_seq(s) == enc_u32(v) + enc_char_seq(rest));
        lemma_dec_enc_u32(pre, v, enc_char_seq(rest) + suf);
        assert(pre + enc_u32(v) + (enc_char_seq(rest) + suf) =~= b);
        assert(dec_u32(b, pre.len() as int) == Some((v, pre.len() + 4 as int)));
        assert(scalar_value(v)) by {
            vstd::utf8::char_is_scalar(c);
        }
        lemma_enc_u32_len(v);
        lemma_dec_enc_char_seq(pre + enc_u32(v), rest, suf);
        assert((pre + enc_u32(v)) + enc_char_seq(rest) + suf =~= b);
        assert((pre + enc_u32(v)).len() == pre.len() + 4);
        vstd::utf8::char_u32_cast(c, v);
        assert(seq![v as char] + rest =~= s);
        assert(pre.len() + 4 + enc_char_seq(rest).len() == pre.len() + enc_char_seq(s).len());
    }
}

/// Decoding a length-prefixed string from its own encoding gives it back.
proof fn lemma_dec_enc_chars(pre: Seq<u8>, s: Seq<char>, suf: Seq<u8>)
    requires
        s.len() <= usize::MAX,
    ensures
        dec_chars(pre + enc_chars(s) + suf, pre.len() as int) == Some(
            (s, pre.len() + enc_chars(s).len() as int),
        ),
{
    let n: u64 = s.len() as u64;
    let b = pre + enc_chars(s) + suf;
    assert(enc_chars(s) == enc_u64(n) + enc_char_seq(s));
    lemma_dec_enc_u64(pre, n, enc_char_seq(s) + suf);
    assert(pre + enc_u64(n) + (enc_char_seq(s) + suf) =~= b);
    assert(dec_u64(b, pre.len() as int) == Some((n, pre.len() + 8 as int)));
    assert(n as nat == s.len());
    lemma_enc_u64_len(n);
    lemma_dec_enc_char_seq(pre + enc_u64(n), s, suf);
    assert((pre + enc_u64(n)) + enc_char_seq(s) + suf =~= b);
    assert((pre + enc_u64(n)).len() == pre.len() + 8);
}

/// Decoding a string list's strings from their own encoding gives them back.
proof fn lemma_dec_enc_str_seq(pre: Seq<u8>, xs: Seq<Seq<char>>, suf: Seq<u8>)
    requires
        forall|i: int| 0 <= i < xs.len() ==> (#[trigger] xs[i]).len() <= usize::MAX,
    ensures
        dec_str_seq(pre + enc_str_seq(xs) + suf, pre.len() as int, xs.len()) == Some(
            (xs, pre.len() + enc_str_seq(xs).len() as int),
        ),
    decreases xs.len(),
{
    let b = pre + enc_str_seq(xs) + suf;
    if xs.len() == 0 {
        assert(enc_str_seq(xs) =~= Seq::<u8>::empty());
        assert(Seq::<Seq<char>>::empty() =~= xs);
    } else {
        let x = xs[0];
        let rest = xs.subrange(1, xs.len() as int);
        assert(enc_str_seq(xs) == enc_chars(x) + enc_str_seq(rest));
        lemma_dec_enc_chars(pre, x, enc_str_seq(rest) + suf);
        assert(pre + enc_chars(x) + (enc_str_seq(rest) + suf) =~= b);
        assert(dec_chars(b, pre.len() as int) == Some(
            (x, pre.len() + enc_chars(x).len() as int),
        ));
        lemma_dec_enc_str_seq(pre + enc_chars(x), rest, suf);
        assert((pre + enc_chars(x)) + enc_str_seq(rest) + suf =~= b);
        assert(seq![x] + rest =~= xs);
    }
}

/// Decoding a string list from its own encoding gives it back.
proof fn lemma_dec_enc_str_list(pre: Seq<u8>, xs: Seq<Seq<char>>, suf: Seq<u8>)
    requires
        wf_strs(xs),
    ensures
        dec_str_list(pre + enc_str_list(xs) + suf, pre.len() as int) == Some(
            (xs, pre.len() + enc_str_list(xs).len() as int),
        ),
{
    let n: u64 = xs.len() as u64;
    let b = pre + enc_str_list(xs) + suf;
    assert(enc_str_list(xs) == enc_u64(n) + enc_str_seq(xs));
    lemma_dec_enc_u64(pre, n, enc_str_seq(xs) + suf);
    assert(pre + enc_u64(n) + (enc_str_seq(xs) + suf) =~= b);
    assert(dec_u64(b, pre.len() as int) == Some((n, pre.len() + 8 as int)));
    assert(n as nat == xs.len());
    lemma_enc_u64_len(n);
    lemma_dec_enc_str_seq(pre + enc_u64(n), xs, suf);
    assert((pre + enc_u64(n)) + enc_str_seq(xs) + suf =~= b);
}

/// Sequence concatenation is associative.
proof fn seq_assoc<A>(x: Seq<A>, y: Seq<A>, z: Seq<A>)
    ensures
        (x + y) + z == x + (y + z),
{
    assert((x + y) + z =~= x + (y + z));
}

/// Decoding one match from its own encoding gives it back.
#[verifier::rlimit(100)]
#[verifier::spinoff_prover]
proof fn lemma_dec_enc_match(pre: Seq<u8>, m: MatchV, suf: Seq<u8>)
    requires
        wf_match_v(m),
    ensures
        dec_match(pre + enc_match(m) + suf, pre.len() as int) == Some(
            (m, pre.len() + enc_match(m).len() as int),
        ),
{
    reveal(enc_match);
    let b = pre + enc_match(m) + suf;
    let e1 = enc_u64(m.offset as u64);
    let e2 = enc_u64(m.length as u64);
    let e3 = enc_chars(m.message);
    let e4 = enc_chars(m.rule_id);
    let e5 = enc_chars(m.rule_description);
    let e6 = enc_chars(m.category_id);
    let e7 = enc_str_list(m.replacements);
    let e8 = enc_chars(m.context.text);
    let e9 = enc_u64(m.context.offset as u64);
    let e10 = enc_u64(m.context.length as u64);
    let c0 = pre;
    let c1 = c0 + e1;
    let c2 = c1 + e2;
    let c3 = c2 + e3;
    let c4 = c3 + e4;
    let c5 = c4 + e5;
    let c6 = c5 + e6;
    let c7 = c6 + e7;
    let c8 = c7 + e8;
    let c9 = c8 + e9;
    let c10 = c9 + e10;
    let r10 = suf;
    let r9 = e10 + r10;
    let r8 = e9 + r9;
    let r7 = e8 + r8;
    let r6 = e7 + r7;
    let r5 = e6 + r6;
    let r4 = e5 + r5;
    let r3 = e4 + r4;
    let r2 = e3 + r3;
    let r1 = e2 + r2;
    lemma_enc_u64_len(m.offset as u64);
    lemma_enc_u64_len(m.length as u64);
    lemma_enc_u64_len(m.context.offset as u64);
    lemma_enc_u64_len(m.context.length as u64);
    // Reassociate the encoding so that every field stands between a prefix
    // and a suffix of the whole byte string.
    assert(b == c10 + r10) by {
        seq_assoc(e1, e2, e3);
        seq_assoc(e1 + e2, e3, e4);
        seq_assoc(e1 + e2 + e3, e4, e5);
        seq_assoc(e1 + e2 + e3 + e4, e5, e6);
        seq_assoc(e1 + e2 + e3 + e4 + e5, e6, e7);
        seq_assoc(e8, e9, e10);
        seq_assoc(pre, e1 + e2 + e3 + e4 + e5 + e6 + e7, e8 + e9 + e10);
        seq_assoc(pre, e1, e2);
        seq_assoc(c1, e2, e3);
        seq_assoc(c2, e3, e4);
        seq_assoc(c3, e4, e5);
        seq_assoc(c4, e5, e6);
        seq_assoc(c5, e6, e7);
        seq_assoc(c7, e8 + e9, e10);
        seq_assoc(c7, e8, e9);
    }
    assert(b == c9 + r9 && b == c8 + r8 && b == c7 + r7 && b == c6 + r6 && b == c5 + r5 && b == c4
        + r4 && b == c3 + r3 && b == c2 + r2 && b == c1 + r1 && b == c0 + e1 + r1) by {
        seq_assoc(c9, e10, r10);
        seq_assoc(c8, e9, r9);
        seq_assoc(c7, e8, r8);
        seq_assoc(c6, e7, r7);
        seq_assoc(c5, e6, r6);
        seq_assoc(c4, e5, r5);
        seq_assoc(c3, e4, r4);
        seq_assoc(c2, e3, r3);
        seq_assoc(c1, e2, r2);
    }
    let p0 = pre.len() as int;
    let p1 = p0 + 8;
    let p2 = p1 + 8;
    let p3 = p2 + e3.len() as int;
    let p4 = p3 + e4.len() as int;
    let p5 = p4 + e5.len() as int;
    let p6 = p5 + e6.len() as int;
    let p7 = p6 + e7.len() as int;
    let p8 = p7 + e8.len() as int;
    let p9 = p8 + 8;
    let p10 = p9 + 8;
    assert(dec_u64(b, p0) == Some((m.offset as u64, p1))) by {
        lemma_dec_enc_u64(c0, m.offset as u64, r1);
        seq_assoc(c0, e1, r1);
    }
    assert(dec_u64(b, p1) == Some((m.length as u64, p2))) by {
        lemma_dec_enc_u64(c1, m.length as u64, r2);
        seq_assoc(c1, e2, r2);
    }
    assert(dec_chars(b, p2) == Some((m.message, p3))) by {
        lemma_dec_enc_chars(c2, m.message, r3);
        seq_assoc(c2, e3, r3);
    }
    assert(dec_chars(b, p3) == Some((m.rule_id, p4))) by {
        lemma_dec_enc_chars(c3, m.rule_id, r4);
        seq_assoc(c3, e4, r4);
    }
    assert(dec_chars(b, p4) == Some((m.rule_description, p5))) by {
        lemma_dec_enc_chars(c4, m.rule_description, r5);
        seq_assoc(c4, e5, r5);
    }
    assert(dec_chars(b, p5) == Some((m.category_id, p6))) by {
        lemma_dec_enc_chars(c5, m.category_id, r6);
        seq_assoc(c5, e6, r6);
    }
    assert(dec_str_list(b, p6) == Some((m.replacements, p7))) by {
        lemma_dec_enc_str_list(c6, m.replacements, r7);
        seq_assoc(c6, e7, r7);
    }
    assert(dec_chars(b, p7) == Some((m.context.text, p8))) by {
        lemma_dec_enc_chars(c7, m.context.text, r8);
        seq_assoc(c7, e8, r8);
    }
    assert(dec_u64(b, p8) == Some((m.context.offset as u64, p9))) by {
        lemma_dec_enc_u64(c8, m.context.offset as u64, r9);
        seq_assoc(c8, e9, r9);
    }
    assert(dec_u64(b, p9) == Some((m.context.length as u64, p10))) by {
        lemma_dec_enc_u64(c9, m.context.length as u64, r10);
        seq_assoc(c9, e10, r10);
    }
    assert(dec_match(b, p0) matches Some((m2, pend)) && m2 == m && pend == p10);
    assert(p10 == pre.len() + enc_match(m).len());
}

/// Decoding a response's matches from their own encoding gives them back.
#[verifier::rlimit(100)]
#[verifier::spinoff_prover]
proof fn lemma_dec_enc_match_seq(pre: Seq<u8>, ms: Seq<MatchV>, suf: Seq<u8>)
    requires
        forall|i: int| 0 <= i < ms.len() ==> wf_match_v(#[trigger] ms[i]),
    ensures
        dec_match_seq(pre + enc_match_seq(ms) + suf, pre.len() as int, ms.len()) == Some(
            (ms, pre.len() + enc_match_seq(ms).len() as int),
        ),
    decreases ms.len(),
{
    let b = pre + enc_match_seq(ms) + suf;
    if ms.len() == 0 {
        assert(enc_match_seq(ms) =~= Seq::<u8>::empty());
        assert(Seq::<MatchV>::empty() =~= ms);
        assert(pre + enc_match_seq(ms) =~= pre);
    } else {
        let m = ms[0];
        let rest = ms.subrange(1, ms.len() as int);
        let em = enc_match(m);
        let er = enc_match_seq(rest);
        assert(enc_match_seq(ms) == em + er);
        seq_assoc(pre, em, er);
        seq_assoc(pre + em, er, suf);
        assert(b == (pre + em) + (er + suf));
        lemma_dec_enc_match(pre, m, er + suf);
        assert(pre + em + (er + suf) == b);
        assert(dec_match(b, pre.len() as int) == Some((m, pre.len() + em.len() as int)));
        lemma_dec_enc_match_seq(pre + em, rest, suf);
        assert((pre + em) + er + suf == b);
        assert(seq![m] + rest =~= ms);
        assert((pre + em).len() == pre.len() + em.len());
        assert(pre.len() + em.len() + er.len() == pre.len() + enc_match_seq(ms).len());
    }
}

/// The round trip: a response decodes from its own serialized form to
/// exactly itself, so a cached value read back is the value stored.
#[verifier::rlimit(100)]
#[verifier::spinoff_prover]
pub proof fn lemma_response_roundtrip(ms: Seq<MatchV>)
    requires
        wf_response_v(ms),
    ensures
        dec_response(enc_response(ms)) == Some(ms),
{
    let n: u64 = ms.len() as u64;
    let b = enc_response(ms);
    assert(b == enc_u64(n) + enc_match_seq(ms));
    lemma_dec_enc_u64(Seq::empty(), n, enc_match_seq(ms));
    assert(Seq::empty() + enc_u64(n) + enc_match_seq(ms) =~= b);
    assert(dec_u64(b, 0) == Some((n, 8int)));
    assert(n as nat == ms.len());
    lemma_enc_u64_len(n);
    lemma_dec_enc_match_seq(enc_u64(n), ms, Seq::empty());
    assert(enc_u64(n) + enc_match_seq(ms) + Seq::empty() =~= b);
    assert(enc_u64(n).len() + enc_match_seq(ms).len() == b.len());
}

/// Reads `n` matches at `p`.
pub open spec fn dec_match_seq(b: Seq<u8>, p: int, n: nat) -> Option<(Seq<MatchV>, int)>
    decreases n,
{
    if n == 0 {
        Some((Seq::empty(), p))
    } else {
        match dec_match(b, p) {
            Some((m, p2)) => match dec_match_seq(b, p2, (n - 1) as nat) {
                Some((ms, p3)) => Some((seq![m] + ms, p3)),
                None => None,
            },
            None => None,
        }
    }
}

/// Deserializes a whole response: its matches, consuming all of `b`.
pub open spec fn dec_response(b: Seq<u8>) -> Option<Seq<MatchV>> {
    match dec_u64(b, 0) {
        Some((n, p)) => {
            if n <= usize::MAX {
                match dec_match_seq(b, p, n as nat) {
                    Some((ms, p2)) => {
                        if p2 == b.len() {
                            Some(ms)
                        } else {
                            None
                        }
                    },
                    None => None,
                }
            } else {
                None
            }
        },
        None => None,
    }
}

/// Reads a 64-bit little-endian value.
fn read_u64(b: &Vec<u8>, p: usize) -> (r: Option<(u64, usize)>)
    ensures
        match r {
            Some(vp) => dec_u64(b@, p as int) == Some((vp.0, vp.1 as int)),
            None => dec_u64(b@, p as int) is None,
        },
{
    if b.len() >= 8 && p <= b.len() - 8 {
        let v = (b[p] as u64) | (b[p + 1] as u64) << 8 | (b[p + 2] as u64) << 16 | (b[p
            + 3] as u64) << 24 | (b[p + 4] as u64) << 32 | (b[p + 5] as u64) << 40 | (b[p
            + 6] as u64) << 48 | (b[p + 7] as u64) << 56;
        Some((v, p + 8))
    } else {
        None
    }
}

/// Reads a 32-bit little-endian value.
fn read_u32(b: &Vec<u8>, p: usize) -> (r: Option<(u32, usize)>)
    ensures
        match r {
            Some(vp) => dec_u32(b@, p as int) == Some((vp.0, vp.1 as int)),
            None => dec_u32(b@, p as int) is None,
        },
{
    if b.len() >= 4 && p <= b.len() - 4 {
        let v = (b[p] as u32) | (b[p + 1] as u32) << 8 | (b[p + 2] as u32) << 16 | (b[p
            + 3] as u32) << 24;
        Some((v, p + 4))
    } else {
        None
    }
}

/// Reads `n` characters.
#[verifier::loop_isolation(false)]
fn read_char_vec(b: &Vec<u8>, p: usize, n: u64) -> (r: Option<(Vec<char>, usize)>)
    ensures
        match r {
            Some(vp) => dec_char_seq(b@, p as int, n as nat) == Some((vp.0@, vp.1 as int)),
            None => dec_char_seq(b@, p as int, n as nat) is None,
        },
{
    let mut out: Vec<char> = Vec::new();
    let mut q: usize = p;
    let mut i: u64 = 0;
    while i < n
        invariant
            i <= n,
            match dec_char_seq(b@, p as int, n as nat) {
                Some(vp) => dec_char_seq(b@, q as int, (n - i) as nat) matches Some(rp)
                    && vp.0 == out@ + rp.0 && vp.1 == rp.1,
                None => dec_char_seq(b@, q as int, (n - i) as nat) is None,
            },
        decreases n - i,
    {
        match read_u32(b, q) {
            Some((v, q2)) => {
                match char::from_u32(v) {
                    Some(c) => {
                        proof {
                            vstd::utf8::char_u32_cast(c, v);
                        }
                        out.push(c);
                        proof {
                            let rest = dec_char_seq(b@, q2 as int, (n - i - 1) as nat);
                            if dec_char_seq(b@, p as int, n as nat) is Some {
                                assert(out@.drop_last() + (seq![v as char] + rest->Some_0.0)
                                    =~= out@ + rest->Some_0.0);
                            }
                        }
                        q = q2;
                    },
                    None => {
                        return None;
                    },
                }
            },
            None => {
                return None;
            },
        }
        i = i + 1;
    }
    proof {
        if dec_char_seq(b@, p as int, n as nat) is Some {
            assert(out@ + Seq::<char>::empty() =~= out@);
        }
    }
    Some((out, q))
}

/// Reads a length-prefixed character string.
fn read_chars(b: &Vec<u8>, p: usize) -> (r: Option<(Vec<char>, usize)>)
    ensures
        match r {
            Some(vp) => dec_chars(b@, p as int) == Some((vp.0@, vp.1 as int)),
            None => dec_chars(b@, p as int) is None,
        },
{
    match read_u64(b, p) {
        Some((n, p2)) => {
            if n <= usize::MAX as u64 {
                read_char_vec(b, p2, n)
            } else {
                None
            }
        },
        None => None,
    }
}

/// Reads a length-prefixed list of strings.
#[verifier::loop_isolation(false)]
fn read_str_list(b: &Vec<u8>, p: usize) -> (r: Option<(Vec<Vec<char>>, usize)>)
    ensures
        match r {
            Some(vp) => dec_str_list(b@, p as int) == Some(
                (vp.0@.map_values(|s: Vec<char>| s@), vp.1 as int),
            ),
            None => dec_str_list(b@, p as int) is None,
        },
{
    let (n, p2) = match read_u64(b, p) {
        Some(x) => x,
        None => {
            return None;
        },
    };
    if n > usize::MAX as u64 {
        return None;
    }
    let mut out: Vec<Vec<char>> = Vec::new();
    let mut q: usize = p2;
    let mut i: u64 = 0;
    proof {
        assert(out@.map_values(|s: Vec<char>| s@) =~= Seq::<Seq<char>>::empty());
    }
    while i < n
        invariant
            i <= n,
            match dec_str_seq(b@, p2 as int, n as nat) {
                Some(vp) => dec_str_seq(b@, q as int, (n - i) as nat) matches Some(rp) && vp.0
                    == out@.map_values(|s: Vec<char>| s@) + rp.0 && vp.1 == rp.1,
                None => dec_str_seq(b@, q as int, (n - i) as nat) is None,
            },
        decreases n - i,
    {
        match read_chars(b, q) {
            Some((s, q2)) => {
                let ghost old_map = out@.map_values(|s: Vec<char>| s@);
                let ghost sv = s@;
                out.push(s);
                proof {
                    assert(out@.map_values(|s: Vec<char>| s@) =~= old_map.push(sv));
                    let rest = dec_str_seq(b@, q2 as int, (n - i - 1) as nat);
                    if dec_str_seq(b@, p2 as int, n as nat) is Some {
                        assert(old_map.push(sv) + rest->Some_0.0 =~= old_map + (seq![sv]
                            + rest->Some_0.0));
                    }
                }
                q = q2;
            },
            None => {
                return None;
            },
        }
        i = i + 1;
    }
    proof {
        if dec_str_seq(b@, p2 as int, n as nat) is Some {
            assert(out@.map_values(|s: Vec<char>| s@) + Seq::<Seq<char>>::empty()
                =~= out@.map_values(|s: Vec<char>| s@));
        }
    }
    Some((out, q))
}

/// Reads one match.
fn read_match(b: &Vec<u8>, p: usize) -> (r: Option<(CheckMatch, usize)>)
    ensures
        match r {
            Some(vp) => dec_match(b@, p as int) == Some((vp.0@, vp.1 as int)),
            None => dec_match(b@, p as int) is None,
        },
{
    let (off, p1) = match read_u64(b, p) {
        Some(x) => x,
        None => {
            return None;
        },
    };
    if off > usize::MAX as u64 {
        return None;
    }
    let (len, p2) = match read_u64(b, p1) {
        Some(x) => x,
        None => {
            return None;
        },
    };
    if len > usize::MAX as u64 {
        return None;
    }
    let (msg, p3) = match read_chars(b, p2) {
        Some(x) => x,
        None => {
            return None;
        },
    };
    let (rid, p4) = match read_chars(b, p3) {
        Some(x) => x,
        None => {
            return None;
        },
    };
    let (rdesc, p5) = match read_chars(b, p4) {
        Some(x) => x,
        None => {
            return None;
        },
    };
    let (cid, p6) = match read_chars(b, p5) {
        Some(x) => x,
        None => {
            return None;
        },
    };
    let (reps, p7) = match read_str_list(b, p6) {
        Some(x) => x,
        None => {
            return None;
        },
    };
    let (ctext, p8) = match read_chars(b, p7) {
        Some(x) => x,
        None => {
            return None;
        },
    };
    let (coff, p9) = match read_u64(b, p8) {
        Some(x) => x,
        None => {
            return None;
        },
    };
    if coff > usize::MAX as u64 {
        return None;
    }
    let (clen, p10) = match read_u64(b, p9) {
        Some(x) => x,
        None => {
            return None;
        },
    };
    if clen > usize::MAX as u64 {
        return None;
    }
    let m = CheckMatch {
        offset: off as usize,
        length: len as usize,
        message: msg,
        rule_id: rid,
        rule_description: rdesc,
        category_id: cid,
        replacements: reps,
        context: MatchContext { text: ctext, offset: coff as usize, length: clen as usize },
    };
    proof {
        assert(dec_match(b@, p as int) matches Some(vp) && vp.0 =~= m@ && vp.1 == p10);
    }
    Some((m, p10))
}

/// Deserializes a check response from bytes; `None` when the bytes are not
/// a whole serialized response.
#[verifier::loop_isolation(false)]
pub fn decode_response(b: &Vec<u8>) -> (r: Option<CheckResponse>)
    ensures
        match r {
            Some(resp) => dec_response(b@) == Some(resp@),
            None => dec_response(b@) is None,
        },
{
    let (n, p0) = match read_u64(b, 0) {
        Some(x) => x,
        None => {
            return None;
        },
    };
    if n > usize::MAX as u64 {
        return None;
    }
    let mut out: Vec<CheckMatch> = Vec::new();
    let mut q: usize = p0;
    let mut i: u64 = 0;
    proof {
        assert(out@.map_values(|m: CheckMatch| m@) =~= Seq::<MatchV>::empty());
    }
    while i < n
        invariant
            i <= n,
            match dec_match_seq(b@, p0 as int, n as nat) {
                Some(vp) => dec_match_seq(b@, q as int, (n - i) as nat) matches Some(rp) && vp.0
                    == out@.map_values(|m: CheckMatch| m@) + rp.0 && vp.1 == rp.1,
                None => dec_match_seq(b@, q as int, (n - i) as nat) is None,
            },
        decreases n - i,
    {
        match read_match(b, q) {
            Some((m, q2)) => {
                let ghost old_map = out@.map_values(|m: CheckMatch| m@);
                let ghost mv = m@;
                out.push(m);
                proof {
                    assert(out@.map_values(|m: CheckMatch| m@) =~= old_map.push(mv));
                    let rest = dec_match_seq(b@, q2 as int, (n - i - 1) as nat);
                    if dec_match_seq(b@, p0 as int, n as nat) is Some {
                        assert(old_map.push(mv) + rest->Some_0.0 =~= old_map + (seq![mv]
                            + rest->Some_0.0));
                    }
                }
                q = q2;
            },
            None => {
                return None;
            },
        }
        i = i + 1;
    }
    if q != b.len() {
        proof {
            if dec_match_seq(b@, p0 as int, n as nat) is Some {
                assert(out@.map_values(|m: CheckMatch| m@) + Seq::<MatchV>::empty()
                    =~= out@.map_values(|m: CheckMatch| m@));
            }
        }
        return None;
    }
    proof {
        if dec_match_seq(b@, p0 as int, n as nat) is Some {
            assert(out@.map_values(|m: CheckMatch| m@) + Seq::<MatchV>::empty()
                =~= out@.map_values(|m: CheckMatch| m@));
        }
    }
    Some(CheckResponse { matches: out })
}

} // verus!
