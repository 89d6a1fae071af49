//! Decoding of quoted string literals into plain text.
//!
//! A doc-comment literal reaches this library in its source form: surrounded
//! by double quotes, with special characters escaped. Decoding removes the
//! quotes and resolves the escapes, and fails loudly on anything that is not
//! a well-formed quoted literal.

use vstd::prelude::*;

verus! {

/// The one decoding failure: the input is not a well-formed quoted string
/// literal in the escape dialect this library accepts.
#[derive(Debug, Clone, Copy, PartialEq, Eq, Structural)]
pub struct DecodeError;

/// Relies on `char::from_u32`: returns `Some` exactly on Unicode scalar
/// values (below the surrogate range, or between it and 0x10FFFF), and the
/// returned character has the given value.
pub assume_specification[ char::from_u32 ](u: u32) -> (r: Option<char>)
    ensures
        r matches Some(c) ==> c as u32 == u,
        (r is Some) <==> (u < 0xD800 || (0xE000 <= u && u <= 0x10FFFF)),
;

/// Whether `v` is a Unicode scalar value.
pub open spec fn scalar_value(v: u32) -> bool {
    v < 0xD800 || (0xE000 <= v && v <= 0x10FFFF)
}

/// The value of one hexadecimal digit.
pub open spec fn spec_hex_val(c: char) -> Option<u32> {
    if '0' <= c && c <= '9' {
        Some((c as u32 - '0' as u32) as u32)
    } else if 'a' <= c && c <= 'f' {
        Some((c as u32 - 'a' as u32 + 10) as u32)
    } else if 'A' <= c && c <= 'F' {
        Some((c as u32 - 'A' as u32 + 10) as u32)
    } else {
        None
    }
}

/// Decoder state: scanning plain characters, after a backslash, after `\u`,
/// or inside the braces of a `\u{...}` escape.
#[derive(Debug, Clone, Copy, PartialEq, Eq, Structural)]
pub enum DecState {
    Normal,
    Esc,
    UniOpen,
    UniHex { val: u32, ndigits: u8 },
}

/// One step of the literal decoder: state and decoded text so far, next
/// character in, new state and decoded text out; `None` on malformed input.
pub open spec fn dec_step(st: DecState, out: Seq<char>, c: char) -> Option<(DecState, Seq<char>)> {
    match st {
        DecState::Normal => {
            if c == '"' {
                None
            } else if c == '\\' {
                Some((DecState::Esc, out))
            } else {
                Some((DecState::Normal, out.push(c)))
            }
        },
        DecState::Esc => {
            if c == '"' {
                Some((DecState::Normal, out.push('"')))
            } else if c == '\\' {
                Some((DecState::Normal, out.push('\\')))
            } else if c == '\'' {
                Some((DecState::Normal, out.push('\'')))
            } else if c == 'n' {
                Some((DecState::Normal, out.push('\n')))
            } else if c == 'r' {
                Some((DecState::Normal, out.push('\r')))
            } else if c == 't' {
                Some((DecState::Normal, out.push('\t')))
            } else if c == '0' {
                Some((DecState::Normal, out.push('\0')))
            } else if c == 'u' {
                Some((DecState::UniOpen, out))
            } else {
                None
            }
        },
        DecState::UniOpen => {
            if c == '{' {
                Some((DecState::UniHex { val: 0, ndigits: 0 }, out))
            } else {
                None
            }
        },
        DecState::UniHex { val, ndigits } => {
            if c == '}' {
                if ndigits >= 1 && scalar_value(val) {
                    Some((DecState::Normal, out.push(val as char)))
                } else {
                    None
                }
            } else {
                match spec_hex_val(c) {
                    Some(d) => {
                        if ndigits < 6 && val < 0x100000 {
                            Some(
                                (
                                    DecState::UniHex {
                                        val: (16 * val + d) as u32,
                                        ndigits: (ndigits + 1) as u8,
                                    },
                                    out,
                                ),
                            )
                        } else {
                            None
                        }
                    },
                    None => None,
                }
            }
        },
    }
}

/// Runs the decoder over `s` from state `st` with `out` already decoded.
/// The input is well formed when every step succeeds and the final state is
/// `Normal`.
pub open spec fn dec_run(s: Seq<char>, st: DecState, out: Seq<char>) -> Option<Seq<char>>
    decreases s.len(),
{
    if s.len() == 0 {
        if st is Normal {
            Some(out)
        } else {
            None
        }
    } else {
        match dec_step(st, out, s[0]) {
            Some((st2, out2)) => dec_run(s.subrange(1, s.len() as int), st2, out2),
            None => None,
        }
    }
}

/// The decoded text of a quoted string literal, or `None` when the input is
/// not one.
pub open spec fn dec_lit(repr: Seq<char>) -> Option<Seq<char>> {
    if repr.len() >= 2 && repr[0] == '"' && repr[repr.len() - 1] == '"' {
        dec_run(repr.subrange(1, repr.len() - 1), DecState::Normal, Seq::empty())
    } else {
        None
    }
}

/// The value of one hexadecimal digit.
fn hex_val(c: char) -> (r: Option<u32>)
    ensures
        r == spec_hex_val(c),
{
    if '0' <= c && c <= '9' {
        Some(c as u32 - '0' as u32)
    } else if 'a' <= c && c <= 'f' {
        Some(c as u32 - 'a' as u32 + 10)
    } else if 'A' <= c && c <= 'F' {
        Some(c as u32 - 'A' as u32 + 10)
    } else {
        None
    }
}

/// Decodes a quoted string literal to its plain text.
///
/// Accepted inputs are surrounded by double quotes and contain plain
/// characters and the escapes `\"`, `\\`, `\'`, `\n`, `\r`, `\t`, `\0` and
/// `\u{...}` (one to six hexadecimal digits naming a Unicode scalar value).
/// Anything else is rejected with [`DecodeError`]: a malformed literal is
/// reported, never silently skipped.
pub fn decode_string_literal(repr: &str) -> (r: Result<Vec<char>, DecodeError>)
    ensures
        match r {
            Ok(v) => dec_lit(repr@) == Some(v@),
            Err(e) => dec_lit(repr@) is None && e == DecodeError,
        },
{
    let cs = crate::text::chars_of(repr);
    let n = cs.len();
    if n < 2 {
        return Err(DecodeError);
    }
    if cs[0] != '"' || cs[n - 1] != '"' {
        return Err(DecodeError);
    }
    let ghost interior = repr@.subrange(1, repr@.len() - 1);
    let mut out: Vec<char> = Vec::new();
    let mut st = DecState::Normal;
    let mut i: usize = 1;
    proof {
        assert(interior.subrange(0, interior.len() as int) =~= interior);
    }
    while i < n - 1
        invariant
            1 <= i <= n - 1,
            n == cs@.len(),
            cs@ == repr@,
            n >= 2,
            interior == repr@.subrange(1, repr@.len() - 1),
            dec_run(interior, DecState::Normal, Seq::empty()) == dec_run(
                interior.subrange(i - 1, interior.len() as int),
                st,
                out@,
            ),
        decreases n - i,
    {
        let c = cs[i];
        let ghost rest = interior.subrange(i - 1, interior.len() as int);
        proof {
            assert(rest[0] == repr@[i as int]);
            assert(rest.subrange(1, rest.len() as int) =~= interior.subrange(
                i as int,
                interior.len() as int,
            ));
        }
        match st {
            DecState::Normal => {
                if c == '"' {
                    return Err(DecodeError);
                } else if c == '\\' {
                    st = DecState::Esc;
                } else {
                    out.push(c);
                }
            },
            DecState::Esc => {
                if c == '"' {
                    out.push('"');
                    st = DecState::Normal;
                } else if c == '\\' {
                    out.push('\\');
                    st = DecState::Normal;
                } else if c == '\'' {
                    out.push('\'');
                    st = DecState::Normal;
                } else if c == 'n' {
                    out.push('\n');
                    st = DecState::Normal;
                } else if c == 'r' {
                    out.push('\r');
                    st = DecState::Normal;
                } else if c == 't' {
                    out.push('\t');
                    st = DecState::Normal;
                } else if c == '0' {
                    out.push('\0');
                    st = DecState::Normal;
                } else if c == 'u' {
                    st = DecState::UniOpen;
                } else {
                    return Err(DecodeError);
                }
            },
            DecState::UniOpen => {
                if c == '{' {
                    st = DecState::UniHex { val: 0, ndigits: 0 };
                } else {
                    return Err(DecodeError);
                }
            },
            DecState::UniHex { val, ndigits } => {
                if c == '}' {
                    if ndigits >= 1 {
                        match char::from_u32(val) {
                            Some(ch) => {
                                proof {
                                    vstd::utf8::char_u32_cast(ch, val);
                                }
                                out.push(ch);
                                st = DecState::Normal;
                            },
                            None => {
                                return Err(DecodeError);
                            },
                        }
                    } else {
                        return Err(DecodeError);
                    }
                } else {
                    match hex_val(c) {
                        Some(d) => {
                            if ndigits < 6 && val < 0x100000 {
                                st = DecState::UniHex { val: 16 * val + d, ndigits: ndigits + 1 };
                            } else {
                                return Err(DecodeError);
                            }
                        },
                        None => {
                            return Err(DecodeError);
                        },
                    }
                }
            },
        }
        i = i + 1;
    }
    proof {
        assert(interior.subrange(n - 2 as int, interior.len() as int) =~= Seq::<char>::empty());
    }
    match st {
        DecState::Normal => Ok(out),
        _ => Err(DecodeError),
    }
}

} // verus!
