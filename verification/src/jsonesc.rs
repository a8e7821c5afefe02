//! JSON string escaping at the byte level.
//!
//! The token payload holds the user name inside a JSON string literal. The
//! writer escapes the quote, the backslash and control bytes (the latter as
//! `\u00XX`); all other bytes, including the continuation bytes of multi-byte
//! characters, pass through unchanged. The reader accepts exactly those three
//! escape forms and stops at the first unescaped quote.

use vstd::prelude::*;

verus! {

/// Lowercase hexadecimal digit of a value below 16.
pub open spec fn hex_digit(v: u8) -> u8
    recommends
        v < 16,
{
    if v < 10 {
        (0x30 + v) as u8
    } else {
        (0x61 + (v - 10)) as u8
    }
}

/// Value of a hexadecimal digit byte, either case.
pub open spec fn hex_val(c: u8) -> Option<u8> {
    if 0x30 <= c <= 0x39 {
        Some((c - 0x30) as u8)
    } else if 0x61 <= c <= 0x66 {
        Some((10 + (c - 0x61)) as u8)
    } else if 0x41 <= c <= 0x46 {
        Some((10 + (c - 0x41)) as u8)
    } else {
        None
    }
}

pub proof fn lemma_hex_digit_val(v: u8)
    requires
        v < 16,
    ensures
        hex_val(hex_digit(v)) == Some(v),
{
}

/// Escape of one byte.
pub open spec fn esc_byte(b: u8) -> Seq<u8> {
    if b == 0x22 {
        seq![0x5Cu8, 0x22u8]
    } else if b == 0x5C {
        seq![0x5Cu8, 0x5Cu8]
    } else if b < 0x20 {
        seq![0x5Cu8, 0x75u8, 0x30u8, 0x30u8, hex_digit(b >> 4), hex_digit(b & 0xF)]
    } else {
        seq![b]
    }
}

/// Escape of a byte string.
pub open spec fn json_escape(s: Seq<u8>) -> Seq<u8>
    decreases s.len(),
{
    if s.len() == 0 {
        seq![]
    } else {
        esc_byte(s[0]) + json_escape(s.drop_first())
    }
}

/// Reads an escaped string up to and including its closing quote; yields the
/// unescaped content and what follows the quote.
pub open spec fn unescape_str(s: Seq<u8>) -> Option<(Seq<u8>, Seq<u8>)>
    decreases s.len(),
{
    if s.len() == 0 {
        None
    } else if s[0] == 0x22 {
        Some((seq![], s.drop_first()))
    } else if s[0] == 0x5C {
        if s.len() >= 2 && (s[1] == 0x22 || s[1] == 0x5C) {
            match unescape_str(s.skip(2)) {
                Some(t) => Some((seq![s[1]] + t.0, t.1)),
                None => None,
            }
        } else if s.len() >= 6 && s[1] == 0x75 && s[2] == 0x30 && s[3] == 0x30 {
            match (hex_val(s[4]), hex_val(s[5])) {
                (Some(h), Some(l)) => match unescape_str(s.skip(6)) {
                    Some(t) => Some((seq![((h << 4) | l) as u8] + t.0, t.1)),
                    None => None,
                },
                _ => None,
            }
        } else {
            None
        }
    } else {
        match unescape_str(s.drop_first()) {
            Some(t) => Some((seq![s[0]] + t.0, t.1)),
            None => None,
        }
    }
}

/// Prefixes the content of an optional unescape result.
pub open spec fn unesc_cat(pre: Seq<u8>, t: Option<(Seq<u8>, Seq<u8>)>) -> Option<
    (Seq<u8>, Seq<u8>),
> {
    match t {
        Some(p) => Some((pre + p.0, p.1)),
        None => None,
    }
}

proof fn lemma_unesc_cat_empty(t: Option<(Seq<u8>, Seq<u8>)>)
    ensures
        unesc_cat(Seq::<u8>::empty(), t) == t,
{
    match t {
        Some(p) => {
            assert(Seq::<u8>::empty() + p.0 =~= p.0);
            assert(unesc_cat(Seq::<u8>::empty(), t)->0 =~= p);
        },
        None => {},
    }
}

proof fn lemma_unesc_cat_assoc(a: Seq<u8>, b: Seq<u8>, t: Option<(Seq<u8>, Seq<u8>)>)
    ensures
        unesc_cat(a, unesc_cat(b, t)) == unesc_cat(a + b, t),
{
    match t {
        Some(p) => {
            assert(a + (b + p.0) =~= (a + b) + p.0);
        },
        None => {},
    }
}

/// Unescaping inverts escaping: reading the escape of `s` followed by a
/// closing quote yields `s` and leaves the rest untouched.
pub proof fn lemma_unescape_escape(s: Seq<u8>, rest: Seq<u8>)
    ensures
        unescape_str(json_escape(s) + seq![0x22u8] + rest) == Some((s, rest)),
    decreases s.len(),
{
    let whole = json_escape(s) + seq![0x22u8] + rest;
    if s.len() == 0 {
        assert(whole =~= seq![0x22u8] + rest);
        assert(whole.drop_first() =~= rest);
        assert(unescape_str(whole)->0 =~= (s, rest));
    } else {
        let b = s[0];
        lemma_unescape_escape(s.drop_first(), rest);
        let tail = json_escape(s.drop_first()) + seq![0x22u8] + rest;
        if b == 0x22 {
            assert(whole =~= seq![0x5Cu8, 0x22u8] + tail);
            assert(whole.skip(2) =~= tail);
            assert(seq![whole[1]] + s.drop_first() =~= s);
            assert(unescape_str(whole)->0 =~= (s, rest));
        } else if b == 0x5C {
            assert(whole =~= seq![0x5Cu8, 0x5Cu8] + tail);
            assert(whole.skip(2) =~= tail);
            assert(seq![whole[1]] + s.drop_first() =~= s);
            assert(unescape_str(whole)->0 =~= (s, rest));
        } else if b < 0x20 {
            assert(b >> 4 < 16 && b & 0xF < 16 && ((b >> 4) << 4) | (b & 0xF) == b)
                by (bit_vector);
            lemma_hex_digit_val(b >> 4);
            lemma_hex_digit_val(b & 0xF);
            assert(whole =~= seq![
                0x5Cu8,
                0x75u8,
                0x30u8,
                0x30u8,
                hex_digit(b >> 4),
                hex_digit(b & 0xF),
            ] + tail);
            assert(whole.skip(6) =~= tail);
            assert(whole[0] == 0x5C && whole[1] == 0x75 && whole[2] == 0x30 && whole[3] == 0x30);
            assert(hex_digit(b >> 4) != 0x22 && hex_digit(b >> 4) != 0x5C);
            assert(seq![b] + s.drop_first() =~= s);
            assert(unescape_str(whole)->0 =~= (s, rest));
        } else {
            assert(whole =~= seq![b] + tail);
            assert(whole.drop_first() =~= tail);
            assert(b != 0x22 && b != 0x5C);
            assert(seq![b] + s.drop_first() =~= s);
            assert(unescape_str(whole)->0 =~= (s, rest));
        }
    }
}

fn hex_digit_exec(v: u8) -> (c: u8)
    requires
        v < 16,
    ensures
        c == hex_digit(v),
{
    if v < 10 {
        0x30 + v
    } else {
        0x61 + (v - 10)
    }
}

fn hex_val_exec(c: u8) -> (r: Option<u8>)
    ensures
        r == hex_val(c),
{
    if 0x30 <= c && c <= 0x39 {
        Some(c - 0x30)
    } else if 0x61 <= c && c <= 0x66 {
        Some(10 + (c - 0x61))
    } else if 0x41 <= c && c <= 0x46 {
        Some(10 + (c - 0x41))
    } else {
        None
    }
}

/// Appends the escape of `s` to `out`.
pub fn escape_to(s: &[u8], out: &mut Vec<u8>)
    ensures
        final(out)@ == old(out)@ + json_escape(s@),
{
    let mut i: usize = 0;
    proof {
        assert(s@.skip(0) =~= s@);
    }
    while i < s.len()
        invariant
            0 <= i <= s@.len(),
            old(out)@ + json_escape(s@) == out@ + json_escape(s@.skip(i as int)),
        decreases s@.len() - i,
    {
        let ghost rem = s@.skip(i as int);
        let b = s[i];
        proof {
            assert(rem[0] == b);
            assert(rem.drop_first() =~= s@.skip(i as int + 1));
        }
        let ghost out0 = out@;
        if b == 0x22 {
            out.push(0x5C);
            out.push(0x22);
        } else if b == 0x5C {
            out.push(0x5C);
            out.push(0x5C);
        } else if b < 0x20 {
            proof {
                assert(b >> 4 < 16 && b & 0xF < 16) by (bit_vector);
            }
            out.push(0x5C);
            out.push(0x75);
            out.push(0x30);
            out.push(0x30);
            out.push(hex_digit_exec(b >> 4));
            out.push(hex_digit_exec(b & 0xF));
        } else {
            out.push(b);
        }
        proof {
            assert(out@ =~= out0 + esc_byte(b));
            assert(out0 + (esc_byte(b) + json_escape(rem.drop_first())) =~= (out0 + esc_byte(b))
                + json_escape(rem.drop_first()));
        }
        i = i + 1;
    }
    proof {
        assert(json_escape(s@.skip(s@.len() as int)) =~= Seq::<u8>::empty());
        assert(out@ =~= old(out)@ + json_escape(s@));
    }
}

/// Reads an escaped string starting at `start`, which must sit just after
/// the opening quote; on success returns the unescaped content and the index
/// just past the closing quote.
pub fn unescape_from(s: &[u8], start: usize) -> (r: Option<(Vec<u8>, usize)>)
    requires
        start <= s@.len(),
    ensures
        r is Some <==> unescape_str(s@.skip(start as int)) is Some,
        r is Some ==> start < (r->0).1 <= s@.len(),
        r is Some ==> unescape_str(s@.skip(start as int)) == Some(
            ((r->0).0@, s@.skip((r->0).1 as int)),
        ),
{
    let ghost orig = s@.skip(start as int);
    let mut acc: Vec<u8> = Vec::new();
    let mut i: usize = start;
    proof {
        lemma_unesc_cat_empty(unescape_str(orig));
    }
    while i < s.len()
        invariant
            start <= i <= s@.len(),
            orig == s@.skip(start as int),
            unesc_cat(acc@, unescape_str(s@.skip(i as int))) == unescape_str(orig),
        decreases s@.len() - i,
    {
        let ghost rem = s@.skip(i as int);
        let b = s[i];
        proof {
            assert(rem[0] == b);
            assert(rem.drop_first() =~= s@.skip(i as int + 1));
        }
        if b == 0x22 {
            proof {
                assert(unescape_str(rem) == Some((Seq::<u8>::empty(), s@.skip(i as int + 1))));
                assert(acc@ + Seq::<u8>::empty() =~= acc@);
            }
            return Some((acc, i + 1));
        } else if b == 0x5C {
            if i + 1 < s.len() && (s[i + 1] == 0x22 || s[i + 1] == 0x5C) {
                let c = s[i + 1];
                proof {
                    assert(rem.len() >= 2 && rem[1] == c);
                    assert(rem.skip(2) =~= s@.skip(i as int + 2));
                    lemma_unesc_cat_assoc(acc@, seq![c], unescape_str(rem.skip(2)));
                }
                let ghost acc0 = acc@;
                acc.push(c);
                proof {
                    assert(acc@ =~= acc0 + seq![c]);
                }
                i = i + 2;
            } else if s.len() - i > 5 && s[i + 1] == 0x75 && s[i + 2] == 0x30 && s[i + 3] == 0x30 {
                let h = hex_val_exec(s[i + 4]);
                let l = hex_val_exec(s[i + 5]);
                proof {
                    assert(rem.len() >= 6 && rem[1] == 0x75 && rem[2] == 0x30 && rem[3] == 0x30
                        && rem[4] == s@[i as int + 4] && rem[5] == s@[i as int + 5]);
                }
                match (h, l) {
                    (Some(h), Some(l)) => {
                        proof {
                            assert(rem.skip(6) =~= s@.skip(i as int + 6));
                            lemma_unesc_cat_assoc(
                                acc@,
                                seq![((h << 4) | l) as u8],
                                unescape_str(rem.skip(6)),
                            );
                        }
                        let ghost acc0 = acc@;
                        acc.push((h << 4) | l);
                        proof {
                            assert(acc@ =~= acc0 + seq![((h << 4) | l) as u8]);
                        }
                        i = i + 6;
                    },
                    _ => {
                        return None;
                    },
                }
            } else {
                proof {
                    if rem.len() >= 6 && rem[1] == 0x75 && rem[2] == 0x30 && rem[3] == 0x30 {
                        assert(s.len() - i > 5);
                    }
                }
                return None;
            }
        } else {
            proof {
                lemma_unesc_cat_assoc(acc@, seq![b], unescape_str(rem.drop_first()));
            }
            let ghost acc0 = acc@;
            acc.push(b);
            proof {
                assert(acc@ =~= acc0 + seq![b]);
            }
            i = i + 1;
        }
    }
    proof {
        assert(s@.skip(i as int).len() == 0);
    }
    None
}

} // verus!
