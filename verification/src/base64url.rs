//! Base64 with the URL-safe alphabet and no padding, the segment encoding of
//! the token wire format: three such segments joined by dots make a token.
//!
//! Both directions are defined as specification functions and implemented by
//! verified loops; decoding accepts exactly the strings that encoding
//! produces, up to the trailing bits of a final partial group.

use vstd::prelude::*;

verus! {

/// The alphabet: `A`-`Z`, `a`-`z`, `0`-`9`, `-`, `_`.
pub open spec fn is_b64_byte(c: u8) -> bool {
    (0x41 <= c <= 0x5A) || (0x61 <= c <= 0x7A) || (0x30 <= c <= 0x39) || c == 0x2D || c == 0x5F
}

/// Alphabet byte of a 6-bit value.
pub open spec fn b64_char(v: u8) -> u8
    recommends
        v < 64,
{
    if v < 26 {
        (0x41 + v) as u8
    } else if v < 52 {
        (0x61 + (v - 26)) as u8
    } else if v < 62 {
        (0x30 + (v - 52)) as u8
    } else if v == 62 {
        0x2D
    } else {
        0x5F
    }
}

/// 6-bit value of an alphabet byte.
pub open spec fn b64_val(c: u8) -> u8
    recommends
        is_b64_byte(c),
{
    if 0x41 <= c <= 0x5A {
        (c - 0x41) as u8
    } else if 0x61 <= c <= 0x7A {
        (26 + (c - 0x61)) as u8
    } else if 0x30 <= c <= 0x39 {
        (52 + (c - 0x30)) as u8
    } else if c == 0x2D {
        62
    } else {
        63
    }
}

pub proof fn lemma_b64_char_val(v: u8)
    requires
        v < 64,
    ensures
        is_b64_byte(b64_char(v)),
        b64_val(b64_char(v)) == v,
{
}

/// Encoding: each group of three bytes becomes four alphabet bytes; a final
/// group of one or two bytes becomes two or three.
pub open spec fn b64_encode(b: Seq<u8>) -> Seq<u8>
    decreases b.len(),
{
    if b.len() == 0 {
        seq![]
    } else if b.len() == 1 {
        seq![b64_char(b[0] >> 2), b64_char((b[0] & 3) << 4)]
    } else if b.len() == 2 {
        seq![
            b64_char(b[0] >> 2),
            b64_char(((b[0] & 3) << 4) | (b[1] >> 4)),
            b64_char((b[1] & 0xF) << 2),
        ]
    } else {
        seq![
            b64_char(b[0] >> 2),
            b64_char(((b[0] & 3) << 4) | (b[1] >> 4)),
            b64_char(((b[1] & 0xF) << 2) | (b[2] >> 6)),
            b64_char(b[2] & 0x3F),
        ] + b64_encode(b.skip(3))
    }
}

/// Decoding; `None` on a byte outside the alphabet or on an impossible
/// length (one more than a multiple of four).
pub open spec fn b64_decode(s: Seq<u8>) -> Option<Seq<u8>>
    decreases s.len(),
{
    if s.len() == 0 {
        Some(seq![])
    } else if s.len() == 1 {
        None
    } else if s.len() == 2 {
        if is_b64_byte(s[0]) && is_b64_byte(s[1]) {
            Some(seq![(b64_val(s[0]) << 2) | (b64_val(s[1]) >> 4)])
        } else {
            None
        }
    } else if s.len() == 3 {
        if is_b64_byte(s[0]) && is_b64_byte(s[1]) && is_b64_byte(s[2]) {
            Some(
                seq![
                    (b64_val(s[0]) << 2) | (b64_val(s[1]) >> 4),
                    ((b64_val(s[1]) & 0xF) << 4) | (b64_val(s[2]) >> 2),
                ],
            )
        } else {
            None
        }
    } else {
        if is_b64_byte(s[0]) && is_b64_byte(s[1]) && is_b64_byte(s[2]) && is_b64_byte(s[3]) {
            match b64_decode(s.skip(4)) {
                Some(rest) => Some(
                    seq![
                        (b64_val(s[0]) << 2) | (b64_val(s[1]) >> 4),
                        ((b64_val(s[1]) & 0xF) << 4) | (b64_val(s[2]) >> 2),
                        ((b64_val(s[2]) & 3) << 6) | b64_val(s[3]),
                    ] + rest,
                ),
                None => None,
            }
        } else {
            None
        }
    }
}

/// Encoded output stays in the alphabet and has the expected length.
pub proof fn lemma_b64_encode_wf(b: Seq<u8>)
    ensures
        forall|i: int| 0 <= i < b64_encode(b).len() ==> is_b64_byte(#[trigger] b64_encode(b)[i]),
        b64_encode(b).len() == (b.len() * 4 + 2) / 3,
    decreases b.len(),
{
    if b.len() == 0 {
    } else if b.len() == 1 {
        let b0 = b[0];
        assert(b0 >> 2 < 64 && (b0 & 3) << 4 < 64) by (bit_vector);
    } else if b.len() == 2 {
        let b0 = b[0];
        let b1 = b[1];
        assert(b0 >> 2 < 64 && ((b0 & 3) << 4) | (b1 >> 4) < 64 && (b1 & 0xF) << 2 < 64)
            by (bit_vector);
    } else {
        let b0 = b[0];
        let b1 = b[1];
        let b2 = b[2];
        assert(b0 >> 2 < 64 && ((b0 & 3) << 4) | (b1 >> 4) < 64 && ((b1 & 0xF) << 2) | (b2 >> 6)
            < 64 && b2 & 0x3F < 64) by (bit_vector);
        lemma_b64_encode_wf(b.skip(3));
        assert forall|i: int| 0 <= i < b64_encode(b).len() implies is_b64_byte(
            #[trigger] b64_encode(b)[i],
        ) by {
            if i >= 4 {
                assert(b64_encode(b)[i] == b64_encode(b.skip(3))[i - 4]);
            }
        }
    }
}

/// Decoding inverts encoding.
pub proof fn lemma_b64_round_trip(b: Seq<u8>)
    ensures
        b64_decode(b64_encode(b)) == Some(b),
    decreases b.len(),
{
    lemma_b64_encode_wf(b);
    let e = b64_encode(b);
    if b.len() == 0 {
        assert(b =~= seq![]);
    } else if b.len() == 1 {
        let b0 = b[0];
        assert(b0 >> 2 < 64 && (b0 & 3) << 4 < 64) by (bit_vector);
        lemma_b64_char_val(b0 >> 2);
        lemma_b64_char_val((b0 & 3) << 4);
        assert(((b0 >> 2) << 2) | (((b0 & 3) << 4) >> 4) == b0) by (bit_vector);
        assert(b64_decode(e)->0 =~= b);
    } else if b.len() == 2 {
        let b0 = b[0];
        let b1 = b[1];
        assert(b0 >> 2 < 64 && ((b0 & 3) << 4) | (b1 >> 4) < 64 && (b1 & 0xF) << 2 < 64)
            by (bit_vector);
        lemma_b64_char_val(b0 >> 2);
        lemma_b64_char_val(((b0 & 3) << 4) | (b1 >> 4));
        lemma_b64_char_val((b1 & 0xF) << 2);
        assert(((b0 >> 2) << 2) | ((((b0 & 3) << 4) | (b1 >> 4)) >> 4) == b0 && (((((b0 & 3) << 4)
            | (b1 >> 4)) & 0xF) << 4) | (((b1 & 0xF) << 2) >> 2) == b1) by (bit_vector);
        assert(b64_decode(e)->0 =~= b);
    } else {
        let b0 = b[0];
        let b1 = b[1];
        let b2 = b[2];
        assert(b0 >> 2 < 64 && ((b0 & 3) << 4) | (b1 >> 4) < 64 && ((b1 & 0xF) << 2) | (b2 >> 6)
            < 64 && b2 & 0x3F < 64) by (bit_vector);
        lemma_b64_char_val(b0 >> 2);
        lemma_b64_char_val(((b0 & 3) << 4) | (b1 >> 4));
        lemma_b64_char_val(((b1 & 0xF) << 2) | (b2 >> 6));
        lemma_b64_char_val(b2 & 0x3F);
        lemma_b64_round_trip(b.skip(3));
        assert(e.skip(4) =~= b64_encode(b.skip(3)));
        assert(((b0 >> 2) << 2) | ((((b0 & 3) << 4) | (b1 >> 4)) >> 4) == b0 && (((((b0 & 3) << 4)
            | (b1 >> 4)) & 0xF) << 4) | (((((b1 & 0xF) << 2) | (b2 >> 6))) >> 2) == b1 && (((((b1
            & 0xF) << 2) | (b2 >> 6)) & 3) << 6) | (b2 & 0x3F) == b2) by (bit_vector);
        assert(b64_decode(e)->0 =~= b);
    }
}

fn b64_char_exec(v: u8) -> (c: u8)
    requires
        v < 64,
    ensures
        c == b64_char(v),
{
    if v < 26 {
        0x41 + v
    } else if v < 52 {
        0x61 + (v - 26)
    } else if v < 62 {
        0x30 + (v - 52)
    } else if v == 62 {
        0x2D
    } else {
        0x5F
    }
}

fn b64_val_exec(c: u8) -> (r: Option<u8>)
    ensures
        r is Some <==> is_b64_byte(c),
        r is Some ==> r->0 == b64_val(c),
{
    if 0x41 <= c && c <= 0x5A {
        Some(c - 0x41)
    } else if 0x61 <= c && c <= 0x7A {
        Some(26 + (c - 0x61))
    } else if 0x30 <= c && c <= 0x39 {
        Some(52 + (c - 0x30))
    } else if c == 0x2D {
        Some(62)
    } else if c == 0x5F {
        Some(63)
    } else {
        None
    }
}

/// Encodes `b`, appending the output to `out`.
pub fn encode_to(b: &[u8], out: &mut Vec<u8>)
    ensures
        final(out)@ == old(out)@ + b64_encode(b@),
{
    let mut i: usize = 0;
    proof {
        assert(b@.skip(0) =~= b@);
    }
    while b.len() - i >= 3
        invariant
            0 <= i <= b.len(),
            old(out)@ + b64_encode(b@) == out@ + b64_encode(b@.skip(i as int)),
        decreases b.len() - i,
    {
        let b0 = b[i];
        let b1 = b[i + 1];
        let b2 = b[i + 2];
        proof {
            assert(b0 >> 2 < 64 && ((b0 & 3) << 4) | (b1 >> 4) < 64 && ((b1 & 0xF) << 2) | (b2
                >> 6) < 64 && b2 & 0x3F < 64) by (bit_vector);
        }
        out.push(b64_char_exec(b0 >> 2));
        out.push(b64_char_exec(((b0 & 3) << 4) | (b1 >> 4)));
        out.push(b64_char_exec(((b1 & 0xF) << 2) | (b2 >> 6)));
        out.push(b64_char_exec(b2 & 0x3F));
        proof {
            let s = b@.skip(i as int);
            assert(s[0] == b0 && s[1] == b1 && s[2] == b2);
            assert(s.skip(3) =~= b@.skip(i as int + 3));
            assert(b64_encode(s) =~= seq![
                b64_char(b0 >> 2),
                b64_char(((b0 & 3) << 4) | (b1 >> 4)),
                b64_char(((b1 & 0xF) << 2) | (b2 >> 6)),
                b64_char(b2 & 0x3F),
            ] + b64_encode(s.skip(3)));
        }
        i = i + 3;
    }
    let ghost s = b@.skip(i as int);
    if b.len() - i == 1 {
        let b0 = b[i];
        proof {
            assert(b0 >> 2 < 64 && (b0 & 3) << 4 < 64) by (bit_vector);
            assert(s.len() == 1 && s[0] == b0);
        }
        out.push(b64_char_exec(b0 >> 2));
        out.push(b64_char_exec((b0 & 3) << 4));
        proof {
            assert(out@ =~= old(out)@ + b64_encode(b@));
        }
    } else if b.len() - i == 2 {
        let b0 = b[i];
        let b1 = b[i + 1];
        proof {
            assert(b0 >> 2 < 64 && ((b0 & 3) << 4) | (b1 >> 4) < 64 && (b1 & 0xF) << 2 < 64)
                by (bit_vector);
            assert(s.len() == 2 && s[0] == b0 && s[1] == b1);
        }
        out.push(b64_char_exec(b0 >> 2));
        out.push(b64_char_exec(((b0 & 3) << 4) | (b1 >> 4)));
        out.push(b64_char_exec((b1 & 0xF) << 2));
        proof {
            assert(out@ =~= old(out)@ + b64_encode(b@));
        }
    } else {
        proof {
            assert(s.len() == 0);
            assert(out@ =~= old(out)@ + b64_encode(b@));
        }
    }
}

/// Concatenation of a known prefix with an optional decoded tail.
pub open spec fn seq_opt_cat(pre: Seq<u8>, tail: Option<Seq<u8>>) -> Option<Seq<u8>> {
    match tail {
        Some(t) => Some(pre + t),
        None => None,
    }
}

proof fn lemma_seq_opt_cat_empty(t: Option<Seq<u8>>)
    ensures
        seq_opt_cat(Seq::<u8>::empty(), t) == t,
{
    match t {
        Some(s) => {
            assert(Seq::<u8>::empty() + s =~= s);
        },
        None => {},
    }
}

proof fn lemma_seq_opt_cat_assoc(a: Seq<u8>, b: Seq<u8>, t: Option<Seq<u8>>)
    ensures
        seq_opt_cat(a, seq_opt_cat(b, t)) == seq_opt_cat(a + b, t),
{
    match t {
        Some(s) => {
            assert(a + (b + s) =~= (a + b) + s);
        },
        None => {},
    }
}

/// Decodes the byte range `[from, to)` of `s`; `None` where the
/// specification decoder rejects it.
pub fn decode_range(s: &[u8], from: usize, to: usize) -> (r: Option<Vec<u8>>)
    requires
        from <= to <= s@.len(),
    ensures
        r is Some <==> b64_decode(s@.subrange(from as int, to as int)) is Some,
        r is Some ==> r->0@ == b64_decode(s@.subrange(from as int, to as int))->0,
{
    let ghost whole = s@.subrange(from as int, to as int);
    let mut out: Vec<u8> = Vec::new();
    let mut i: usize = from;
    proof {
        assert(whole.skip(0) =~= whole);
        lemma_seq_opt_cat_empty(b64_decode(whole));
    }
    while to - i >= 4
        invariant
            from <= i <= to <= s@.len(),
            whole == s@.subrange(from as int, to as int),
            seq_opt_cat(out@, b64_decode(whole.skip(i - from))) == b64_decode(whole),
        decreases to - i,
    {
        let ghost rem = whole.skip(i - from);
        proof {
            assert(rem[0] == s@[i as int] && rem[1] == s@[i as int + 1] && rem[2] == s@[i as int
                + 2] && rem[3] == s@[i as int + 3]);
        }
        let v0 = b64_val_exec(s[i]);
        let v1 = b64_val_exec(s[i + 1]);
        let v2 = b64_val_exec(s[i + 2]);
        let v3 = b64_val_exec(s[i + 3]);
        match (v0, v1, v2, v3) {
            (Some(v0), Some(v1), Some(v2), Some(v3)) => {
                proof {
                    assert(rem.skip(4) =~= whole.skip(i - from + 4));
                    let quad = seq![
                        (b64_val(rem[0]) << 2) | (b64_val(rem[1]) >> 4),
                        ((b64_val(rem[1]) & 0xF) << 4) | (b64_val(rem[2]) >> 2),
                        ((b64_val(rem[2]) & 3) << 6) | b64_val(rem[3]),
                    ];
                    assert(b64_decode(rem) == seq_opt_cat(quad, b64_decode(rem.skip(4))));
                    lemma_seq_opt_cat_assoc(out@, quad, b64_decode(rem.skip(4)));
                }
                let ghost out0 = out@;
                out.push((v0 << 2) | (v1 >> 4));
                out.push(((v1 & 0xF) << 4) | (v2 >> 2));
                out.push(((v2 & 3) << 6) | v3);
                proof {
                    assert(out@ =~= out0 + seq![
                        (b64_val(rem[0]) << 2) | (b64_val(rem[1]) >> 4),
                        ((b64_val(rem[1]) & 0xF) << 4) | (b64_val(rem[2]) >> 2),
                        ((b64_val(rem[2]) & 3) << 6) | b64_val(rem[3]),
                    ]);
                }
                i = i + 4;
            },
            _ => {
                proof {
                    assert(b64_decode(rem) is None);
                }
                return None;
            },
        }
    }
    let ghost rem = whole.skip(i - from);
    proof {
        assert(rem.len() == to - i);
    }
    if i == to {
        proof {
            assert(b64_decode(rem) == Some(Seq::<u8>::empty()));
            assert(out@ + Seq::<u8>::empty() =~= out@);
        }
        Some(out)
    } else if to - i == 1 {
        None
    } else if to - i == 2 {
        proof {
            assert(rem[0] == s@[i as int] && rem[1] == s@[i as int + 1]);
        }
        let v0 = b64_val_exec(s[i]);
        let v1 = b64_val_exec(s[i + 1]);
        match (v0, v1) {
            (Some(v0), Some(v1)) => {
                let ghost out0 = out@;
                out.push((v0 << 2) | (v1 >> 4));
                proof {
                    assert(b64_decode(rem) == Some(seq![(b64_val(rem[0]) << 2) | (b64_val(rem[1])
                        >> 4)]));
                    assert(out@ =~= out0 + seq![(b64_val(rem[0]) << 2) | (b64_val(rem[1]) >> 4)]);
                }
                Some(out)
            },
            _ => None,
        }
    } else {
        proof {
            assert(rem.len() == 3);
            assert(rem[0] == s@[i as int] && rem[1] == s@[i as int + 1] && rem[2] == s@[i as int
                + 2]);
        }
        let v0 = b64_val_exec(s[i]);
        let v1 = b64_val_exec(s[i + 1]);
        let v2 = b64_val_exec(s[i + 2]);
        match (v0, v1, v2) {
            (Some(v0), Some(v1), Some(v2)) => {
                let ghost out0 = out@;
                out.push((v0 << 2) | (v1 >> 4));
                out.push(((v1 & 0xF) << 4) | (v2 >> 2));
                proof {
                    assert(out@ =~= out0 + seq![
                        (b64_val(rem[0]) << 2) | (b64_val(rem[1]) >> 4),
                        ((b64_val(rem[1]) & 0xF) << 4) | (b64_val(rem[2]) >> 2),
                    ]);
                }
                Some(out)
            },
            _ => None,
        }
    }
}

} // verus!
