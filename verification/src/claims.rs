//! The signed claims object and its JSON wire form.
//!
//! A claims object carries the subject id, the subject name and the expiry
//! as Unix seconds. On the wire it is the JSON object
//! `{"id":<id>,"name":"<name>","exp":<exp>}` with no spaces, the name
//! escaped as in [`crate::jsonesc`]. The writer emits exactly this form and
//! the parser accepts it back; reading what was written yields the original
//! object.

use vstd::prelude::*;
use vstd::utf8::decode_utf8;
use vstd::utf8::encode_utf8;
use vstd::utf8::encode_utf8_decode_utf8;
use vstd::utf8::encode_utf8_valid_utf8;
use vstd::utf8::valid_utf8;

use crate::decimal::all_digits;
use crate::decimal::dec_int;
use crate::decimal::dec_val;
use crate::decimal::digit_run;
use crate::decimal::is_digit_byte;
use crate::decimal::lemma_dec_digits_val;
use crate::decimal::lemma_digit_run_of_digits;
use crate::decimal::push_dec_i64;
use crate::jsonesc::escape_to;
use crate::jsonesc::json_escape;
use crate::jsonesc::lemma_unescape_escape;
use crate::jsonesc::unescape_from;
use crate::jsonesc::unescape_str;
use crate::strutil::string_from_utf8;

verus! {

/// The signed payload: who the token names and when it lapses.
#[derive(Debug)]
pub struct Claims {
    pub id: i32,
    pub name: String,
    pub exp: i64,
}

impl PartialEq for Claims {
    fn eq(&self, other: &Claims) -> (r: bool) {
        self.id == other.id && self.name == other.name && self.exp == other.exp
    }
}

impl vstd::std_specs::cmp::PartialEqSpecImpl for Claims {
    open spec fn obeys_eq_spec() -> bool {
        true
    }

    open spec fn eq_spec(&self, other: &Claims) -> bool {
        self.id == other.id && self.name@ == other.name@ && self.exp == other.exp
    }
}

/// Mathematical image of a claims object.
#[verifier::ext_equal]
pub struct ClaimsView {
    pub id: int,
    pub name: Seq<char>,
    pub exp: int,
}

impl View for Claims {
    type V = ClaimsView;

    open spec fn view(&self) -> ClaimsView {
        ClaimsView { id: self.id as int, name: self.name@, exp: self.exp as int }
    }
}

/// The id fits an `i32` and the expiry an `i64`; every `Claims` value
/// satisfies this by construction.
pub open spec fn claims_in_range(c: ClaimsView) -> bool {
    &&& -0x8000_0000 <= c.id < 0x8000_0000
    &&& -0x8000_0000_0000_0000 <= c.exp < 0x8000_0000_0000_0000
}

/// `{"id":`
pub open spec fn lit_obj_id() -> Seq<u8> {
    seq![0x7Bu8, 0x22u8, 0x69u8, 0x64u8, 0x22u8, 0x3Au8]
}

/// `,"name":"`
pub open spec fn lit_name_key() -> Seq<u8> {
    seq![0x2Cu8, 0x22u8, 0x6Eu8, 0x61u8, 0x6Du8, 0x65u8, 0x22u8, 0x3Au8, 0x22u8]
}

/// `,"exp":` (the name's closing quote precedes it)
pub open spec fn lit_exp_key() -> Seq<u8> {
    seq![0x2Cu8, 0x22u8, 0x65u8, 0x78u8, 0x70u8, 0x22u8, 0x3Au8]
}

/// The JSON encoding of a claims object.
pub open spec fn claims_json(c: ClaimsView) -> Seq<u8> {
    lit_obj_id() + dec_int(c.id) + lit_name_key() + json_escape(encode_utf8(c.name)) + seq![
        0x22u8,
    ] + lit_exp_key() + dec_int(c.exp) + seq![0x7Du8]
}

/// Writes the JSON encoding of `c`.
pub fn write_claims_json(c: &Claims) -> (out: Vec<u8>)
    ensures
        out@ == claims_json(c@),
{
    let mut out: Vec<u8> = Vec::new();
    out.push(0x7B);
    out.push(0x22);
    out.push(0x69);
    out.push(0x64);
    out.push(0x22);
    out.push(0x3A);
    proof {
        assert(out@ =~= lit_obj_id());
    }
    push_dec_i64(&mut out, c.id as i64);
    let ghost o2 = out@;
    out.push(0x2C);
    out.push(0x22);
    out.push(0x6E);
    out.push(0x61);
    out.push(0x6D);
    out.push(0x65);
    out.push(0x22);
    out.push(0x3A);
    out.push(0x22);
    proof {
        assert(out@ =~= o2 + lit_name_key());
    }
    let ghost o3 = out@;
    escape_to(c.name.as_str().as_bytes(), &mut out);
    let ghost o4 = out@;
    out.push(0x22);
    let ghost o5 = out@;
    out.push(0x2C);
    out.push(0x22);
    out.push(0x65);
    out.push(0x78);
    out.push(0x70);
    out.push(0x22);
    out.push(0x3A);
    proof {
        assert(out@ =~= o5 + lit_exp_key());
    }
    push_dec_i64(&mut out, c.exp);
    out.push(0x7D);
    proof {
        assert(o4 == o3 + json_escape(encode_utf8(c.name@)));
        assert(out@ =~= claims_json(c@));
    }
    out
}

/// Drops `p` from the front of `s`, where `s` begins with it.
pub open spec fn strip_prefix(s: Seq<u8>, p: Seq<u8>) -> Option<Seq<u8>> {
    if p.len() <= s.len() && s.subrange(0, p.len() as int) == p {
        Some(s.skip(p.len() as int))
    } else {
        None
    }
}

pub proof fn lemma_strip_prefix_cat(p: Seq<u8>, rest: Seq<u8>)
    ensures
        strip_prefix(p + rest, p) == Some(rest),
{
    assert((p + rest).subrange(0, p.len() as int) =~= p);
    assert((p + rest).skip(p.len() as int) =~= rest);
}

/// A decimal integer at the front of `s`: an optional minus sign and a
/// non-empty digit run, read greedily.
pub open spec fn parse_int(s: Seq<u8>) -> Option<(int, Seq<u8>)> {
    if s.len() > 0 && s[0] == 0x2D {
        let t = s.drop_first();
        let r = digit_run(t);
        if r == 0 {
            None
        } else {
            Some((-(dec_val(t.subrange(0, r)) as int), t.skip(r)))
        }
    } else {
        let r = digit_run(s);
        if r == 0 {
            None
        } else {
            Some((dec_val(s.subrange(0, r)) as int, s.skip(r)))
        }
    }
}

/// Reading a written numeral yields its value, when what follows does not
/// begin with a digit.
pub proof fn lemma_parse_int_cat(n: int, rest: Seq<u8>)
    requires
        rest.len() > 0,
        !is_digit_byte(rest[0]),
    ensures
        parse_int(dec_int(n) + rest) == Some((n, rest)),
{
    let s = dec_int(n) + rest;
    if n < 0 {
        lemma_dec_digits_val((-n) as nat);
        let d = crate::decimal::dec_digits((-n) as nat);
        assert(s[0] == 0x2D);
        assert(s.drop_first() =~= d + rest);
        lemma_digit_run_of_digits(d, rest);
        assert((d + rest).subrange(0, d.len() as int) =~= d);
        assert((d + rest).skip(d.len() as int) =~= rest);
    } else {
        lemma_dec_digits_val(n as nat);
        let d = crate::decimal::dec_digits(n as nat);
        assert(s =~= d + rest);
        assert(is_digit_byte(d[0]));
        assert(s[0] != 0x2D);
        lemma_digit_run_of_digits(d, rest);
        assert(s.subrange(0, d.len() as int) =~= d);
        assert(s.skip(d.len() as int) =~= rest);
    }
}

/// The strict reading of a claims object, inverse to [`claims_json`].
pub open spec fn parse_claims(s: Seq<u8>) -> Option<ClaimsView> {
    match strip_prefix(s, lit_obj_id()) {
        None => None,
        Some(s1) => match parse_int(s1) {
            None => None,
            Some(idr) => if !(-0x8000_0000 <= idr.0 < 0x8000_0000) {
                None
            } else {
                match strip_prefix(idr.1, lit_name_key()) {
                    None => None,
                    Some(s3) => match unescape_str(s3) {
                        None => None,
                        Some(nr) => if !valid_utf8(nr.0) {
                            None
                        } else {
                            match strip_prefix(nr.1, lit_exp_key()) {
                                None => None,
                                Some(s5) => match parse_int(s5) {
                                    None => None,
                                    Some(er) => if !(-0x8000_0000_0000_0000 <= er.0
                                        < 0x8000_0000_0000_0000) {
                                        None
                                    } else if er.1 == seq![0x7Du8] {
                                        Some(
                                            ClaimsView {
                                                id: idr.0,
                                                name: decode_utf8(nr.0),
                                                exp: er.0,
                                            },
                                        )
                                    } else {
                                        None
                                    },
                                },
                            }
                        },
                    },
                }
            },
        },
    }
}

/// Round trip: reading a written claims object yields it back.
pub proof fn lemma_parse_claims_json(c: ClaimsView)
    requires
        claims_in_range(c),
    ensures
        parse_claims(claims_json(c)) == Some(c),
{
    let nb = encode_utf8(c.name);
    let r7: Seq<u8> = seq![0x7Du8];
    let r6 = dec_int(c.exp) + r7;
    let r5 = lit_exp_key() + r6;
    let r4 = seq![0x22u8] + r5;
    let r3 = json_escape(nb) + r4;
    let r2 = lit_name_key() + r3;
    let r1 = dec_int(c.id) + r2;
    assert(claims_json(c) =~= lit_obj_id() + r1);
    lemma_strip_prefix_cat(lit_obj_id(), r1);
    assert(r2[0] == 0x2C && !is_digit_byte(r2[0]));
    lemma_parse_int_cat(c.id, r2);
    lemma_strip_prefix_cat(lit_name_key(), r3);
    assert(r3 =~= json_escape(nb) + seq![0x22u8] + r5);
    lemma_unescape_escape(nb, r5);
    encode_utf8_valid_utf8(c.name);
    lemma_strip_prefix_cat(lit_exp_key(), r6);
    assert(r7[0] == 0x7D && !is_digit_byte(r7[0]));
    lemma_parse_int_cat(c.exp, r7);
    encode_utf8_decode_utf8(c.name);
    assert(parse_claims(claims_json(c))->0 =~= c);
}

/// What chrono formats for the expiry instant at the fixed offset +08:00,
/// or nothing where the timestamp lies outside chrono's range. A function
/// of the timestamp alone.
pub uninterp spec fn fmt_exp_of(exp: int) -> Option<Seq<char>>;

/// Relies on `chrono::DateTime::from_timestamp`, `FixedOffset::east_opt`
/// and chrono's fixed `Display` form: places the Unix timestamp at offset
/// +08:00 and formats it, deterministic in the timestamp; `None` exactly
/// where chrono's range check refuses the timestamp.
#[verifier::external_body]
fn format_exp_east8(exp: i64) -> (r: Option<String>)
    ensures
        r is Some <==> fmt_exp_of(exp as int) is Some,
        r is Some ==> r->0@ == fmt_exp_of(exp as int)->0,
{
    let offset = chrono::FixedOffset::east_opt(8 * 3600)?;
    let naive = chrono::DateTime::from_timestamp(exp, 0)?.naive_utc();
    Some(
        chrono::DateTime::<chrono::FixedOffset>::from_naive_utc_and_offset(naive, offset)
            .to_string(),
    )
}

/// The human-readable form of a claims object, as UTF-8 bytes: id, name and
/// the formatted expiry, labelled line by line.
pub open spec fn claims_display_bytes(c: ClaimsView) -> Seq<u8> {
    encode_utf8("ID: "@) + dec_int(c.id) + encode_utf8("\nName: "@) + encode_utf8(c.name)
        + encode_utf8("\nExpire: "@) + encode_utf8(fmt_exp_of(c.exp)->0)
}

/// The display of a claims object shows its subject: between the name
/// label and the expiry label stand exactly the name's bytes, so any page
/// built from these bytes contains the name.
pub proof fn lemma_display_contains_name(c: ClaimsView)
    ensures
        ({
            let from = encode_utf8("ID: "@).len() + dec_int(c.id).len() + encode_utf8(
                "\nName: "@,
            ).len();
            claims_display_bytes(c).subrange(
                from as int,
                from as int + encode_utf8(c.name).len() as int,
            ) == encode_utf8(c.name)
        }),
{
    let pre = encode_utf8("ID: "@) + dec_int(c.id) + encode_utf8("\nName: "@);
    let from = pre.len() as int;
    assert(claims_display_bytes(c).subrange(from, from + encode_utf8(c.name).len() as int)
        =~= encode_utf8(c.name));
}

impl Claims {
    /// The lines a protected route shows for these claims; `None` where the
    /// expiry lies outside what chrono can place in a calendar.
    pub fn display_string(&self) -> (r: Option<String>)
        ensures
            r is Some <==> fmt_exp_of(self.exp as int) is Some,
            r is Some ==> encode_utf8(r->0@) == claims_display_bytes(self@),
    {
        let formatted = match format_exp_east8(self.exp) {
            Some(f) => f,
            None => {
                return None;
            },
        };
        let mut out: Vec<u8> = Vec::new();
        let mut part = "ID: ".as_bytes_vec();
        out.append(&mut part);
        push_dec_i64(&mut out, self.id as i64);
        let mut part2 = "\nName: ".as_bytes_vec();
        out.append(&mut part2);
        let mut part3 = self.name.as_str().as_bytes_vec();
        out.append(&mut part3);
        let mut part4 = "\nExpire: ".as_bytes_vec();
        out.append(&mut part4);
        let mut part5 = formatted.as_str().as_bytes_vec();
        out.append(&mut part5);
        proof {
            assert(out@ =~= claims_display_bytes(self@));
            vstd::utf8::encode_utf8_valid_utf8("ID: "@);
            vstd::utf8::encode_utf8_valid_utf8("\nName: "@);
            vstd::utf8::encode_utf8_valid_utf8("\nExpire: "@);
            vstd::utf8::encode_utf8_valid_utf8(self.name@);
            vstd::utf8::encode_utf8_valid_utf8(formatted@);
            lemma_dec_int_ascii(self.id as int);
            crate::strutil::lemma_ascii_valid_utf8(dec_int(self.id as int));
            vstd::utf8::valid_utf8_concat(encode_utf8("ID: "@), dec_int(self.id as int));
            vstd::utf8::valid_utf8_concat(
                encode_utf8("ID: "@) + dec_int(self.id as int),
                encode_utf8("\nName: "@),
            );
            vstd::utf8::valid_utf8_concat(
                encode_utf8("ID: "@) + dec_int(self.id as int) + encode_utf8("\nName: "@),
                encode_utf8(self.name@),
            );
            vstd::utf8::valid_utf8_concat(
                encode_utf8("ID: "@) + dec_int(self.id as int) + encode_utf8("\nName: "@)
                    + encode_utf8(self.name@),
                encode_utf8("\nExpire: "@),
            );
            vstd::utf8::valid_utf8_concat(
                encode_utf8("ID: "@) + dec_int(self.id as int) + encode_utf8("\nName: "@)
                    + encode_utf8(self.name@) + encode_utf8("\nExpire: "@),
                encode_utf8(formatted@),
            );
            assert(valid_utf8(out@));
        }
        let ghost bytes = out@;
        match string_from_utf8(out) {
            Some(s) => {
                proof {
                    vstd::utf8::decode_utf8_encode_utf8(bytes);
                }
                Some(s)
            },
            None => {
                proof {
                    assert(false);
                }
                None
            },
        }
    }
}

/// Digit and sign bytes are ASCII.
pub proof fn lemma_dec_int_ascii(n: int)
    ensures
        forall|i: int| 0 <= i < dec_int(n).len() ==> #[trigger] dec_int(n)[i] < 0x80,
{
    if n < 0 {
        lemma_dec_digits_val((-n) as nat);
        assert forall|i: int| 0 <= i < dec_int(n).len() implies #[trigger] dec_int(n)[i]
            < 0x80 by {
            if i > 0 {
                assert(dec_int(n)[i] == crate::decimal::dec_digits((-n) as nat)[i - 1]);
                assert(is_digit_byte(crate::decimal::dec_digits((-n) as nat)[i - 1]));
            }
        }
    } else {
        lemma_dec_digits_val(n as nat);
        assert forall|i: int| 0 <= i < dec_int(n).len() implies #[trigger] dec_int(n)[i]
            < 0x80 by {
            assert(is_digit_byte(crate::decimal::dec_digits(n as nat)[i]));
        }
    }
}

/// `v` is representable as an `i64`.
pub open spec fn i64_in_range(v: int) -> bool {
    -0x8000_0000_0000_0000 <= v < 0x8000_0000_0000_0000
}

/// Reads the integer at `start`; `None` where the specification reader
/// fails or its value does not fit an `i64`.
fn parse_i64_at(s: &[u8], start: usize) -> (r: Option<(i64, usize)>)
    requires
        start <= s@.len(),
    ensures
        r is Some <==> (parse_int(s@.skip(start as int)) is Some && i64_in_range(
            (parse_int(s@.skip(start as int))->0).0,
        )),
        r is Some ==> {
            let sp = parse_int(s@.skip(start as int))->0;
            &&& (r->0).0 as int == sp.0
            &&& start < (r->0).1 <= s@.len()
            &&& s@.skip((r->0).1 as int) == sp.1
        },
{
    let ghost whole = s@.skip(start as int);
    let mut neg = false;
    let mut d0 = start;
    if start < s.len() && s[start] == 0x2D {
        neg = true;
        d0 = start + 1;
    }
    let ghost t = s@.skip(d0 as int);
    proof {
        if neg {
            assert(whole.drop_first() =~= t);
        }
    }
    let mut j = d0;
    let mut acc: u64 = 0;
    let mut overflow = false;
    while j < s.len() && 0x30 <= s[j] && s[j] <= 0x39
        invariant
            start <= d0 <= j <= s@.len(),
            t == s@.skip(d0 as int),
            all_digits(s@.subrange(d0 as int, j as int)),
            !overflow ==> acc as nat == dec_val(s@.subrange(d0 as int, j as int)),
            overflow ==> dec_val(s@.subrange(d0 as int, j as int)) > u64::MAX,
        decreases s@.len() - j,
    {
        let d = s[j] - 0x30;
        let ghost pre = s@.subrange(d0 as int, j as int);
        let ghost cur = s@.subrange(d0 as int, j as int + 1);
        proof {
            assert(cur.drop_last() =~= pre);
            assert(cur.last() == s@[j as int]);
            assert(dec_val(cur) == dec_val(pre) * 10 + d);
        }
        if !overflow {
            if acc > (u64::MAX - d as u64) / 10 {
                overflow = true;
                proof {
                    assert(acc * 10 + d > u64::MAX) by {
                        assert(acc >= (u64::MAX - d as u64) / 10 + 1);
                        assert(((u64::MAX - d as u64) / 10 + 1) * 10 == ((u64::MAX - d as u64)
                            / 10) * 10 + 10);
                        assert(((u64::MAX - d as u64) / 10) * 10 + 10 > u64::MAX - d as u64);
                        assert(acc * 10 >= ((u64::MAX - d as u64) / 10 + 1) * 10) by (nonlinear_arith)
                            requires
                                acc >= (u64::MAX - d as u64) / 10 + 1,
                        ;
                    }
                }
            } else {
                acc = acc * 10 + d as u64;
            }
        } else {
            proof {
                assert(dec_val(pre) * 10 + d > u64::MAX) by (nonlinear_arith)
                    requires
                        dec_val(pre) > u64::MAX,
                        d >= 0,
                ;
            }
        }
        j = j + 1;
    }
    let ghost run = j - d0;
    let ghost digits = s@.subrange(d0 as int, j as int);
    proof {
        if j < s@.len() {
            assert(t =~= digits + s@.skip(j as int));
            lemma_digit_run_of_digits(digits, s@.skip(j as int));
        } else {
            assert(t =~= digits);
            crate::decimal::lemma_digit_run_all(digits);
        }
        assert(digit_run(t) == run);
        assert(t.subrange(0, run as int) =~= digits);
        assert(t.skip(run as int) =~= s@.skip(j as int));
    }
    if j == d0 {
        proof {
            if !neg {
                assert(whole == t);
            }
        }
        return None;
    }
    if overflow {
        return None;
    }
    if neg {
        if acc > 0x8000_0000_0000_0000 {
            return None;
        }
        let v: i64 = if acc == 0x8000_0000_0000_0000 {
            i64::MIN
        } else {
            -(acc as i64)
        };
        Some((v, j))
    } else {
        if acc > 0x7FFF_FFFF_FFFF_FFFF {
            return None;
        }
        Some((acc as i64, j))
    }
}

/// Reads a claims object from its JSON encoding; `None` exactly where the
/// specification reader rejects.
pub fn parse_claims_json(s: &[u8]) -> (r: Option<Claims>)
    ensures
        r is Some <==> parse_claims(s@) is Some,
        r is Some ==> r->0@ == parse_claims(s@)->0,
{
    // {"id":
    if s.len() < 6 || s[0] != 0x7B || s[1] != 0x22 || s[2] != 0x69 || s[3] != 0x64 || s[4] != 0x22
        || s[5] != 0x3A {
        proof {
            if strip_prefix(s@, lit_obj_id()) is Some {
                assert(s@.subrange(0, 6)[0] == s@[0] && s@.subrange(0, 6)[1] == s@[1]
                    && s@.subrange(0, 6)[2] == s@[2] && s@.subrange(0, 6)[3] == s@[3]
                    && s@.subrange(0, 6)[4] == s@[4] && s@.subrange(0, 6)[5] == s@[5]);
            }
        }
        return None;
    }
    let ghost s1 = s@.skip(6);
    proof {
        assert(s@.subrange(0, 6) =~= lit_obj_id());
        assert(strip_prefix(s@, lit_obj_id()) == Some(s1));
    }
    let idp = parse_i64_at(s, 6);
    let (idv, p1) = match idp {
        Some(x) => x,
        None => {
            return None;
        },
    };
    if idv < -2147483648 || idv > 2147483647 {
        return None;
    }
    let ghost s2 = s@.skip(p1 as int);
    // ,"name":"
    if s.len() - p1 < 9 || s[p1] != 0x2C || s[p1 + 1] != 0x22 || s[p1 + 2] != 0x6E || s[p1 + 3]
        != 0x61 || s[p1 + 4] != 0x6D || s[p1 + 5] != 0x65 || s[p1 + 6] != 0x22 || s[p1 + 7] != 0x3A
        || s[p1 + 8] != 0x22 {
        proof {
            if strip_prefix(s2, lit_name_key()) is Some {
                assert(forall|k: int| 0 <= k < 9 ==> s2.subrange(0, 9)[k] == s2[k]);
                assert(forall|k: int| 0 <= k < 9 ==> s2[k] == s@[p1 + k]);
            }
        }
        return None;
    }
    let p2 = p1 + 9;
    let ghost s3 = s@.skip(p2 as int);
    proof {
        assert(s2.subrange(0, 9) =~= lit_name_key());
        assert(s2.skip(9) =~= s3);
        assert(strip_prefix(s2, lit_name_key()) == Some(s3));
    }
    let unr = unescape_from(s, p2);
    let (name_bytes, p3) = match unr {
        Some(x) => x,
        None => {
            return None;
        },
    };
    let ghost nb = name_bytes@;
    let name = match string_from_utf8(name_bytes) {
        Some(n) => n,
        None => {
            return None;
        },
    };
    let ghost s4 = s@.skip(p3 as int);
    // ,"exp":
    if s.len() - p3 < 7 || s[p3] != 0x2C || s[p3 + 1] != 0x22 || s[p3 + 2] != 0x65 || s[p3 + 3]
        != 0x78 || s[p3 + 4] != 0x70 || s[p3 + 5] != 0x22 || s[p3 + 6] != 0x3A {
        proof {
            if strip_prefix(s4, lit_exp_key()) is Some {
                assert(forall|k: int| 0 <= k < 7 ==> s4.subrange(0, 7)[k] == s4[k]);
                assert(forall|k: int| 0 <= k < 7 ==> s4[k] == s@[p3 + k]);
            }
        }
        return None;
    }
    let p4 = p3 + 7;
    let ghost s5 = s@.skip(p4 as int);
    proof {
        assert(s4.subrange(0, 7) =~= lit_exp_key());
        assert(s4.skip(7) =~= s5);
        assert(strip_prefix(s4, lit_exp_key()) == Some(s5));
    }
    let expp = parse_i64_at(s, p4);
    let (expv, p5) = match expp {
        Some(x) => x,
        None => {
            return None;
        },
    };
    let ghost s6 = s@.skip(p5 as int);
    if !(p5 == s.len() - 1 && s[p5] == 0x7D) {
        proof {
            if s6 == seq![0x7Du8] {
                assert(s6.len() == 1);
                assert(s6[0] == s@[p5 as int]);
            }
        }
        return None;
    }
    proof {
        assert(s6 =~= seq![0x7Du8]);
    }
    let out = Claims { id: idv as i32, name, exp: expv };
    proof {
        assert(out@ =~= parse_claims(s@)->0);
    }
    Some(out)
}

} // verus!
