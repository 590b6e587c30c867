//! A small JSON codec, verified end to end.
//!
//! The wire format of this server is JSON text carried in UTF-8
//! bytes.  `Json` is the executable value tree; `JsonV` is its
//! mathematical shadow used in contracts.  The printer emits compact
//! JSON (no whitespace); the reader accepts whitespace between
//! tokens.  Strings escape only the quote and the backslash and pass
//! every other byte through unchanged, so arbitrary UTF-8 survives a
//! round trip.

use vstd::prelude::*;

verus! {

/// An executable JSON value.  Text is UTF-8 bytes; numbers are the
/// unsigned integers the protocol uses.
#[derive(Debug)]
pub enum Json {
    Null,
    Int(u64),
    Str(Vec<u8>),
    Arr(Vec<Json>),
    Obj(Vec<(Vec<u8>, Json)>),
}

/// The mathematical value of a JSON tree.
pub enum JsonV {
    Null,
    Int(u64),
    Str(Seq<u8>),
    Arr(Seq<JsonV>),
    Obj(Seq<(Seq<u8>, JsonV)>),
}

/// The value of an executable JSON tree.
pub open spec fn json_view(j: Json) -> JsonV
    decreases j,
{
    match j {
        Json::Null => JsonV::Null,
        Json::Int(n) => JsonV::Int(n),
        Json::Str(s) => JsonV::Str(s@),
        Json::Arr(a) => JsonV::Arr(json_views(a@)),
        Json::Obj(o) => JsonV::Obj(json_member_views(o@)),
    }
}

pub open spec fn json_views(s: Seq<Json>) -> Seq<JsonV>
    decreases s,
{
    if s.len() == 0 {
        Seq::empty()
    } else {
        seq![json_view(s[0])] + json_views(s.drop_first())
    }
}

pub open spec fn json_member_views(s: Seq<(Vec<u8>, Json)>) -> Seq<(Seq<u8>, JsonV)>
    decreases s,
{
    if s.len() == 0 {
        Seq::empty()
    } else {
        seq![(s[0].0@, json_view(s[0].1))] + json_member_views(s.drop_first())
    }
}

pub broadcast proof fn lemma_json_views_index(s: Seq<Json>)
    ensures
        (#[trigger] json_views(s)).len() == s.len(),
        forall|k: int| 0 <= k < s.len() ==> json_views(s)[k] == json_view(s[k]),
    decreases s,
{
    if s.len() > 0 {
        lemma_json_views_index(s.drop_first());
    }
}

pub broadcast proof fn lemma_json_member_views_index(s: Seq<(Vec<u8>, Json)>)
    ensures
        (#[trigger] json_member_views(s)).len() == s.len(),
        forall|k: int|
            0 <= k < s.len() ==> json_member_views(s)[k] == (s[k].0@, json_view(s[k].1)),
    decreases s,
{
    if s.len() > 0 {
        lemma_json_member_views_index(s.drop_first());
    }
}

impl View for Json {
    type V = JsonV;

    open spec fn view(&self) -> JsonV {
        json_view(*self)
    }
}

// The byte values the grammar is built from.
pub const QU: u8 = 0x22;

pub const BS: u8 = 0x5c;

pub const LB: u8 = 0x5b;

pub const RB: u8 = 0x5d;

pub const LC: u8 = 0x7b;

pub const RC: u8 = 0x7d;

pub const CM: u8 = 0x2c;

pub const CL: u8 = 0x3a;

pub open spec fn is_digit(b: u8) -> bool {
    0x30 <= b <= 0x39
}

pub open spec fn is_ws(b: u8) -> bool {
    b == 0x20 || b == 0x09 || b == 0x0a || b == 0x0d
}

/// How one byte of string content is written: quote and backslash
/// get a backslash in front, control bytes become `\u00XX`, and
/// everything else passes through.
pub open spec fn esc_byte(b: u8) -> Seq<u8> {
    if b == QU || b == BS {
        seq![BS, b]
    } else if b < 0x20 {
        seq![
            BS,
            'u' as u8,
            '0' as u8,
            '0' as u8,
            crate::ident::hexd((b / 16) as u8),
            crate::ident::hexd((b % 16) as u8),
        ]
    } else {
        seq![b]
    }
}

/// The byte a simple escape character stands for.
pub open spec fn esc_char_value(e: u8) -> Option<u8> {
    if e == QU {
        Some(QU)
    } else if e == BS {
        Some(BS)
    } else if e == '/' as u8 {
        Some('/' as u8)
    } else if e == 'b' as u8 {
        Some(0x08)
    } else if e == 'f' as u8 {
        Some(0x0c)
    } else if e == 'n' as u8 {
        Some(0x0a)
    } else if e == 'r' as u8 {
        Some(0x0d)
    } else if e == 't' as u8 {
        Some(0x09)
    } else {
        None
    }
}

/// The value of the four hex digits of a `\uXXXX` escape, if all
/// four are hex.
pub open spec fn u_hex4(s: Seq<u8>, p: nat) -> Option<nat> {
    if p + 4 <= s.len() {
        match (
            crate::ident::hex_val(s[p as int]),
            crate::ident::hex_val(s[(p + 1) as int]),
            crate::ident::hex_val(s[(p + 2) as int]),
            crate::ident::hex_val(s[(p + 3) as int]),
        ) {
            (Some(a), Some(b), Some(c), Some(d)) => Some(
                a as nat * 4096 + b as nat * 256 + c as nat * 16 + d as nat,
            ),
            _ => None,
        }
    } else {
        None
    }
}

/// String content, escaped.
pub open spec fn spec_escape(s: Seq<u8>) -> Seq<u8>
    decreases s.len(),
{
    if s.len() == 0 {
        Seq::empty()
    } else {
        esc_byte(s[0]) + spec_escape(s.drop_first())
    }
}

/// The decimal digits of `n`, most significant first.
pub open spec fn spec_digits(n: u64) -> Seq<u8>
    decreases n,
{
    if n < 10 {
        seq![(0x30 + n) as u8]
    } else {
        spec_digits(n / 10) + seq![(0x30 + n % 10) as u8]
    }
}

/// The compact text of a JSON value.
pub open spec fn spec_print(j: JsonV) -> Seq<u8>
    decreases j,
{
    match j {
        JsonV::Null => seq!['n' as u8, 'u' as u8, 'l' as u8, 'l' as u8],
        JsonV::Int(n) => spec_digits(n),
        JsonV::Str(s) => seq![QU] + spec_escape(s) + seq![QU],
        JsonV::Arr(elems) => seq![LB] + spec_print_elems(elems) + seq![RB],
        JsonV::Obj(members) => seq![LC] + spec_print_members(members) + seq![RC],
    }
}

/// Array contents: the first element, then each further one behind a
/// comma.
pub open spec fn spec_print_elems(elems: Seq<JsonV>) -> Seq<u8>
    decreases elems, 1nat,
{
    if elems.len() == 0 {
        Seq::empty()
    } else {
        spec_print(elems[0]) + spec_print_elems_rest(elems.drop_first())
    }
}

pub open spec fn spec_print_elems_rest(elems: Seq<JsonV>) -> Seq<u8>
    decreases elems, 0nat,
{
    if elems.len() == 0 {
        Seq::empty()
    } else {
        seq![CM] + spec_print(elems[0]) + spec_print_elems_rest(elems.drop_first())
    }
}

/// One object member: quoted key, colon, value.
pub open spec fn spec_print_member(m: (Seq<u8>, JsonV)) -> Seq<u8>
    decreases m,
{
    seq![QU] + spec_escape(m.0) + seq![QU, CL] + spec_print(m.1)
}

/// Object contents: the first member, then each further one behind a
/// comma.
pub open spec fn spec_print_members(members: Seq<(Seq<u8>, JsonV)>) -> Seq<u8>
    decreases members, 1nat,
{
    if members.len() == 0 {
        Seq::empty()
    } else {
        spec_print_member(members[0]) + spec_print_members_rest(members.drop_first())
    }
}

pub open spec fn spec_print_members_rest(members: Seq<(Seq<u8>, JsonV)>) -> Seq<u8>
    decreases members, 0nat,
{
    if members.len() == 0 {
        Seq::empty()
    } else {
        seq![CM] + spec_print_member(members[0]) + spec_print_members_rest(members.drop_first())
    }
}

proof fn lemma_print_elems_rest_push(s: Seq<JsonV>, e: JsonV)
    ensures
        spec_print_elems_rest(s.push(e)) == spec_print_elems_rest(s) + seq![CM] + spec_print(e),
    decreases s,
{
    assert(s.push(e)[0] == if s.len() == 0 { e } else { s[0] });
    if s.len() == 0 {
        assert(s.push(e).drop_first() =~= Seq::<JsonV>::empty());
        assert(spec_print_elems_rest(s.push(e)) == seq![CM] + spec_print(e)
            + spec_print_elems_rest(Seq::<JsonV>::empty()));
        assert(spec_print_elems_rest(s.push(e)) =~= spec_print_elems_rest(s) + seq![CM]
            + spec_print(e));
    } else {
        assert(s.push(e).drop_first() =~= s.drop_first().push(e));
        lemma_print_elems_rest_push(s.drop_first(), e);
        assert(spec_print_elems_rest(s.push(e)) == seq![CM] + spec_print(s[0])
            + spec_print_elems_rest(s.drop_first().push(e)));
        assert(spec_print_elems_rest(s) + seq![CM] + spec_print(e) =~= seq![CM] + spec_print(s[0])
            + (spec_print_elems_rest(s.drop_first()) + seq![CM] + spec_print(e)));
        assert(spec_print_elems_rest(s.push(e)) =~= spec_print_elems_rest(s) + seq![CM]
            + spec_print(e));
    }
}

proof fn lemma_print_members_rest_push(s: Seq<(Seq<u8>, JsonV)>, m: (Seq<u8>, JsonV))
    ensures
        spec_print_members_rest(s.push(m)) == spec_print_members_rest(s) + seq![CM]
            + spec_print_member(m),
    decreases s,
{
    assert(s.push(m)[0] == if s.len() == 0 { m } else { s[0] });
    if s.len() == 0 {
        assert(s.push(m).drop_first() =~= Seq::<(Seq<u8>, JsonV)>::empty());
        assert(spec_print_members_rest(s.push(m)) == seq![CM] + spec_print_member(m)
            + spec_print_members_rest(Seq::<(Seq<u8>, JsonV)>::empty()));
        assert(spec_print_members_rest(s.push(m)) =~= spec_print_members_rest(s) + seq![CM]
            + spec_print_member(m));
    } else {
        assert(s.push(m).drop_first() =~= s.drop_first().push(m));
        lemma_print_members_rest_push(s.drop_first(), m);
        assert(spec_print_members_rest(s.push(m)) == seq![CM] + spec_print_member(s[0])
            + spec_print_members_rest(s.drop_first().push(m)));
        assert(spec_print_members_rest(s) + seq![CM] + spec_print_member(m) =~= seq![CM]
            + spec_print_member(s[0]) + (spec_print_members_rest(s.drop_first()) + seq![CM]
            + spec_print_member(m)));
        assert(spec_print_members_rest(s.push(m)) =~= spec_print_members_rest(s) + seq![CM]
            + spec_print_member(m));
    }
}

/// Writes the escaped content of `s`.
fn write_escaped(s: &[u8], out: &mut Vec<u8>)
    ensures
        final(out)@ == old(out)@ + spec_escape(s@),
{
    let n: usize = s.len();
    let mut i: usize = 0;
    while i < n
        invariant
            n == s@.len(),
            i <= n,
            out@ == old(out)@ + spec_escape(s@.subrange(0, i as int)),
        decreases n - i,
    {
        let b = s[i];
        proof {
            lemma_escape_push(s@.subrange(0, i as int), b);
            assert(s@.subrange(0, i + 1 as int) =~= s@.subrange(0, i as int).push(b));
        }
        if b == QU || b == BS {
            out.push(BS);
            out.push(b);
        } else if b < 0x20 {
            let hi: u8 = b / 16;
            let lo: u8 = b % 16;
            out.push(BS);
            out.push('u' as u8);
            out.push('0' as u8);
            out.push('0' as u8);
            out.push(if hi < 10 {
                0x30 + hi
            } else {
                0x57 + hi
            });
            out.push(if lo < 10 {
                0x30 + lo
            } else {
                0x57 + lo
            });
        } else {
            out.push(b);
        }
        assert(out@ =~= old(out)@ + spec_escape(s@.subrange(0, i + 1 as int)));
        i += 1;
    }
    assert(s@.subrange(0, n as int) =~= s@);
}

proof fn lemma_escape_push(s: Seq<u8>, b: u8)
    ensures
        spec_escape(s.push(b)) == spec_escape(s) + esc_byte(b),
    decreases s,
{
    assert(s.push(b)[0] == if s.len() == 0 { b } else { s[0] });
    if s.len() == 0 {
        assert(s.push(b).drop_first() =~= Seq::<u8>::empty());
        assert(spec_escape(s.push(b)) == esc_byte(b) + spec_escape(Seq::<u8>::empty()));
        assert(spec_escape(s.push(b)) =~= spec_escape(s) + esc_byte(b));
    } else {
        assert(s.push(b).drop_first() =~= s.drop_first().push(b));
        lemma_escape_push(s.drop_first(), b);
        assert(spec_escape(s.push(b)) == esc_byte(s[0]) + spec_escape(s.drop_first().push(b)));
        assert(spec_escape(s) + esc_byte(b) =~= esc_byte(s[0]) + (spec_escape(s.drop_first())
            + esc_byte(b)));
        assert(spec_escape(s.push(b)) =~= spec_escape(s) + esc_byte(b));
    }
}

/// Writes the decimal digits of `n`.
fn write_u64(n: u64, out: &mut Vec<u8>)
    ensures
        final(out)@ == old(out)@ + spec_digits(n),
    decreases n,
{
    if n < 10 {
        out.push((0x30 + n) as u8);
        assert(out@ =~= old(out)@ + spec_digits(n));
    } else {
        write_u64(n / 10, out);
        out.push((0x30 + n % 10) as u8);
        assert(out@ =~= old(out)@ + spec_digits(n));
    }
}

/// Writes the compact text of `j` onto `out`.
pub fn write_json(j: &Json, out: &mut Vec<u8>)
    ensures
        final(out)@ == old(out)@ + spec_print(j@),
    decreases *j,
{
    match j {
        Json::Null => {
            out.push('n' as u8);
            out.push('u' as u8);
            out.push('l' as u8);
            out.push('l' as u8);
            assert(out@ =~= old(out)@ + spec_print(j@));
        },
        Json::Int(n) => {
            write_u64(*n, out);
        },
        Json::Str(s) => {
            out.push(QU);
            write_escaped(s.as_slice(), out);
            out.push(QU);
            assert(out@ =~= old(out)@ + spec_print(j@));
        },
        Json::Arr(elems) => {
            out.push(LB);
            let n: usize = elems.len();
            let ghost vs = json_views(elems@);
            proof {
                lemma_json_views_index(elems@);
            }
            let mut k: usize = 0;
            while k < n
                invariant
                    *j == Json::Arr(*elems),
                    n == elems@.len(),
                    k <= n,
                    vs == json_views(elems@),
                    vs.len() == n,
                    forall|m: int| 0 <= m < n ==> vs[m] == json_view(elems@[m]),
                    k == 0 ==> out@ == old(out)@ + seq![LB],
                    k > 0 ==> out@ == old(out)@ + seq![LB] + spec_print(vs[0])
                        + spec_print_elems_rest(vs.subrange(1, k as int)),
                decreases n - k,
            {
                proof {
                    assert(*j == Json::Arr(*elems));
                    assert(j->Arr_0 == *elems);
                    assert(decreases_to!(*j => j->Arr_0));
                    assert(decreases_to!(*elems => elems@));
                    assert(decreases_to!(elems@ => elems@[k as int]));
                }
                if k > 0 {
                    out.push(CM);
                }
                write_json(&elems[k], out);
                proof {
                    if k == 0 {
                        assert(out@ =~= old(out)@ + seq![LB] + spec_print(vs[0])
                            + spec_print_elems_rest(vs.subrange(1, 1)));
                    } else {
                        lemma_print_elems_rest_push(vs.subrange(1, k as int), vs[k as int]);
                        assert(vs.subrange(1, k as int).push(vs[k as int]) =~= vs.subrange(
                            1,
                            k + 1 as int,
                        ));
                        assert(out@ =~= old(out)@ + seq![LB] + spec_print(vs[0])
                            + spec_print_elems_rest(vs.subrange(1, k + 1 as int)));
                    }
                }
                k += 1;
            }
            out.push(RB);
            proof {
                assert(j@ == JsonV::Arr(vs));
                if n == 0 {
                    assert(vs =~= Seq::<JsonV>::empty());
                    assert(spec_print(j@) == seq![LB] + spec_print_elems(vs) + seq![RB]);
                    assert(out@ =~= old(out)@ + spec_print(j@));
                } else {
                    assert(vs.subrange(1, n as int) =~= vs.drop_first());
                    assert(spec_print(j@) == seq![LB] + spec_print_elems(vs) + seq![RB]);
                    assert(spec_print_elems(vs) == spec_print(vs[0]) + spec_print_elems_rest(
                        vs.drop_first(),
                    ));
                    assert(out@ =~= old(out)@ + spec_print(j@));
                }
            }
        },
        Json::Obj(members) => {
            out.push(LC);
            let n: usize = members.len();
            let ghost vs = json_member_views(members@);
            proof {
                lemma_json_member_views_index(members@);
            }
            let mut k: usize = 0;
            while k < n
                invariant
                    *j == Json::Obj(*members),
                    n == members@.len(),
                    k <= n,
                    vs == json_member_views(members@),
                    vs.len() == n,
                    forall|m: int|
                        0 <= m < n ==> vs[m] == (members@[m].0@, json_view(members@[m].1)),
                    k == 0 ==> out@ == old(out)@ + seq![LC],
                    k > 0 ==> out@ == old(out)@ + seq![LC] + spec_print_member(vs[0])
                        + spec_print_members_rest(vs.subrange(1, k as int)),
                decreases n - k,
            {
                proof {
                    assert(*j == Json::Obj(*members));
                    assert(j->Obj_0 == *members);
                    assert(decreases_to!(*j => j->Obj_0));
                    assert(decreases_to!(*members => members@));
                    assert(decreases_to!(members@ => members@[k as int]));
                    assert(decreases_to!(members@[k as int] => members@[k as int].1));
                }
                if k > 0 {
                    out.push(CM);
                }
                out.push(QU);
                write_escaped(members[k].0.as_slice(), out);
                out.push(QU);
                out.push(CL);
                write_json(&members[k].1, out);
                proof {
                    if k == 0 {
                        assert(out@ =~= old(out)@ + seq![LC] + spec_print_member(vs[0])
                            + spec_print_members_rest(vs.subrange(1, 1)));
                    } else {
                        lemma_print_members_rest_push(vs.subrange(1, k as int), vs[k as int]);
                        assert(vs.subrange(1, k as int).push(vs[k as int]) =~= vs.subrange(
                            1,
                            k + 1 as int,
                        ));
                        assert(out@ =~= old(out)@ + seq![LC] + spec_print_member(vs[0])
                            + spec_print_members_rest(vs.subrange(1, k + 1 as int)));
                    }
                }
                k += 1;
            }
            out.push(RC);
            proof {
                assert(j@ == JsonV::Obj(vs));
                if n == 0 {
                    assert(vs =~= Seq::<(Seq<u8>, JsonV)>::empty());
                    assert(spec_print(j@) == seq![LC] + spec_print_members(vs) + seq![RC]);
                    assert(out@ =~= old(out)@ + spec_print(j@));
                } else {
                    assert(vs.subrange(1, n as int) =~= vs.drop_first());
                    assert(spec_print(j@) == seq![LC] + spec_print_members(vs) + seq![RC]);
                    assert(spec_print_members(vs) == spec_print_member(vs[0])
                        + spec_print_members_rest(vs.drop_first()));
                    assert(out@ =~= old(out)@ + spec_print(j@));
                }
            }
        },
    }
}

/// The compact text of `j` as a fresh buffer.
pub fn to_bytes(j: &Json) -> (r: Vec<u8>)
    ensures
        r@ == spec_print(j@),
{
    let mut out: Vec<u8> = Vec::new();
    write_json(j, &mut out);
    out
}

// ---------------------------------------------------------------------
// Reading: a recursive-descent grammar over byte sequences.  Each
// function takes the position it starts at and yields the parsed value
// with the position just past it.  Whitespace is consumed between
// tokens.  `after` keeps positions advancing so the definitions
// terminate; the bounds lemmas below show it never actually clamps.

/// The input not yet consumed at position `i`.
pub open spec fn rem(s: Seq<u8>, i: nat) -> nat {
    if i <= s.len() {
        (s.len() - i) as nat
    } else {
        0
    }
}

/// `to` if it advanced past `from`, the next byte otherwise.
pub open spec fn after(from: nat, to: nat) -> nat {
    if to > from {
        to
    } else {
        (from + 1) as nat
    }
}

/// The content of a quoted string, starting just past the opening
/// quote; ends at the closing quote.  The simple escapes and
/// `\u00XX` (up to 0x7f) are understood; raw control bytes are
/// rejected.
pub open spec fn parse_string(s: Seq<u8>, i: nat) -> Option<(Seq<u8>, nat)>
    decreases rem(s, i),
{
    if i >= s.len() {
        None
    } else if s[i as int] == QU {
        Some((Seq::empty(), (i + 1) as nat))
    } else if s[i as int] == BS {
        if i + 1 < s.len() {
            let e = s[(i + 1) as int];
            if esc_char_value(e) is Some {
                match parse_string(s, (i + 2) as nat) {
                    Some((t, j)) => Some((seq![esc_char_value(e)->Some_0] + t, j)),
                    None => None,
                }
            } else if e == 'u' as u8 {
                match u_hex4(s, (i + 2) as nat) {
                    Some(v) => if v < 0x80 {
                        match parse_string(s, (i + 6) as nat) {
                            Some((t, j)) => Some((seq![v as u8] + t, j)),
                            None => None,
                        }
                    } else {
                        None
                    },
                    None => None,
                }
            } else {
                None
            }
        } else {
            None
        }
    } else if s[i as int] < 0x20 {
        None
    } else {
        match parse_string(s, (i + 1) as nat) {
            Some((t, j)) => Some((seq![s[i as int]] + t, j)),
            None => None,
        }
    }
}

/// The first position at or past `i` that does not hold a digit.
pub open spec fn digits_end(s: Seq<u8>, i: nat) -> nat
    decreases rem(s, i),
{
    if i < s.len() && is_digit(s[i as int]) {
        digits_end(s, (i + 1) as nat)
    } else {
        i
    }
}

/// The value of the digits at positions `i..j`.
pub open spec fn digits_val(s: Seq<u8>, i: nat, j: nat) -> nat
    decreases j - i,
{
    if i >= j || j > s.len() {
        0
    } else {
        digits_val(s, i, (j - 1) as nat) * 10 + (if is_digit(s[j - 1]) {
            (s[j - 1] - 0x30) as nat
        } else {
            0
        })
    }
}

/// Positions `i..` up to the colon, which is consumed.
pub open spec fn parse_colon(s: Seq<u8>, i: nat) -> Option<nat>
    decreases rem(s, i),
{
    if i >= s.len() {
        None
    } else if is_ws(s[i as int]) {
        parse_colon(s, (i + 1) as nat)
    } else if s[i as int] == CL {
        Some((i + 1) as nat)
    } else {
        None
    }
}

/// One JSON value, with whitespace allowed in front.
pub open spec fn parse_value(s: Seq<u8>, i: nat) -> Option<(JsonV, nat)>
    decreases rem(s, i), 0nat,
{
    if i >= s.len() {
        None
    } else if is_ws(s[i as int]) {
        parse_value(s, (i + 1) as nat)
    } else if s[i as int] == QU {
        match parse_string(s, (i + 1) as nat) {
            Some((t, j)) => Some((JsonV::Str(t), j)),
            None => None,
        }
    } else if s[i as int] == LB {
        match parse_arr_first(s, (i + 1) as nat) {
            Some((es, j)) => Some((JsonV::Arr(es), j)),
            None => None,
        }
    } else if s[i as int] == LC {
        match parse_obj_first(s, (i + 1) as nat) {
            Some((ms, j)) => Some((JsonV::Obj(ms), j)),
            None => None,
        }
    } else if s[i as int] == 'n' as u8 {
        if i + 4 <= s.len() && s[(i + 1) as int] == 'u' as u8 && s[(i + 2) as int] == 'l' as u8
            && s[(i + 3) as int] == 'l' as u8 {
            Some((JsonV::Null, (i + 4) as nat))
        } else {
            None
        }
    } else if is_digit(s[i as int]) {
        let j = if s[i as int] == 0x30 {
            (i + 1) as nat
        } else {
            digits_end(s, i)
        };
        if digits_val(s, i, j) <= u64::MAX {
            Some((JsonV::Int(digits_val(s, i, j) as u64), j))
        } else {
            None
        }
    } else {
        None
    }
}

/// Array contents right after `[`: the closing bracket, or a first
/// element followed by the comma-led rest.
pub open spec fn parse_arr_first(s: Seq<u8>, i: nat) -> Option<(Seq<JsonV>, nat)>
    decreases rem(s, i), 1nat,
{
    if i >= s.len() {
        None
    } else if is_ws(s[i as int]) {
        parse_arr_first(s, (i + 1) as nat)
    } else if s[i as int] == RB {
        Some((Seq::empty(), (i + 1) as nat))
    } else {
        match parse_value(s, i) {
            Some((v, j)) => match parse_arr_rest(s, after(i, j)) {
                Some((es, j2)) => Some((seq![v] + es, j2)),
                None => None,
            },
            None => None,
        }
    }
}

/// Array contents after an element: the closing bracket, or a comma
/// and a further element.
pub open spec fn parse_arr_rest(s: Seq<u8>, i: nat) -> Option<(Seq<JsonV>, nat)>
    decreases rem(s, i), 1nat,
{
    if i >= s.len() {
        None
    } else if is_ws(s[i as int]) {
        parse_arr_rest(s, (i + 1) as nat)
    } else if s[i as int] == RB {
        Some((Seq::empty(), (i + 1) as nat))
    } else if s[i as int] == CM {
        match parse_value(s, (i + 1) as nat) {
            Some((v, j)) => match parse_arr_rest(s, after((i + 1) as nat, j)) {
                Some((es, j2)) => Some((seq![v] + es, j2)),
                None => None,
            },
            None => None,
        }
    } else {
        None
    }
}

/// One `"key": value` member, with whitespace allowed in front.
pub open spec fn parse_obj_member(s: Seq<u8>, i: nat) -> Option<((Seq<u8>, JsonV), nat)>
    decreases rem(s, i), 1nat,
{
    if i >= s.len() {
        None
    } else if is_ws(s[i as int]) {
        parse_obj_member(s, (i + 1) as nat)
    } else if s[i as int] == QU {
        match parse_string(s, (i + 1) as nat) {
            Some((k, j)) => match parse_colon(s, j) {
                Some(jc) => match parse_value(s, after(i, jc)) {
                    Some((v, jv)) => Some(((k, v), jv)),
                    None => None,
                },
                None => None,
            },
            None => None,
        }
    } else {
        None
    }
}

/// Object contents right after `{`: the closing brace, or a first
/// member followed by the comma-led rest.
pub open spec fn parse_obj_first(s: Seq<u8>, i: nat) -> Option<(Seq<(Seq<u8>, JsonV)>, nat)>
    decreases rem(s, i), 2nat,
{
    if i >= s.len() {
        None
    } else if is_ws(s[i as int]) {
        parse_obj_first(s, (i + 1) as nat)
    } else if s[i as int] == RC {
        Some((Seq::empty(), (i + 1) as nat))
    } else {
        match parse_obj_member(s, i) {
            Some((m, j)) => match parse_obj_rest(s, after(i, j)) {
                Some((ms, j2)) => Some((seq![m] + ms, j2)),
                None => None,
            },
            None => None,
        }
    }
}

/// Object contents after a member: the closing brace, or a comma and
/// a further member.
pub open spec fn parse_obj_rest(s: Seq<u8>, i: nat) -> Option<(Seq<(Seq<u8>, JsonV)>, nat)>
    decreases rem(s, i), 2nat,
{
    if i >= s.len() {
        None
    } else if is_ws(s[i as int]) {
        parse_obj_rest(s, (i + 1) as nat)
    } else if s[i as int] == RC {
        Some((Seq::empty(), (i + 1) as nat))
    } else if s[i as int] == CM {
        match parse_obj_member(s, (i + 1) as nat) {
            Some((m, j)) => match parse_obj_rest(s, after((i + 1) as nat, j)) {
                Some((ms, j2)) => Some((seq![m] + ms, j2)),
                None => None,
            },
            None => None,
        }
    } else {
        None
    }
}

/// Nothing but whitespace at positions `i..`.
pub open spec fn only_ws(s: Seq<u8>, i: nat) -> bool {
    forall|k: int| i <= k < s.len() ==> is_ws(#[trigger] s[k])
}

/// A whole text: one value, with only whitespace around it.
pub open spec fn spec_parse_text(s: Seq<u8>) -> Option<JsonV> {
    match parse_value(s, 0) {
        Some((v, j)) => if only_ws(s, j) {
            Some(v)
        } else {
            None
        },
        None => None,
    }
}

// Every successful parse consumes at least one byte and stays within
// the input.

pub proof fn lemma_parse_string_bounds(s: Seq<u8>, i: nat)
    ensures
        parse_string(s, i) matches Some((t, j)) ==> i < j <= s.len(),
    decreases rem(s, i),
{
    if i < s.len() && s[i as int] != QU {
        if s[i as int] == BS {
            lemma_parse_string_bounds(s, (i + 2) as nat);
            lemma_parse_string_bounds(s, (i + 6) as nat);
        } else {
            lemma_parse_string_bounds(s, (i + 1) as nat);
        }
    }
}

pub proof fn lemma_digits_end_bounds(s: Seq<u8>, i: nat)
    requires
        i <= s.len(),
    ensures
        i <= digits_end(s, i) <= s.len(),
    decreases rem(s, i),
{
    if i < s.len() && is_digit(s[i as int]) {
        lemma_digits_end_bounds(s, (i + 1) as nat);
    }
}

pub proof fn lemma_parse_colon_bounds(s: Seq<u8>, i: nat)
    ensures
        parse_colon(s, i) matches Some(j) ==> i < j <= s.len(),
    decreases rem(s, i),
{
    if i < s.len() && is_ws(s[i as int]) {
        lemma_parse_colon_bounds(s, (i + 1) as nat);
    }
}

pub proof fn lemma_parse_value_bounds(s: Seq<u8>, i: nat)
    ensures
        parse_value(s, i) matches Some((v, j)) ==> i < j <= s.len(),
    decreases rem(s, i), 0nat,
{
    if i < s.len() {
        if is_ws(s[i as int]) {
            lemma_parse_value_bounds(s, (i + 1) as nat);
        } else if s[i as int] == QU {
            lemma_parse_string_bounds(s, (i + 1) as nat);
        } else if s[i as int] == LB {
            lemma_parse_arr_first_bounds(s, (i + 1) as nat);
        } else if s[i as int] == LC {
            lemma_parse_obj_first_bounds(s, (i + 1) as nat);
        } else if is_digit(s[i as int]) {
            lemma_digits_end_bounds(s, (i + 1) as nat);
        }
    }
}

pub proof fn lemma_parse_arr_first_bounds(s: Seq<u8>, i: nat)
    ensures
        parse_arr_first(s, i) matches Some((es, j)) ==> i < j <= s.len(),
    decreases rem(s, i), 1nat,
{
    if i < s.len() {
        if is_ws(s[i as int]) {
            lemma_parse_arr_first_bounds(s, (i + 1) as nat);
        } else if s[i as int] != RB {
            lemma_parse_value_bounds(s, i);
            if parse_value(s, i) is Some {
                let j = parse_value(s, i)->Some_0.1;
                lemma_parse_arr_rest_bounds(s, after(i, j));
            }
        }
    }
}

pub proof fn lemma_parse_arr_rest_bounds(s: Seq<u8>, i: nat)
    ensures
        parse_arr_rest(s, i) matches Some((es, j)) ==> i < j <= s.len(),
    decreases rem(s, i), 1nat,
{
    if i < s.len() {
        if is_ws(s[i as int]) {
            lemma_parse_arr_rest_bounds(s, (i + 1) as nat);
        } else if s[i as int] == CM {
            lemma_parse_value_bounds(s, (i + 1) as nat);
            if parse_value(s, (i + 1) as nat) is Some {
                let j = parse_value(s, (i + 1) as nat)->Some_0.1;
                lemma_parse_arr_rest_bounds(s, after((i + 1) as nat, j));
            }
        }
    }
}

pub proof fn lemma_parse_obj_member_bounds(s: Seq<u8>, i: nat)
    ensures
        parse_obj_member(s, i) matches Some((m, j)) ==> i < j <= s.len(),
    decreases rem(s, i), 1nat,
{
    if i < s.len() {
        if is_ws(s[i as int]) {
            lemma_parse_obj_member_bounds(s, (i + 1) as nat);
        } else if s[i as int] == QU {
            lemma_parse_string_bounds(s, (i + 1) as nat);
            if parse_string(s, (i + 1) as nat) is Some {
                let j = parse_string(s, (i + 1) as nat)->Some_0.1;
                lemma_parse_colon_bounds(s, j);
                if parse_colon(s, j) is Some {
                    let jc = parse_colon(s, j)->Some_0;
                    lemma_parse_value_bounds(s, after(i, jc));
                }
            }
        }
    }
}

pub proof fn lemma_parse_obj_first_bounds(s: Seq<u8>, i: nat)
    ensures
        parse_obj_first(s, i) matches Some((ms, j)) ==> i < j <= s.len(),
    decreases rem(s, i), 2nat,
{
    if i < s.len() {
        if is_ws(s[i as int]) {
            lemma_parse_obj_first_bounds(s, (i + 1) as nat);
        } else if s[i as int] != RC {
            lemma_parse_obj_member_bounds(s, i);
            if parse_obj_member(s, i) is Some {
                let j = parse_obj_member(s, i)->Some_0.1;
                lemma_parse_obj_rest_bounds(s, after(i, j));
            }
        }
    }
}

pub proof fn lemma_parse_obj_rest_bounds(s: Seq<u8>, i: nat)
    ensures
        parse_obj_rest(s, i) matches Some((ms, j)) ==> i < j <= s.len(),
    decreases rem(s, i), 2nat,
{
    if i < s.len() {
        if is_ws(s[i as int]) {
            lemma_parse_obj_rest_bounds(s, (i + 1) as nat);
        } else if s[i as int] == CM {
            lemma_parse_obj_member_bounds(s, (i + 1) as nat);
            if parse_obj_member(s, (i + 1) as nat) is Some {
                let j = parse_obj_member(s, (i + 1) as nat)->Some_0.1;
                lemma_parse_obj_rest_bounds(s, after((i + 1) as nat, j));
            }
        }
    }
}

// Digits at `i..digits_end` really are digits, and a longer digit run
// never has a smaller value.

proof fn lemma_digits_end_digits(s: Seq<u8>, i: nat)
    requires
        i <= s.len(),
    ensures
        forall|k: int| i <= k < digits_end(s, i) ==> is_digit(#[trigger] s[k]),
    decreases rem(s, i),
{
    if i < s.len() && is_digit(s[i as int]) {
        lemma_digits_end_digits(s, (i + 1) as nat);
    }
}

proof fn lemma_digits_val_mono(s: Seq<u8>, i: nat, k: nat, j: nat)
    requires
        i <= k <= j <= s.len(),
    ensures
        digits_val(s, i, k) <= digits_val(s, i, j),
    decreases j - k,
{
    if k < j {
        lemma_digits_val_mono(s, i, k, (j - 1) as nat);
    }
}

/// Reads a quoted string's content, starting just past the opening
/// quote.
fn p_string(s: &[u8], start: usize) -> (r: Option<(Vec<u8>, usize)>)
    ensures
        match r {
            Some((t, j)) => parse_string(s@, start as nat) == Some((t@, j as nat)) && start < j
                <= s@.len(),
            None => parse_string(s@, start as nat) is None,
        },
{
    let n: usize = s.len();
    let mut acc: Vec<u8> = Vec::new();
    let mut i: usize = start;
    loop
        invariant
            n == s@.len(),
            start <= i,
            match parse_string(s@, i as nat) {
                Some((t, j)) => parse_string(s@, start as nat) == Some((acc@ + t, j)),
                None => parse_string(s@, start as nat) is None,
            },
        decreases n - i,
    {
        proof {
            lemma_parse_string_bounds(s@, start as nat);
        }
        if i >= n {
            return None;
        }
        let b = s[i];
        if b == QU {
            assert(acc@ + Seq::<u8>::empty() =~= acc@);
            return Some((acc, i + 1));
        } else if b == BS {
            if i + 1 >= n {
                return None;
            }
            let e = s[i + 1];
            let simple: Option<u8> = if e == QU {
                Some(QU)
            } else if e == BS {
                Some(BS)
            } else if e == '/' as u8 {
                Some('/' as u8)
            } else if e == 'b' as u8 {
                Some(0x08)
            } else if e == 'f' as u8 {
                Some(0x0c)
            } else if e == 'n' as u8 {
                Some(0x0a)
            } else if e == 'r' as u8 {
                Some(0x0d)
            } else if e == 't' as u8 {
                Some(0x09)
            } else {
                None
            };
            proof {
                assert(simple == esc_char_value(e));
            }
            match simple {
                Some(c) => {
                    let ghost accpre = acc@;
                    acc.push(c);
                    proof {
                        if parse_string(s@, (i + 2) as nat) is Some {
                            let t2 = parse_string(s@, (i + 2) as nat)->Some_0.0;
                            assert(accpre + (seq![c] + t2) =~= acc@ + t2);
                        }
                    }
                    i = i + 2;
                },
                None => {
                    if e != 'u' as u8 {
                        return None;
                    }
                    if n - i < 6 {
                        assert(u_hex4(s@, (i + 2) as nat) is None);
                        return None;
                    }
                    let h0 = match hex_val_x(s[i + 2]) {
                        Some(h) => h,
                        None => {
                            return None;
                        },
                    };
                    let h1 = match hex_val_x(s[i + 3]) {
                        Some(h) => h,
                        None => {
                            return None;
                        },
                    };
                    let h2 = match hex_val_x(s[i + 4]) {
                        Some(h) => h,
                        None => {
                            return None;
                        },
                    };
                    let h3 = match hex_val_x(s[i + 5]) {
                        Some(h) => h,
                        None => {
                            return None;
                        },
                    };
                    let v: u32 = (h0 as u32) * 4096 + (h1 as u32) * 256 + (h2 as u32) * 16 + (
                    h3 as u32);
                    proof {
                        assert(u_hex4(s@, (i + 2) as nat) == Some(v as nat));
                    }
                    if v >= 0x80 {
                        return None;
                    }
                    let c: u8 = v as u8;
                    let ghost accpre = acc@;
                    acc.push(c);
                    proof {
                        if parse_string(s@, (i + 6) as nat) is Some {
                            let t2 = parse_string(s@, (i + 6) as nat)->Some_0.0;
                            assert(accpre + (seq![c] + t2) =~= acc@ + t2);
                        }
                    }
                    i = i + 6;
                },
            }
        } else if b < 0x20 {
            return None;
        } else {
            let ghost accpre = acc@;
            acc.push(b);
            proof {
                if parse_string(s@, (i + 1) as nat) is Some {
                    let t2 = parse_string(s@, (i + 1) as nat)->Some_0.0;
                    assert(accpre + (seq![b] + t2) =~= acc@ + t2);
                }
            }
            i = i + 1;
        }
    }
}

/// The nibble a hex digit stands for.
fn hex_val_x(b: u8) -> (r: Option<u8>)
    ensures
        r == crate::ident::hex_val(b),
{
    if 0x30 <= b && b <= 0x39 {
        Some(b - 0x30)
    } else if 0x61 <= b && b <= 0x66 {
        Some(b - 0x57)
    } else if 0x41 <= b && b <= 0x46 {
        Some(b - 0x37)
    } else {
        None
    }
}

/// Reads whitespace and a colon.
fn p_colon(s: &[u8], start: usize) -> (r: Option<usize>)
    ensures
        match r {
            Some(j) => parse_colon(s@, start as nat) == Some(j as nat) && start < j <= s@.len(),
            None => parse_colon(s@, start as nat) is None,
        },
{
    let n: usize = s.len();
    let mut i: usize = start;
    while i < n && (s[i] == 0x20 || s[i] == 0x09 || s[i] == 0x0a || s[i] == 0x0d)
        invariant
            n == s@.len(),
            start <= i,
            parse_colon(s@, start as nat) == parse_colon(s@, i as nat),
        decreases n - i,
    {
        i += 1;
    }
    proof {
        lemma_parse_colon_bounds(s@, start as nat);
    }
    if i < n && s[i] == CL {
        Some(i + 1)
    } else {
        None
    }
}

/// Reads an unsigned integer at `start`, which holds a digit.
fn p_int(s: &[u8], start: usize) -> (r: Option<(u64, usize)>)
    requires
        start < s@.len(),
        is_digit(s@[start as int]),
    ensures
        ({
            let j = if s@[start as int] == 0x30 {
                (start + 1) as nat
            } else {
                digits_end(s@, start as nat)
            };
            match r {
                Some((v, je)) => digits_val(s@, start as nat, j) <= u64::MAX && v == digits_val(
                    s@,
                    start as nat,
                    j,
                ) && je == j,
                None => digits_val(s@, start as nat, j) > u64::MAX,
            }
        }),
{
    let n: usize = s.len();
    let mut j: usize = start + 1;
    if s[start] != 0x30 {
        while j < n && 0x30 <= s[j] && s[j] <= 0x39
            invariant
                n == s@.len(),
                start < j <= n,
                digits_end(s@, start as nat) == digits_end(s@, j as nat),
            decreases n - j,
        {
            j += 1;
        }
        assert(digits_end(s@, j as nat) == j);
    }
    let ghost jn: nat = if s@[start as int] == 0x30 {
        (start + 1) as nat
    } else {
        digits_end(s@, start as nat)
    };
    assert(j == jn);
    proof {
        if s@[start as int] != 0x30 {
            lemma_digits_end_digits(s@, start as nat);
            lemma_digits_end_bounds(s@, start as nat);
        }
    }
    assert(forall|k: int| start <= k < j ==> is_digit(#[trigger] s@[k]));
    let mut acc: u64 = 0;
    let mut k: usize = start;
    while k < j
        invariant
            n == s@.len(),
            start <= k <= j <= n,
            start < n,
            is_digit(s@[start as int]),
            j == jn,
            jn == (if s@[start as int] == 0x30 {
                (start + 1) as nat
            } else {
                digits_end(s@, start as nat)
            }),
            forall|m: int| start <= m < j ==> is_digit(#[trigger] s@[m]),
            acc == digits_val(s@, start as nat, k as nat),
        decreases j - k,
    {
        let d: u8 = s[k] - 0x30;
        if acc > (u64::MAX - d as u64) / 10 {
            proof {
                assert(digits_val(s@, start as nat, (k + 1) as nat) == acc * 10 + d);
                assert(acc * 10 + d > u64::MAX) by (nonlinear_arith)
                    requires
                        acc > (u64::MAX - d as u64) / 10,
                        d <= 9,
                {}
                lemma_digits_val_mono(s@, start as nat, (k + 1) as nat, jn);
            }
            return None;
        }
        proof {
            assert(acc * 10 + d <= u64::MAX) by (nonlinear_arith)
                requires
                    acc <= (u64::MAX - d as u64) / 10,
                    d <= 9,
            {}
        }
        acc = acc * 10 + (d as u64);
        k += 1;
    }
    Some((acc, j))
}

/// Reads one JSON value.
pub fn p_value(s: &[u8], start: usize) -> (r: Option<(Json, usize)>)
    ensures
        match r {
            Some((v, j)) => parse_value(s@, start as nat) == Some((v@, j as nat)) && start < j
                <= s@.len(),
            None => parse_value(s@, start as nat) is None,
        },
    decreases rem(s@, start as nat), 0nat,
{
    let n: usize = s.len();
    let mut i: usize = start;
    while i < n && (s[i] == 0x20 || s[i] == 0x09 || s[i] == 0x0a || s[i] == 0x0d)
        invariant
            n == s@.len(),
            start <= i,
            parse_value(s@, start as nat) == parse_value(s@, i as nat),
        decreases n - i,
    {
        i += 1;
    }
    proof {
        lemma_parse_value_bounds(s@, start as nat);
    }
    if i >= n {
        return None;
    }
    let b = s[i];
    if b == QU {
        match p_string(s, i + 1) {
            Some((t, j)) => Some((Json::Str(t), j)),
            None => None,
        }
    } else if b == LB {
        proof {
            assert(rem(s@, (i + 1) as nat) < rem(s@, start as nat));
        }
        match p_arr_first(s, i + 1) {
            Some((es, j)) => Some((Json::Arr(es), j)),
            None => None,
        }
    } else if b == LC {
        match p_obj_first(s, i + 1) {
            Some((ms, j)) => Some((Json::Obj(ms), j)),
            None => None,
        }
    } else if b == 'n' as u8 {
        if n - i >= 4 && s[i + 1] == 'u' as u8 && s[i + 2] == 'l' as u8 && s[i + 3] == 'l' as u8 {
            Some((Json::Null, i + 4))
        } else {
            None
        }
    } else if 0x30 <= b && b <= 0x39 {
        match p_int(s, i) {
            Some((v, j)) => Some((Json::Int(v), j)),
            None => None,
        }
    } else {
        None
    }
}

/// Reads array contents right after `[`.
fn p_arr_first(s: &[u8], start: usize) -> (r: Option<(Vec<Json>, usize)>)
    ensures
        match r {
            Some((es, j)) => parse_arr_first(s@, start as nat) == Some((json_views(es@), j as nat))
                && start < j <= s@.len(),
            None => parse_arr_first(s@, start as nat) is None,
        },
    decreases rem(s@, start as nat), 1nat,
{
    let n: usize = s.len();
    let mut i: usize = start;
    while i < n && (s[i] == 0x20 || s[i] == 0x09 || s[i] == 0x0a || s[i] == 0x0d)
        invariant
            n == s@.len(),
            start <= i,
            parse_arr_first(s@, start as nat) == parse_arr_first(s@, i as nat),
        decreases n - i,
    {
        i += 1;
    }
    proof {
        lemma_parse_arr_first_bounds(s@, start as nat);
    }
    if i >= n {
        return None;
    }
    if s[i] == RB {
        let es: Vec<Json> = Vec::new();
        assert(json_views(es@) =~= Seq::<JsonV>::empty());
        return Some((es, i + 1));
    }
    match p_value(s, i) {
        Some((v, j)) => {
            proof {
                lemma_parse_value_bounds(s@, i as nat);
                assert(after(i as nat, j as nat) == j as nat);
            }
            match p_arr_rest(s, j) {
                Some((mut es, j2)) => {
                    let ghost oldes = es@;
                    es.insert(0, v);
                    proof {
                        assert(es@[0] == v);
                        assert(es@.drop_first() =~= oldes);
                        assert(json_views(es@) == seq![json_view(es@[0])] + json_views(
                            es@.drop_first(),
                        ));
                        assert(json_views(es@) =~= seq![v@] + json_views(oldes));
                    }
                    Some((es, j2))
                },
                None => None,
            }
        },
        None => None,
    }
}

/// Reads array contents after an element.
fn p_arr_rest(s: &[u8], start: usize) -> (r: Option<(Vec<Json>, usize)>)
    ensures
        match r {
            Some((es, j)) => parse_arr_rest(s@, start as nat) == Some((json_views(es@), j as nat))
                && start < j <= s@.len(),
            None => parse_arr_rest(s@, start as nat) is None,
        },
    decreases rem(s@, start as nat), 1nat,
{
    let n: usize = s.len();
    let mut i: usize = start;
    while i < n && (s[i] == 0x20 || s[i] == 0x09 || s[i] == 0x0a || s[i] == 0x0d)
        invariant
            n == s@.len(),
            start <= i,
            parse_arr_rest(s@, start as nat) == parse_arr_rest(s@, i as nat),
        decreases n - i,
    {
        i += 1;
    }
    proof {
        lemma_parse_arr_rest_bounds(s@, start as nat);
    }
    if i >= n {
        return None;
    }
    if s[i] == RB {
        let es: Vec<Json> = Vec::new();
        assert(json_views(es@) =~= Seq::<JsonV>::empty());
        return Some((es, i + 1));
    }
    if s[i] != CM {
        return None;
    }
    match p_value(s, i + 1) {
        Some((v, j)) => {
            proof {
                lemma_parse_value_bounds(s@, (i + 1) as nat);
                assert(after((i + 1) as nat, j as nat) == j as nat);
            }
            match p_arr_rest(s, j) {
                Some((mut es, j2)) => {
                    let ghost oldes = es@;
                    es.insert(0, v);
                    proof {
                        assert(es@[0] == v);
                        assert(es@.drop_first() =~= oldes);
                        assert(json_views(es@) == seq![json_view(es@[0])] + json_views(
                            es@.drop_first(),
                        ));
                        assert(json_views(es@) =~= seq![v@] + json_views(oldes));
                    }
                    Some((es, j2))
                },
                None => None,
            }
        },
        None => None,
    }
}

/// Reads one `"key": value` member.
fn p_obj_member(s: &[u8], start: usize) -> (r: Option<((Vec<u8>, Json), usize)>)
    ensures
        match r {
            Some((m, j)) => parse_obj_member(s@, start as nat) == Some(
                ((m.0@, m.1@), j as nat),
            ) && start < j <= s@.len(),
            None => parse_obj_member(s@, start as nat) is None,
        },
    decreases rem(s@, start as nat), 1nat,
{
    let n: usize = s.len();
    let mut i: usize = start;
    while i < n && (s[i] == 0x20 || s[i] == 0x09 || s[i] == 0x0a || s[i] == 0x0d)
        invariant
            n == s@.len(),
            start <= i,
            parse_obj_member(s@, start as nat) == parse_obj_member(s@, i as nat),
        decreases n - i,
    {
        i += 1;
    }
    proof {
        lemma_parse_obj_member_bounds(s@, start as nat);
    }
    if i >= n {
        return None;
    }
    if s[i] != QU {
        return None;
    }
    match p_string(s, i + 1) {
        Some((k, j)) => {
            match p_colon(s, j) {
                Some(jc) => {
                    proof {
                        assert(after(i as nat, jc as nat) == jc as nat);
                    }
                    match p_value(s, jc) {
                        Some((v, jv)) => Some(((k, v), jv)),
                        None => None,
                    }
                },
                None => None,
            }
        },
        None => None,
    }
}

/// Reads object contents right after `{`.
fn p_obj_first(s: &[u8], start: usize) -> (r: Option<(Vec<(Vec<u8>, Json)>, usize)>)
    ensures
        match r {
            Some((ms, j)) => parse_obj_first(s@, start as nat) == Some(
                (json_member_views(ms@), j as nat),
            ) && start < j <= s@.len(),
            None => parse_obj_first(s@, start as nat) is None,
        },
    decreases rem(s@, start as nat), 2nat,
{
    let n: usize = s.len();
    let mut i: usize = start;
    while i < n && (s[i] == 0x20 || s[i] == 0x09 || s[i] == 0x0a || s[i] == 0x0d)
        invariant
            n == s@.len(),
            start <= i,
            parse_obj_first(s@, start as nat) == parse_obj_first(s@, i as nat),
        decreases n - i,
    {
        i += 1;
    }
    proof {
        lemma_parse_obj_first_bounds(s@, start as nat);
    }
    if i >= n {
        return None;
    }
    if s[i] == RC {
        let ms: Vec<(Vec<u8>, Json)> = Vec::new();
        assert(json_member_views(ms@) =~= Seq::<(Seq<u8>, JsonV)>::empty());
        return Some((ms, i + 1));
    }
    match p_obj_member(s, i) {
        Some((m, j)) => {
            proof {
                lemma_parse_obj_member_bounds(s@, i as nat);
                assert(after(i as nat, j as nat) == j as nat);
            }
            match p_obj_rest(s, j) {
                Some((mut ms, j2)) => {
                    let ghost oldms = ms@;
                    let ghost mkey = m.0@;
                    let ghost mval = m.1@;
                    ms.insert(0, m);
                    proof {
                        assert(ms@[0] == m);
                        assert(ms@.drop_first() =~= oldms);
                        assert(json_member_views(ms@) == seq![(ms@[0].0@, json_view(ms@[0].1))]
                            + json_member_views(ms@.drop_first()));
                        assert(json_member_views(ms@) =~= seq![(mkey, mval)]
                            + json_member_views(oldms));
                    }
                    Some((ms, j2))
                },
                None => None,
            }
        },
        None => None,
    }
}

/// Reads object contents after a member.
fn p_obj_rest(s: &[u8], start: usize) -> (r: Option<(Vec<(Vec<u8>, Json)>, usize)>)
    ensures
        match r {
            Some((ms, j)) => parse_obj_rest(s@, start as nat) == Some(
                (json_member_views(ms@), j as nat),
            ) && start < j <= s@.len(),
            None => parse_obj_rest(s@, start as nat) is None,
        },
    decreases rem(s@, start as nat), 2nat,
{
    let n: usize = s.len();
    let mut i: usize = start;
    while i < n && (s[i] == 0x20 || s[i] == 0x09 || s[i] == 0x0a || s[i] == 0x0d)
        invariant
            n == s@.len(),
            start <= i,
            parse_obj_rest(s@, start as nat) == parse_obj_rest(s@, i as nat),
        decreases n - i,
    {
        i += 1;
    }
    proof {
        lemma_parse_obj_rest_bounds(s@, start as nat);
    }
    if i >= n {
        return None;
    }
    if s[i] == RC {
        let ms: Vec<(Vec<u8>, Json)> = Vec::new();
        assert(json_member_views(ms@) =~= Seq::<(Seq<u8>, JsonV)>::empty());
        return Some((ms, i + 1));
    }
    if s[i] != CM {
        return None;
    }
    match p_obj_member(s, i + 1) {
        Some((m, j)) => {
            proof {
                lemma_parse_obj_member_bounds(s@, (i + 1) as nat);
                assert(after((i + 1) as nat, j as nat) == j as nat);
            }
            match p_obj_rest(s, j) {
                Some((mut ms, j2)) => {
                    let ghost oldms = ms@;
                    let ghost mkey = m.0@;
                    let ghost mval = m.1@;
                    ms.insert(0, m);
                    proof {
                        assert(ms@[0] == m);
                        assert(ms@.drop_first() =~= oldms);
                        assert(json_member_views(ms@) == seq![(ms@[0].0@, json_view(ms@[0].1))]
                            + json_member_views(ms@.drop_first()));
                        assert(json_member_views(ms@) =~= seq![(mkey, mval)]
                            + json_member_views(oldms));
                    }
                    Some((ms, j2))
                },
                None => None,
            }
        },
        None => None,
    }
}

/// Reads a whole text: one value with only whitespace around it.
pub fn parse_text(s: &[u8]) -> (r: Option<Json>)
    ensures
        match r {
            Some(j) => spec_parse_text(s@) == Some(j@),
            None => spec_parse_text(s@) is None,
        },
{
    match p_value(s, 0) {
        Some((v, j)) => {
            let n: usize = s.len();
            let mut i: usize = j;
            while i < n && (s[i] == 0x20 || s[i] == 0x09 || s[i] == 0x0a || s[i] == 0x0d)
                invariant
                    n == s@.len(),
                    j <= i <= n,
                    forall|k: int| j <= k < i ==> is_ws(#[trigger] s@[k]),
                decreases n - i,
            {
                i += 1;
            }
            if i == n {
                assert(only_ws(s@, j as nat));
                Some(v)
            } else {
                assert(!is_ws(s@[i as int]));
                assert(!only_ws(s@, j as nat));
                None
            }
        },
        None => None,
    }
}

/// The value under `key` in an object's members, first match.
pub open spec fn jv_get(ms: Seq<(Seq<u8>, JsonV)>, key: Seq<u8>) -> Option<JsonV>
    decreases ms.len(),
{
    if ms.len() == 0 {
        None
    } else if ms[0].0 == key {
        Some(ms[0].1)
    } else {
        jv_get(ms.drop_first(), key)
    }
}

/// Looks `key` up among an object's members, first match.
pub fn obj_get<'a>(ms: &'a Vec<(Vec<u8>, Json)>, key: &[u8]) -> (r: Option<&'a Json>)
    ensures
        match r {
            Some(j) => jv_get(json_member_views(ms@), key@) == Some(j@),
            None => jv_get(json_member_views(ms@), key@) is None,
        },
{
    let ghost vs = json_member_views(ms@);
    proof {
        lemma_json_member_views_index(ms@);
        assert(vs.subrange(0, vs.len() as int) =~= vs);
    }
    let n: usize = ms.len();
    let mut i: usize = 0;
    while i < n
        invariant
            n == ms@.len(),
            i <= n,
            vs == json_member_views(ms@),
            vs.len() == n,
            forall|k: int| 0 <= k < n ==> vs[k] == (ms@[k].0@, json_view(ms@[k].1)),
            jv_get(vs, key@) == jv_get(vs.subrange(i as int, n as int), key@),
        decreases n - i,
    {
        let ghost pre = vs.subrange(i as int, n as int);
        if crate::bytes::bytes_eq(ms[i].0.as_slice(), key) {
            assert(pre[0].0 == key@);
            return Some(&ms[i].1);
        }
        proof {
            assert(pre[0].0 != key@);
            assert(pre.drop_first() =~= vs.subrange(i + 1, n as int));
        }
        i += 1;
    }
    assert(vs.subrange(n as int, n as int).len() == 0);
    None
}

// ---------------------------------------------------------------------
// Round trip: reading back exactly what the printer wrote yields the
// same value.

/// Splitting a slice equality over a concatenation.
proof fn lemma_concat_split(s: Seq<u8>, i: int, a: Seq<u8>, b: Seq<u8>)
    requires
        0 <= i,
        i + a.len() + b.len() <= s.len(),
        s.subrange(i, i + a.len() + b.len()) == a + b,
    ensures
        s.subrange(i, i + a.len()) == a,
        s.subrange(i + a.len(), i + a.len() + b.len()) == b,
{
    assert(s.subrange(i, i + a.len()) =~= a) by {
        assert forall|k: int| 0 <= k < a.len() implies s.subrange(i, i + a.len())[k] == a[k] by {
            assert((a + b)[k] == a[k]);
            assert(s.subrange(i, i + a.len() + b.len())[k] == s[i + k]);
        }
    }
    assert(s.subrange(i + a.len(), i + a.len() + b.len()) =~= b) by {
        assert forall|k: int|
            0 <= k < b.len() implies s.subrange(i + a.len(), i + a.len() + b.len())[k] == b[k] by {
            assert((a + b)[a.len() + k] == b[k]);
            assert(s.subrange(i, i + a.len() + b.len())[a.len() + k] == s[i + a.len() + k]);
        }
    }
}

/// The decimal digits of `n`: never empty, digits throughout, and
/// starting with `0` exactly for zero itself.
proof fn lemma_digits_props(n: u64)
    ensures
        spec_digits(n).len() >= 1,
        forall|k: int| 0 <= k < spec_digits(n).len() ==> is_digit(#[trigger] spec_digits(n)[k]),
        (spec_digits(n)[0] == 0x30) <==> n == 0,
    decreases n,
{
    if n >= 10 {
        lemma_digits_props(n / 10);
        assert forall|k: int|
            0 <= k < spec_digits(n).len() implies is_digit(#[trigger] spec_digits(n)[k]) by {
            if k < spec_digits(n / 10).len() {
                assert(spec_digits(n)[k] == spec_digits(n / 10)[k]);
            }
        }
        assert(spec_digits(n)[0] == spec_digits(n / 10)[0]);
    }
}

/// A run of digits bounded by a non-digit ends exactly there.
proof fn lemma_digits_end_run(s: Seq<u8>, i: nat, j: nat)
    requires
        i <= j <= s.len(),
        forall|k: int| i <= k < j ==> is_digit(#[trigger] s[k]),
        j == s.len() || !is_digit(s[j as int]),
    ensures
        digits_end(s, i) == j,
    decreases j - i,
{
    if i < j {
        lemma_digits_end_run(s, (i + 1) as nat, j);
    }
}

/// The value of a printed number's digits is the number again.
proof fn lemma_digits_val_of(s: Seq<u8>, i: nat, n: u64)
    requires
        i + spec_digits(n).len() <= s.len(),
        s.subrange(i as int, (i + spec_digits(n).len()) as int) == spec_digits(n),
    ensures
        digits_val(s, i, (i + spec_digits(n).len()) as nat) == n,
    decreases n,
{
    lemma_digits_props(n);
    let d = spec_digits(n);
    let j = i + d.len();
    if n < 10 {
        assert(s[i as int] == d[0]);
        assert(digits_val(s, i, (i + 1) as nat) == digits_val(s, i, i) * 10 + (n as nat));
    } else {
        let dp = spec_digits(n / 10);
        let last = seq![(0x30 + n % 10) as u8];
        assert(d == dp + last);
        assert(d.len() == dp.len() + 1);
        lemma_concat_split(s, i as int, dp, last);
        lemma_digits_val_of(s, i, n / 10);
        assert(s.subrange((j - 1) as int, j as int) == last);
        assert(s.subrange((j - 1) as int, j as int)[0] == s[(j - 1) as int]);
        assert(s[(j - 1) as int] == (0x30 + n % 10) as u8);
        assert(is_digit(s[(j - 1) as int]));
        assert(digits_val(s, i, j as nat) == digits_val(s, i, (j - 1) as nat) * 10 + (n % 10)
            as nat);
        assert(digits_val(s, i, j as nat) == (n / 10) as nat * 10 + (n % 10) as nat);
    }
}

/// Reading escaped content up to its closing quote yields the
/// unescaped bytes back.
proof fn lemma_roundtrip_string(s: Seq<u8>, i: nat, t: Seq<u8>)
    requires
        i + spec_escape(t).len() + 1 <= s.len(),
        s.subrange(i as int, (i + spec_escape(t).len()) as int) == spec_escape(t),
        s[(i + spec_escape(t).len()) as int] == QU,
    ensures
        parse_string(s, i) == Some((t, (i + spec_escape(t).len() + 1) as nat)),
    decreases t.len(),
{
    if t.len() == 0 {
        assert(s.subrange(i as int, i as int) =~= Seq::<u8>::empty());
        assert(s[i as int] == QU);
    } else {
        let e0 = esc_byte(t[0]);
        let rest = spec_escape(t.drop_first());
        assert(spec_escape(t) == e0 + rest);
        assert(spec_escape(t).len() == e0.len() + rest.len());
        lemma_concat_split(s, i as int, e0, rest);
        if t[0] == QU || t[0] == BS {
            assert(e0 == seq![BS, t[0]]);
            assert(s.subrange(i as int, (i + 2) as int)[0] == s[i as int]);
            assert(s.subrange(i as int, (i + 2) as int)[1] == s[(i + 1) as int]);
            assert(s[i as int] == BS);
            assert(s[(i + 1) as int] == t[0]);
            assert(esc_char_value(t[0]) == Some(t[0]));
            assert(s.subrange((i + 2) as int, (i + 2 + rest.len()) as int) == rest);
            lemma_roundtrip_string(s, (i + 2) as nat, t.drop_first());
            assert(seq![t[0]] + t.drop_first() =~= t);
            assert(parse_string(s, i) == Some(
                (
                    seq![t[0]] + t.drop_first(),
                    (i + spec_escape(t).len() + 1) as nat,
                ),
            ));
        } else if t[0] < 0x20 {
            let hi = (t[0] / 16) as u8;
            let lo = (t[0] % 16) as u8;
            assert(e0 == seq![
                BS,
                'u' as u8,
                '0' as u8,
                '0' as u8,
                crate::ident::hexd(hi),
                crate::ident::hexd(lo),
            ]);
            assert(s.subrange(i as int, (i + 6) as int)[0] == s[i as int]);
            assert(s.subrange(i as int, (i + 6) as int)[1] == s[(i + 1) as int]);
            assert(s.subrange(i as int, (i + 6) as int)[2] == s[(i + 2) as int]);
            assert(s.subrange(i as int, (i + 6) as int)[3] == s[(i + 3) as int]);
            assert(s.subrange(i as int, (i + 6) as int)[4] == s[(i + 4) as int]);
            assert(s.subrange(i as int, (i + 6) as int)[5] == s[(i + 5) as int]);
            assert(s[i as int] == BS);
            assert(s[(i + 1) as int] == 'u' as u8);
            assert(esc_char_value('u' as u8) is None);
            assert(crate::ident::hex_val('0' as u8) == Some(0u8));
            assert(crate::ident::hex_val(crate::ident::hexd(hi)) == Some(hi));
            assert(crate::ident::hex_val(crate::ident::hexd(lo)) == Some(lo));
            assert(u_hex4(s, (i + 2) as nat) == Some((hi as nat) * 16 + (lo as nat)));
            assert((hi as nat) * 16 + (lo as nat) == t[0] as nat);
            assert(s.subrange((i + 6) as int, (i + 6 + rest.len()) as int) == rest);
            lemma_roundtrip_string(s, (i + 6) as nat, t.drop_first());
            assert(seq![t[0]] + t.drop_first() =~= t);
            assert(parse_string(s, i) == Some(
                (
                    seq![t[0]] + t.drop_first(),
                    (i + spec_escape(t).len() + 1) as nat,
                ),
            ));
        } else {
            assert(e0 == seq![t[0]]);
            assert(s.subrange(i as int, (i + 1) as int)[0] == s[i as int]);
            assert(s[i as int] == t[0]);
            assert(s[i as int] != QU && s[i as int] != BS && s[i as int] >= 0x20);
            assert(s.subrange((i + 1) as int, (i + 1 + rest.len()) as int) == rest);
            lemma_roundtrip_string(s, (i + 1) as nat, t.drop_first());
            assert(seq![s[i as int]] + t.drop_first() =~= t);
            assert(parse_string(s, i) == Some(
                (
                    seq![s[i as int]] + t.drop_first(),
                    (i + spec_escape(t).len() + 1) as nat,
                ),
            ));
        }
    }
}

/// Reading back a printed value yields that value and stops right
/// after it.  The byte that follows, if any, must not be a digit, so
/// a printed number is not extended.
pub proof fn lemma_roundtrip_value(s: Seq<u8>, i: nat, j: JsonV)
    requires
        i + spec_print(j).len() <= s.len(),
        s.subrange(i as int, (i + spec_print(j).len()) as int) == spec_print(j),
        i + spec_print(j).len() == s.len() || !is_digit(s[(i + spec_print(j).len()) as int]),
    ensures
        parse_value(s, i) == Some((j, (i + spec_print(j).len()) as nat)),
    decreases j, 0nat,
{
    let p = spec_print(j);
    match j {
        JsonV::Null => {
            assert(s.subrange(i as int, (i + 4) as int)[0] == s[i as int]);
            assert(s.subrange(i as int, (i + 4) as int)[1] == s[(i + 1) as int]);
            assert(s.subrange(i as int, (i + 4) as int)[2] == s[(i + 2) as int]);
            assert(s.subrange(i as int, (i + 4) as int)[3] == s[(i + 3) as int]);
            assert(s[i as int] == 'n' as u8);
            assert(s[(i + 1) as int] == 'u' as u8);
            assert(s[(i + 2) as int] == 'l' as u8);
            assert(s[(i + 3) as int] == 'l' as u8);
        },
        JsonV::Int(n) => {
            lemma_digits_props(n);
            assert(p == spec_digits(n));
            assert(s.subrange(i as int, (i + p.len()) as int)[0] == s[i as int]);
            assert(s[i as int] == spec_digits(n)[0]);
            assert forall|k: int| i <= k < i + p.len() implies is_digit(#[trigger] s[k]) by {
                assert(s.subrange(i as int, (i + p.len()) as int)[k - i] == s[k]);
                assert(p[k - i] == s[k]);
            }
            if n == 0 {
                assert(s[i as int] == 0x30);
                lemma_digits_val_of(s, i, n);
            } else {
                assert(s[i as int] != 0x30);
                lemma_digits_end_run(s, i, (i + p.len()) as nat);
                lemma_digits_val_of(s, i, n);
            }
        },
        JsonV::Str(t) => {
            let et = spec_escape(t);
            assert(p == seq![QU] + et + seq![QU]);
            lemma_concat_split(s, i as int, seq![QU] + et, seq![QU]);
            lemma_concat_split(s, i as int, seq![QU], et);
            assert(s.subrange(i as int, (i + 1) as int)[0] == s[i as int]);
            assert(s[i as int] == QU);
            assert(s.subrange((i + 1 + et.len()) as int, (i + 2 + et.len()) as int)[0] == s[(i
                + 1 + et.len()) as int]);
            assert(s[(i + 1 + et.len()) as int] == QU);
            lemma_roundtrip_string(s, (i + 1) as nat, t);
        },
        JsonV::Arr(elems) => {
            let pe = spec_print_elems(elems);
            assert(p == seq![LB] + pe + seq![RB]);
            lemma_concat_split(s, i as int, seq![LB] + pe, seq![RB]);
            lemma_concat_split(s, i as int, seq![LB], pe);
            assert(s.subrange(i as int, (i + 1) as int)[0] == s[i as int]);
            assert(s[i as int] == LB);
            assert(s.subrange((i + 1 + pe.len()) as int, (i + 2 + pe.len()) as int)[0] == s[(i
                + 1 + pe.len()) as int]);
            assert(s[(i + 1 + pe.len()) as int] == RB);
            lemma_roundtrip_arr_first(s, (i + 1) as nat, elems);
        },
        JsonV::Obj(members) => {
            let pm = spec_print_members(members);
            assert(p == seq![LC] + pm + seq![RC]);
            lemma_concat_split(s, i as int, seq![LC] + pm, seq![RC]);
            lemma_concat_split(s, i as int, seq![LC], pm);
            assert(s.subrange(i as int, (i + 1) as int)[0] == s[i as int]);
            assert(s[i as int] == LC);
            assert(s.subrange((i + 1 + pm.len()) as int, (i + 2 + pm.len()) as int)[0] == s[(i
                + 1 + pm.len()) as int]);
            assert(s[(i + 1 + pm.len()) as int] == RC);
            lemma_roundtrip_obj_first(s, (i + 1) as nat, members);
        },
    }
}

/// A printed value is never empty and never starts with whitespace,
/// a comma or a closing bracket.
proof fn lemma_print_first(j: JsonV)
    ensures
        spec_print(j).len() >= 1,
        !is_ws(spec_print(j)[0]),
        spec_print(j)[0] != CM,
        spec_print(j)[0] != RB,
        spec_print(j)[0] != RC,
        spec_print(j)[0] != CL,
{
    match j {
        JsonV::Int(n) => {
            lemma_digits_props(n);
        },
        _ => {},
    }
}

proof fn lemma_roundtrip_arr_first(s: Seq<u8>, i: nat, elems: Seq<JsonV>)
    requires
        i + spec_print_elems(elems).len() + 1 <= s.len(),
        s.subrange(i as int, (i + spec_print_elems(elems).len()) as int) == spec_print_elems(elems),
        s[(i + spec_print_elems(elems).len()) as int] == RB,
    ensures
        parse_arr_first(s, i) == Some((elems, (i + spec_print_elems(elems).len() + 1) as nat)),
    decreases elems, 1nat,
{
    if elems.len() == 0 {
        assert(s[i as int] == RB);
    } else {
        let p0 = spec_print(elems[0]);
        let pr = spec_print_elems_rest(elems.drop_first());
        assert(spec_print_elems(elems) == p0 + pr);
        lemma_concat_split(s, i as int, p0, pr);
        lemma_print_first(elems[0]);
        assert(s.subrange(i as int, (i + p0.len()) as int)[0] == s[i as int]);
        assert(s[i as int] == p0[0]);
        // The byte after the first element is a comma or the closing
        // bracket, never a digit.
        let j0: int = i + p0.len() as int;
        if elems.len() == 1 {
            assert(pr.len() == 0);
            assert(s[j0 as int] == RB);
        } else {
            assert(pr[0] == CM);
            assert(s[j0 as int] == CM);
        }
        lemma_roundtrip_value(s, i, elems[0]);
        assert(after(i, j0 as nat) == j0);
        lemma_roundtrip_arr_rest(s, j0 as nat, elems.drop_first());
        assert(seq![elems[0]] + elems.drop_first() =~= elems);
    }
}

proof fn lemma_roundtrip_arr_rest(s: Seq<u8>, i: nat, elems: Seq<JsonV>)
    requires
        i + spec_print_elems_rest(elems).len() + 1 <= s.len(),
        s.subrange(i as int, (i + spec_print_elems_rest(elems).len()) as int) == spec_print_elems_rest(
            elems,
        ),
        s[(i + spec_print_elems_rest(elems).len()) as int] == RB,
    ensures
        parse_arr_rest(s, i) == Some(
            (elems, (i + spec_print_elems_rest(elems).len() + 1) as nat),
        ),
    decreases elems, 1nat,
{
    if elems.len() == 0 {
        assert(s[i as int] == RB);
    } else {
        let p0 = spec_print(elems[0]);
        let pr = spec_print_elems_rest(elems.drop_first());
        assert(spec_print_elems_rest(elems) == seq![CM] + p0 + pr);
        assert(seq![CM] + p0 + pr =~= seq![CM] + (p0 + pr));
        lemma_concat_split(s, i as int, seq![CM], p0 + pr);
        lemma_concat_split(s, (i + 1) as int, p0, pr);
        assert(s.subrange(i as int, (i + 1) as int)[0] == s[i as int]);
        assert(s[i as int] == CM);
        lemma_print_first(elems[0]);
        let j0: int = i + 1 + p0.len() as int;
        if elems.len() == 1 {
            assert(pr.len() == 0);
            assert(s[j0 as int] == RB);
        } else {
            assert(pr[0] == CM);
            assert(s[j0 as int] == CM);
        }
        lemma_roundtrip_value(s, (i + 1) as nat, elems[0]);
        assert(after((i + 1) as nat, j0 as nat) == j0);
        lemma_roundtrip_arr_rest(s, j0 as nat, elems.drop_first());
        assert(seq![elems[0]] + elems.drop_first() =~= elems);
    }
}

proof fn lemma_roundtrip_member(s: Seq<u8>, i: nat, m: (Seq<u8>, JsonV))
    requires
        i + spec_print_member(m).len() <= s.len(),
        s.subrange(i as int, (i + spec_print_member(m).len()) as int) == spec_print_member(m),
        i + spec_print_member(m).len() == s.len() || !is_digit(
            s[(i + spec_print_member(m).len()) as int],
        ),
    ensures
        parse_obj_member(s, i) == Some((m, (i + spec_print_member(m).len()) as nat)),
    decreases m, 2nat,
{
    let esc = spec_escape(m.0);
    let head = seq![QU] + esc + seq![QU, CL];
    let pv = spec_print(m.1);
    assert(spec_print_member(m) =~= head + pv);
    lemma_concat_split(s, i as int, head, pv);
    assert(head =~= (seq![QU] + esc) + seq![QU, CL]);
    lemma_concat_split(s, i as int, seq![QU] + esc, seq![QU, CL]);
    lemma_concat_split(s, i as int, seq![QU], esc);
    assert(s.subrange(i as int, (i + 1) as int)[0] == s[i as int]);
    assert(s[i as int] == QU);
    let je: int = i + 1 + esc.len() as int;
    assert(s.subrange(je, je + 2)[0] == s[je as int]);
    assert(s.subrange(je, je + 2)[1] == s[(je + 1) as int]);
    assert(s[je as int] == QU);
    assert(s[(je + 1) as int] == CL);
    lemma_roundtrip_string(s, (i + 1) as nat, m.0);
    assert(parse_colon(s, (je + 1) as nat) == Some((je + 2) as nat));
    assert(after(i, (je + 2) as nat) == je + 2);
    lemma_roundtrip_value(s, (je + 2) as nat, m.1);
}

proof fn lemma_roundtrip_obj_first(s: Seq<u8>, i: nat, members: Seq<(Seq<u8>, JsonV)>)
    requires
        i + spec_print_members(members).len() + 1 <= s.len(),
        s.subrange(i as int, (i + spec_print_members(members).len()) as int) == spec_print_members(
            members,
        ),
        s[(i + spec_print_members(members).len()) as int] == RC,
    ensures
        parse_obj_first(s, i) == Some(
            (members, (i + spec_print_members(members).len() + 1) as nat),
        ),
    decreases members, 3nat,
{
    if members.len() == 0 {
        assert(s[i as int] == RC);
    } else {
        let p0 = spec_print_member(members[0]);
        let pr = spec_print_members_rest(members.drop_first());
        assert(spec_print_members(members) == p0 + pr);
        lemma_concat_split(s, i as int, p0, pr);
        assert(s.subrange(i as int, (i + p0.len()) as int)[0] == s[i as int]);
        assert(p0[0] == QU);
        assert(s[i as int] == QU);
        let j0: int = i + p0.len() as int;
        if members.len() == 1 {
            assert(pr.len() == 0);
            assert(s[j0 as int] == RC);
        } else {
            assert(pr[0] == CM);
            assert(s[j0 as int] == CM);
        }
        lemma_roundtrip_member(s, i, members[0]);
        assert(after(i, j0 as nat) == j0);
        lemma_roundtrip_obj_rest(s, j0 as nat, members.drop_first());
        assert(seq![members[0]] + members.drop_first() =~= members);
    }
}

proof fn lemma_roundtrip_obj_rest(s: Seq<u8>, i: nat, members: Seq<(Seq<u8>, JsonV)>)
    requires
        i + spec_print_members_rest(members).len() + 1 <= s.len(),
        s.subrange(i as int, (i + spec_print_members_rest(members).len()) as int)
            == spec_print_members_rest(members),
        s[(i + spec_print_members_rest(members).len()) as int] == RC,
    ensures
        parse_obj_rest(s, i) == Some(
            (members, (i + spec_print_members_rest(members).len() + 1) as nat),
        ),
    decreases members, 3nat,
{
    if members.len() == 0 {
        assert(s[i as int] == RC);
    } else {
        let p0 = spec_print_member(members[0]);
        let pr = spec_print_members_rest(members.drop_first());
        assert(spec_print_members_rest(members) == seq![CM] + p0 + pr);
        assert(seq![CM] + p0 + pr =~= seq![CM] + (p0 + pr));
        lemma_concat_split(s, i as int, seq![CM], p0 + pr);
        lemma_concat_split(s, (i + 1) as int, p0, pr);
        assert(s.subrange(i as int, (i + 1) as int)[0] == s[i as int]);
        assert(s[i as int] == CM);
        let j0: int = i + 1 + p0.len() as int;
        if members.len() == 1 {
            assert(pr.len() == 0);
            assert(s[j0 as int] == RC);
        } else {
            assert(pr[0] == CM);
            assert(s[j0 as int] == CM);
        }
        lemma_roundtrip_member(s, (i + 1) as nat, members[0]);
        assert(after((i + 1) as nat, j0 as nat) == j0);
        lemma_roundtrip_obj_rest(s, j0 as nat, members.drop_first());
        assert(seq![members[0]] + members.drop_first() =~= members);
    }
}

/// Round trip: reading a printed value back yields the same value.
pub proof fn lemma_roundtrip(j: JsonV)
    ensures
        spec_parse_text(spec_print(j)) == Some(j),
{
    let s = spec_print(j);
    assert(s.subrange(0, s.len() as int) =~= s);
    lemma_roundtrip_value(s, 0, j);
}

} // verus!
