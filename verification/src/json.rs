//! JSON values and their wire form.
//!
//! The protocol's packets use a subset of JSON: null, booleans, integers,
//! strings, arrays and objects. The serializer emits the canonical compact
//! form, escaping quotes, backslashes and control bytes. The parser
//! tolerates whitespace between tokens and reads any string back,
//! unescaped, including `\uXXXX` escapes of code points below the
//! surrogate range; a serialized value parses to exactly the value it came
//! from. Fractional and exponent numbers and surrogate-pair escapes are
//! outside the subset: a packet carrying one is rejected, never misread.

use vstd::prelude::*;

verus! {

broadcast use
    vstd::std_specs::vec::axiom_vec_index_decreases,
    vstd::std_specs::vec::axiom_vec_decreases_to_view,
    vstd::seq::axiom_seq_index_decreases,
    vstd::seq::axiom_seq_subrange_decreases;

/// A JSON value as mathematics: the model every contract speaks of.
#[verifier::ext_equal]
pub enum JsonView {
    Null,
    Bool(bool),
    UInt(u64),
    /// A negative integer, stored as its magnitude: the number `-(mag)`.
    NegInt(u64),
    Str(Seq<u8>),
    Arr(Seq<JsonView>),
    Obj(Seq<(Seq<u8>, JsonView)>),
}

/// Decimal digits of `n`, most significant first.
pub open spec fn dec_digits(n: u64) -> Seq<u8>
    decreases n,
{
    if n < 10 {
        seq![(0x30 + n) as u8]
    } else {
        dec_digits(n / 10).push((0x30 + n % 10) as u8)
    }
}

/// The lowercase ASCII digit of a hex value.
pub open spec fn hex_digit(v: int) -> u8 {
    if v < 10 {
        (0x30 + v) as u8
    } else {
        (0x61 + (v - 10)) as u8
    }
}

/// The value an ASCII hex digit denotes, either case.
pub open spec fn hex_val(c: u8) -> Option<int> {
    if 0x30 <= c <= 0x39 {
        Some((c - 0x30) as int)
    } else if 0x61 <= c <= 0x66 {
        Some((c - 0x61 + 10) as int)
    } else if 0x41 <= c <= 0x46 {
        Some((c - 0x41 + 10) as int)
    } else {
        None
    }
}

/// How one byte is written inside a serialized string: itself when it may
/// stand verbatim, a two-byte escape for the quote and the backslash, a
/// `\u00XX` escape for control bytes.
pub open spec fn escape_byte(b: u8) -> Seq<u8> {
    if b == 0x22 {
        seq![0x5cu8, 0x22u8]
    } else if b == 0x5c {
        seq![0x5cu8, 0x5cu8]
    } else if b < 0x20 {
        seq![0x5cu8, 0x75u8, 0x30u8, 0x30u8, hex_digit(b as int / 16), hex_digit(b as int % 16)]
    } else {
        seq![b]
    }
}

/// A string's serialized body: each byte escaped as needed.
pub open spec fn escape_str(s: Seq<u8>) -> Seq<u8>
    decreases s.len(),
{
    if s.len() == 0 {
        Seq::empty()
    } else {
        escape_byte(s[0]) + escape_str(s.drop_first())
    }
}

/// The canonical serialization of a JSON value: no whitespace, strings
/// escaped as above.
pub open spec fn ser(v: JsonView) -> Seq<u8>
    decreases v,
{
    match v {
        JsonView::Null => seq![0x6eu8, 0x75u8, 0x6cu8, 0x6cu8],
        JsonView::Bool(b) => if b {
            seq![0x74u8, 0x72u8, 0x75u8, 0x65u8]
        } else {
            seq![0x66u8, 0x61u8, 0x6cu8, 0x73u8, 0x65u8]
        },
        JsonView::UInt(n) => dec_digits(n),
        JsonView::NegInt(m) => seq![0x2du8] + dec_digits(m),
        JsonView::Str(s) => seq![0x22u8] + escape_str(s) + seq![0x22u8],
        JsonView::Arr(items) => seq![0x5bu8] + ser_items(items) + seq![0x5du8],
        JsonView::Obj(fields) => seq![0x7bu8] + ser_fields(fields) + seq![0x7du8],
    }
}

/// Comma-separated serializations of array elements.
pub open spec fn ser_items(items: Seq<JsonView>) -> Seq<u8>
    decreases items,
{
    if items.len() == 0 {
        Seq::empty()
    } else if items.len() == 1 {
        ser(items[0])
    } else {
        ser(items[0]) + seq![0x2cu8] + ser_items(items.drop_first())
    }
}

/// Comma-separated serializations of object members.
pub open spec fn ser_fields(fields: Seq<(Seq<u8>, JsonView)>) -> Seq<u8>
    decreases fields,
{
    if fields.len() == 0 {
        Seq::empty()
    } else {
        let head = seq![0x22u8] + escape_str(fields[0].0) + seq![0x22u8, 0x3au8]
            + ser(fields[0].1);
        if fields.len() == 1 {
            head
        } else {
            head + seq![0x2cu8] + ser_fields(fields.drop_first())
        }
    }
}

/// An ASCII decimal digit.
pub open spec fn is_digit(b: u8) -> bool {
    0x30 <= b <= 0x39
}

/// The number a digit string denotes.
pub open spec fn dec_value(ds: Seq<u8>) -> nat
    decreases ds.len(),
{
    if ds.len() == 0 {
        0
    } else {
        (dec_value(ds.drop_last()) * 10 + (ds.last() - 0x30)) as nat
    }
}

/// The byte a single-character escape denotes, if the character is one.
pub open spec fn simple_unescape(c: u8) -> Option<u8> {
    if c == 0x22 {
        Some(0x22u8)
    } else if c == 0x5c {
        Some(0x5cu8)
    } else if c == 0x2f {
        Some(0x2fu8)
    } else if c == 0x62 {
        Some(0x08u8)
    } else if c == 0x66 {
        Some(0x0cu8)
    } else if c == 0x6e {
        Some(0x0au8)
    } else if c == 0x72 {
        Some(0x0du8)
    } else if c == 0x74 {
        Some(0x09u8)
    } else {
        None
    }
}

/// The code point of four hex digits, most significant first.
pub open spec fn hex4_val(s: Seq<u8>) -> Option<int>
    recommends
        s.len() >= 4,
{
    match (hex_val(s[0]), hex_val(s[1]), hex_val(s[2]), hex_val(s[3])) {
        (Some(a), Some(b), Some(c), Some(d)) => Some(a * 4096 + b * 256 + c * 16 + d),
        _ => None,
    }
}

/// The UTF-8 bytes of a code point below `0x10000` and outside the
/// surrogate range.
pub open spec fn utf8_bytes(cp: int) -> Seq<u8>
    recommends
        0 <= cp < 0x10000,
{
    if cp < 0x80 {
        seq![cp as u8]
    } else if cp < 0x800 {
        seq![(0xc0 + cp / 64) as u8, (0x80 + cp % 64) as u8]
    } else {
        seq![(0xe0 + cp / 4096) as u8, (0x80 + (cp / 64) % 64) as u8, (0x80 + cp % 64) as u8]
    }
}

/// Scan a string body up to its closing quote, undoing escapes; yields the
/// content bytes and what follows the quote. A lone backslash, an unknown
/// escape or a surrogate code point fails the scan.
pub open spec fn scan_string(s: Seq<u8>) -> Option<(Seq<u8>, Seq<u8>)>
    decreases s.len(),
{
    if s.len() == 0 {
        None
    } else if s[0] == 0x22 {
        Some((Seq::empty(), s.drop_first()))
    } else if s[0] == 0x5c {
        if s.len() >= 2 && simple_unescape(s[1]) is Some {
            match scan_string(s.skip(2)) {
                Some(p) => Some((seq![simple_unescape(s[1])->0] + p.0, p.1)),
                None => None,
            }
        } else if s.len() >= 6 && s[1] == 0x75 {
            match hex4_val(s.skip(2)) {
                Some(cp) => if 0xd800 <= cp < 0xe000 {
                    None
                } else {
                    match scan_string(s.skip(6)) {
                        Some(p) => Some((utf8_bytes(cp) + p.0, p.1)),
                        None => None,
                    }
                },
                None => None,
            }
        } else {
            None
        }
    } else {
        match scan_string(s.drop_first()) {
            Some(p) => Some((seq![s[0]] + p.0, p.1)),
            None => None,
        }
    }
}

/// Take the longest digit prefix.
pub open spec fn scan_digits(s: Seq<u8>) -> (Seq<u8>, Seq<u8>)
    decreases s.len(),
{
    if s.len() > 0 && is_digit(s[0]) {
        let p = scan_digits(s.drop_first());
        (seq![s[0]] + p.0, p.1)
    } else {
        (Seq::empty(), s)
    }
}

/// A JSON whitespace byte.
pub open spec fn is_ws(b: u8) -> bool {
    b == 0x20 || b == 0x09 || b == 0x0a || b == 0x0d
}

/// The suffix after leading whitespace.
pub open spec fn skip_ws(s: Seq<u8>) -> Seq<u8>
    decreases s.len(),
{
    if s.len() > 0 && is_ws(s[0]) {
        skip_ws(s.drop_first())
    } else {
        s
    }
}

/// The parser, as mathematics: reads one value off the front of `s`,
/// tolerating whitespace between tokens, and yields it with the unread
/// suffix. `fuel` bounds the recursion and is decremented on every
/// descent; any fuel of at least `weight` of the value read suffices.
pub open spec fn spec_parse(s0: Seq<u8>, fuel: nat) -> Option<(JsonView, Seq<u8>)>
    decreases fuel,
{
    let s = skip_ws(s0);
    if fuel == 0 || s.len() == 0 {
        None
    } else {
        let b = s[0];
        if b == 0x6e {
            if s.len() >= 4 && s[1] == 0x75 && s[2] == 0x6c && s[3] == 0x6c {
                Some((JsonView::Null, s.skip(4)))
            } else {
                None
            }
        } else if b == 0x74 {
            if s.len() >= 4 && s[1] == 0x72 && s[2] == 0x75 && s[3] == 0x65 {
                Some((JsonView::Bool(true), s.skip(4)))
            } else {
                None
            }
        } else if b == 0x66 {
            if s.len() >= 5 && s[1] == 0x61 && s[2] == 0x6c && s[3] == 0x73 && s[4] == 0x65 {
                Some((JsonView::Bool(false), s.skip(5)))
            } else {
                None
            }
        } else if b == 0x22 {
            match scan_string(s.drop_first()) {
                Some(p) => Some((JsonView::Str(p.0), p.1)),
                None => None,
            }
        } else if is_digit(b) {
            let p = scan_digits(s);
            if dec_value(p.0) <= u64::MAX {
                Some((JsonView::UInt(dec_value(p.0) as u64), p.1))
            } else {
                None
            }
        } else if b == 0x2d {
            let p = scan_digits(s.drop_first());
            if p.0.len() == 0 {
                None
            } else if dec_value(p.0) <= u64::MAX {
                Some((JsonView::NegInt(dec_value(p.0) as u64), p.1))
            } else {
                None
            }
        } else if b == 0x5b {
            let inner = skip_ws(s.drop_first());
            if inner.len() >= 1 && inner[0] == 0x5d {
                Some((JsonView::Arr(Seq::empty()), inner.drop_first()))
            } else {
                match spec_parse_items(s.drop_first(), (fuel - 1) as nat) {
                    Some(p) => Some((JsonView::Arr(p.0), p.1)),
                    None => None,
                }
            }
        } else if b == 0x7b {
            let inner = skip_ws(s.drop_first());
            if inner.len() >= 1 && inner[0] == 0x7d {
                Some((JsonView::Obj(Seq::empty()), inner.drop_first()))
            } else {
                match spec_parse_fields(s.drop_first(), (fuel - 1) as nat) {
                    Some(p) => Some((JsonView::Obj(p.0), p.1)),
                    None => None,
                }
            }
        } else {
            None
        }
    }
}

/// Parse `elem (',' elem)* ']'`.
pub open spec fn spec_parse_items(s: Seq<u8>, fuel: nat) -> Option<(Seq<JsonView>, Seq<u8>)>
    decreases fuel,
{
    if fuel == 0 {
        None
    } else {
        match spec_parse(s, (fuel - 1) as nat) {
            Some((v, r0)) => {
                let r = skip_ws(r0);
                if r.len() == 0 {
                    None
                } else if r[0] == 0x2c {
                    match spec_parse_items(r.drop_first(), (fuel - 1) as nat) {
                        Some((vs, r2)) => Some((seq![v] + vs, r2)),
                        None => None,
                    }
                } else if r[0] == 0x5d {
                    Some((seq![v], r.drop_first()))
                } else {
                    None
                }
            },
            None => None,
        }
    }
}

/// Parse `'"' key '"' ':' value (',' ...)* '}'`.
pub open spec fn spec_parse_fields(s0: Seq<u8>, fuel: nat)
    -> Option<(Seq<(Seq<u8>, JsonView)>, Seq<u8>)>
    decreases fuel,
{
    let s = skip_ws(s0);
    if fuel == 0 {
        None
    } else if s.len() == 0 || s[0] != 0x22 {
        None
    } else {
        match scan_string(s.drop_first()) {
            Some((key, r1a)) => {
                let r1 = skip_ws(r1a);
                if r1.len() == 0 || r1[0] != 0x3a {
                    None
                } else {
                    match spec_parse(r1.drop_first(), (fuel - 1) as nat) {
                        Some((v, r2a)) => {
                            let r2 = skip_ws(r2a);
                            if r2.len() == 0 {
                                None
                            } else if r2[0] == 0x2c {
                                match spec_parse_fields(r2.drop_first(), (fuel - 1) as nat) {
                                    Some((fs, r3)) => Some((seq![(key, v)] + fs, r3)),
                                    None => None,
                                }
                            } else if r2[0] == 0x7d {
                                Some((seq![(key, v)], r2.drop_first()))
                            } else {
                                None
                            }
                        },
                        None => None,
                    }
                }
            },
            None => None,
        }
    }
}

/// Fuel needed to parse a value back: one unit per node of the tree.
pub open spec fn weight(v: JsonView) -> nat
    decreases v,
{
    match v {
        JsonView::Null => 1,
        JsonView::Bool(_) => 1,
        JsonView::UInt(_) => 1,
        JsonView::NegInt(_) => 1,
        JsonView::Str(_) => 1,
        JsonView::Arr(items) => 1 + weight_items(items),
        JsonView::Obj(fields) => 1 + weight_fields(fields),
    }
}

pub open spec fn weight_items(items: Seq<JsonView>) -> nat
    decreases items,
{
    if items.len() == 0 {
        0
    } else {
        1 + weight(items[0]) + weight_items(items.drop_first())
    }
}

pub open spec fn weight_fields(fields: Seq<(Seq<u8>, JsonView)>) -> nat
    decreases fields,
{
    if fields.len() == 0 {
        0
    } else {
        1 + weight(fields[0].1) + weight_fields(fields.drop_first())
    }
}

/// The digits of `n` are digits, there is at least one, and they denote `n`.
pub proof fn lemma_dec_digits_props(n: u64)
    ensures
        dec_digits(n).len() >= 1,
        forall|i: int| 0 <= i < dec_digits(n).len() ==> is_digit(#[trigger] dec_digits(n)[i]),
        dec_value(dec_digits(n)) == n,
    decreases n,
{
    if n < 10 {
        assert(dec_digits(n) =~= seq![(0x30 + n) as u8]);
        let ds = dec_digits(n);
        assert(ds.drop_last() =~= Seq::<u8>::empty());
        assert(dec_value(Seq::<u8>::empty()) == 0);
        assert(dec_value(ds) == 0 * 10 + (ds.last() - 0x30));
        assert(dec_value(dec_digits(n)) == n);
    } else {
        lemma_dec_digits_props(n / 10);
        let ds = dec_digits(n);
        assert(ds == dec_digits(n / 10).push((0x30 + n % 10) as u8));
        assert(ds.drop_last() =~= dec_digits(n / 10));
        assert(dec_value(ds) == dec_value(dec_digits(n / 10)) * 10 + n % 10);
        assert((n / 10) * 10 + n % 10 == n);
        assert forall|i: int| 0 <= i < ds.len() implies is_digit(#[trigger] ds[i]) by {
            if i < ds.len() - 1 {
                assert(ds[i] == dec_digits(n / 10)[i]);
            }
        }
    }
}

/// Decoding a hex digit yields the value it was made from.
proof fn lemma_hex_digit_val(v: int)
    requires
        0 <= v < 16,
    ensures
        hex_val(hex_digit(v)) == Some(v),
{
}

/// Scanning an escaped string body followed by a quote yields exactly the
/// original bytes and stops at the quote.
proof fn lemma_scan_escaped(content: Seq<u8>, rest: Seq<u8>)
    ensures
        scan_string(escape_str(content) + seq![0x22u8] + rest) == Some((content, rest)),
    decreases content.len(),
{
    let s = escape_str(content) + seq![0x22u8] + rest;
    if content.len() == 0 {
        assert(escape_str(content) =~= Seq::<u8>::empty());
        assert(s[0] == 0x22);
        assert(s.drop_first() =~= rest);
        assert(content =~= Seq::<u8>::empty());
    } else {
        let b = content[0];
        let eb = escape_byte(b);
        lemma_scan_escaped(content.drop_first(), rest);
        let tail_s = escape_str(content.drop_first()) + seq![0x22u8] + rest;
        assert(s =~= eb + tail_s);
        if b == 0x22 || b == 0x5c {
            assert(s[0] == 0x5c);
            assert(s[1] == b);
            assert(simple_unescape(s[1]) == Some(b));
            assert(s.skip(2) =~= tail_s);
            assert(seq![b] + content.drop_first() =~= content);
        } else if b < 0x20 {
            assert(s[0] == 0x5c);
            assert(s[1] == 0x75);
            assert(simple_unescape(0x75u8) is None);
            assert(s.len() >= 7);
            assert(s[2] == 0x30 && s[3] == 0x30);
            assert(s[4] == hex_digit(b as int / 16));
            assert(s[5] == hex_digit(b as int % 16));
            lemma_hex_digit_val(b as int / 16);
            lemma_hex_digit_val(b as int % 16);
            let h = s.skip(2);
            assert(h[0] == 0x30 && h[1] == 0x30);
            assert(h[2] == hex_digit(b as int / 16));
            assert(h[3] == hex_digit(b as int % 16));
            assert(hex_val(0x30u8) == Some(0int));
            assert(hex4_val(h) == Some((b as int / 16) * 16 + b as int % 16));
            assert((b as int / 16) * 16 + b as int % 16 == b as int);
            assert(utf8_bytes(b as int) =~= seq![b]);
            assert(s.skip(6) =~= tail_s);
            assert(seq![b] + content.drop_first() =~= content);
        } else {
            assert(eb =~= seq![b]);
            assert(s[0] == b);
            assert(s[0] != 0x22 && s[0] != 0x5c);
            assert(s.drop_first() =~= tail_s);
            assert(seq![b] + content.drop_first() =~= content);
        }
    }
}

/// Scanning digits followed by a non-digit stops exactly there.
proof fn lemma_scan_digits_concat(ds: Seq<u8>, rest: Seq<u8>)
    requires
        forall|i: int| 0 <= i < ds.len() ==> is_digit(#[trigger] ds[i]),
        rest.len() == 0 || !is_digit(rest[0]),
    ensures
        scan_digits(ds + rest) == (ds, rest),
    decreases ds.len(),
{
    let s = ds + rest;
    if ds.len() == 0 {
        assert(s =~= rest);
        assert(ds =~= Seq::<u8>::empty());
    } else {
        assert(s[0] == ds[0]);
        assert(is_digit(s[0]));
        assert(s.drop_first() =~= ds.drop_first() + rest);
        lemma_scan_digits_concat(ds.drop_first(), rest);
        assert(seq![ds[0]] + ds.drop_first() =~= ds);
    }
}

/// A serialization is nonempty and starts with a byte that announces its
/// shape; in particular never with a separator or closing bracket.
proof fn lemma_ser_head(v: JsonView)
    ensures
        ser(v).len() >= 1,
        ser(v)[0] == 0x6e || ser(v)[0] == 0x74 || ser(v)[0] == 0x66 || ser(v)[0] == 0x22
            || is_digit(ser(v)[0]) || ser(v)[0] == 0x2d || ser(v)[0] == 0x5b
            || ser(v)[0] == 0x7b,
        !is_ws(ser(v)[0]),
{
    match v {
        JsonView::UInt(n) => {
            lemma_dec_digits_props(n);
        },
        _ => {
        },
    }
}

/// Parsing a serialized value off any suffix yields the value back and
/// leaves the suffix, whenever the suffix does not begin with a digit
/// (which would extend a serialized number).
#[verifier::rlimit(100)]
pub proof fn lemma_parse_ser(v: JsonView, rest: Seq<u8>, fuel: nat)
    requires
        fuel >= weight(v),
        rest.len() == 0 || !is_digit(rest[0]),
    ensures
        spec_parse(ser(v) + rest, fuel) == Some((v, rest)),
    decreases fuel,
{
    let s = ser(v) + rest;
    lemma_ser_head(v);
    assert(s[0] == ser(v)[0]);
    assert(skip_ws(s) == s);
    match v {
        JsonView::Null => {
            assert(s[0] == 0x6e && s[1] == 0x75 && s[2] == 0x6c && s[3] == 0x6c);
            assert(s.skip(4) =~= rest);
        },
        JsonView::Bool(b) => {
            if b {
                assert(s[0] == 0x74 && s[1] == 0x72 && s[2] == 0x75 && s[3] == 0x65);
                assert(s.skip(4) =~= rest);
            } else {
                assert(s[0] == 0x66 && s[1] == 0x61 && s[2] == 0x6c && s[3] == 0x73
                    && s[4] == 0x65);
                assert(s.skip(5) =~= rest);
            }
        },
        JsonView::UInt(n) => {
            lemma_dec_digits_props(n);
            lemma_scan_digits_concat(dec_digits(n), rest);
            assert(is_digit(s[0]));
            assert(scan_digits(s) == (dec_digits(n), rest));
            assert(dec_value(dec_digits(n)) == n);
        },
        JsonView::NegInt(m) => {
            lemma_dec_digits_props(m);
            assert(s[0] == 0x2d);
            assert(s.drop_first() =~= dec_digits(m) + rest);
            lemma_scan_digits_concat(dec_digits(m), rest);
            assert(scan_digits(s.drop_first()) == (dec_digits(m), rest));
            assert(dec_value(dec_digits(m)) == m);
        },
        JsonView::Str(s0) => {
            assert(s[0] == 0x22);
            assert(s.drop_first() =~= escape_str(s0) + seq![0x22u8] + rest);
            lemma_scan_escaped(s0, rest);
        },
        JsonView::Arr(items) => {
            assert(s[0] == 0x5b);
            if items.len() == 0 {
                assert(ser_items(items) =~= Seq::<u8>::empty());
                assert(ser(v) =~= seq![0x5bu8, 0x5du8]);
                assert(s.drop_first() =~= seq![0x5du8] + rest);
                assert(s.drop_first()[0] == 0x5d);
                assert(skip_ws(s.drop_first()) == s.drop_first());
                assert(s.drop_first().drop_first() =~= rest);
                assert(items =~= Seq::<JsonView>::empty());
                assert(v =~= JsonView::Arr(Seq::<JsonView>::empty()));
            } else {
                lemma_ser_head(items[0]);
                assert(ser_items(items)[0] == ser(items[0])[0]);
                assert(s.drop_first() =~= ser_items(items) + seq![0x5du8] + rest);
                assert(s.drop_first()[0] == ser(items[0])[0]);
                assert(skip_ws(s.drop_first()) == s.drop_first());
                assert(skip_ws(s.drop_first())[0] != 0x5d);
                lemma_parse_ser_items(items, rest, (fuel - 1) as nat);
            }
        },
        JsonView::Obj(fields) => {
            assert(s[0] == 0x7b);
            if fields.len() == 0 {
                assert(ser_fields(fields) =~= Seq::<u8>::empty());
                assert(ser(v) =~= seq![0x7bu8, 0x7du8]);
                assert(s.drop_first() =~= seq![0x7du8] + rest);
                assert(s.drop_first()[0] == 0x7d);
                assert(skip_ws(s.drop_first()) == s.drop_first());
                assert(s.drop_first().drop_first() =~= rest);
                assert(fields =~= Seq::<(Seq<u8>, JsonView)>::empty());
                assert(v =~= JsonView::Obj(Seq::<(Seq<u8>, JsonView)>::empty()));
            } else {
                assert(ser_fields(fields)[0] == 0x22);
                assert(s.drop_first() =~= ser_fields(fields) + seq![0x7du8] + rest);
                assert(s.drop_first()[0] == 0x22);
                assert(skip_ws(s.drop_first()) == s.drop_first());
                assert(skip_ws(s.drop_first())[0] != 0x7d);
                lemma_parse_ser_fields(fields, rest, (fuel - 1) as nat);
            }
        },
    }
}

/// Parsing the serialized elements of a nonempty array, together with the
/// closing bracket, yields the elements back.
#[verifier::rlimit(100)]
proof fn lemma_parse_ser_items(items: Seq<JsonView>, rest: Seq<u8>, fuel: nat)
    requires
        items.len() >= 1,
        fuel >= weight_items(items),
    ensures
        spec_parse_items(ser_items(items) + seq![0x5du8] + rest, fuel) == Some((items, rest)),
    decreases fuel,
{
    let s = ser_items(items) + seq![0x5du8] + rest;
    let head = items[0];
    if items.len() == 1 {
        let follow = seq![0x5du8] + rest;
        assert(ser_items(items) == ser(head));
        assert(s =~= ser(head) + follow);
        lemma_parse_ser(head, follow, (fuel - 1) as nat);
        assert(spec_parse(s, (fuel - 1) as nat) == Some((head, follow)));
        assert(follow[0] == 0x5d);
        assert(skip_ws(follow) == follow);
        assert(follow.drop_first() =~= rest);
        assert(seq![head] =~= items);
    } else {
        let tail = items.drop_first();
        assert(ser_items(items) == ser(head) + seq![0x2cu8] + ser_items(tail));
        let follow = seq![0x2cu8] + ser_items(tail) + seq![0x5du8] + rest;
        assert(s =~= ser(head) + follow);
        lemma_parse_ser(head, follow, (fuel - 1) as nat);
        assert(spec_parse(s, (fuel - 1) as nat) == Some((head, follow)));
        assert(follow[0] == 0x2c);
        assert(skip_ws(follow) == follow);
        assert(follow.drop_first() =~= ser_items(tail) + seq![0x5du8] + rest);
        lemma_parse_ser_items(tail, rest, (fuel - 1) as nat);
        assert(seq![head] + tail =~= items);
    }
}

/// Parsing the serialized members of a nonempty object, together with the
/// closing brace, yields the members back.
#[verifier::rlimit(100)]
proof fn lemma_parse_ser_fields(fields: Seq<(Seq<u8>, JsonView)>, rest: Seq<u8>, fuel: nat)
    requires
        fields.len() >= 1,
        fuel >= weight_fields(fields),
    ensures
        spec_parse_fields(ser_fields(fields) + seq![0x7du8] + rest, fuel) == Some((fields, rest)),
    decreases fuel,
{
    let s = ser_fields(fields) + seq![0x7du8] + rest;
    assert(s[0] == ser_fields(fields)[0]);
    assert(s[0] == 0x22);
    assert(skip_ws(s) == s);
    let key = fields[0].0;
    let val = fields[0].1;
    let head = seq![0x22u8] + escape_str(key) + seq![0x22u8, 0x3au8] + ser(val);
    if fields.len() == 1 {
        let follow = seq![0x7du8] + rest;
        assert(ser_fields(fields) == head);
        assert(s =~= head + follow);
        assert(s[0] == 0x22);
        assert(s.drop_first() =~= escape_str(key) + seq![0x22u8]
            + (seq![0x3au8] + ser(val) + follow));
        lemma_scan_escaped(key, seq![0x3au8] + ser(val) + follow);
        let r1 = seq![0x3au8] + ser(val) + follow;
        assert(scan_string(s.drop_first()) == Some((key, r1)));
        assert(r1[0] == 0x3a);
        assert(skip_ws(r1) == r1);
        assert(r1.drop_first() =~= ser(val) + follow);
        assert(follow[0] == 0x7d);
        lemma_parse_ser(val, follow, (fuel - 1) as nat);
        assert(spec_parse(r1.drop_first(), (fuel - 1) as nat) == Some((val, follow)));
        assert(skip_ws(follow) == follow);
        assert(follow.drop_first() =~= rest);
        assert(seq![(key, val)] =~= fields);
    } else {
        let tail = fields.drop_first();
        assert(ser_fields(fields) == head + seq![0x2cu8] + ser_fields(tail));
        let follow = seq![0x2cu8] + ser_fields(tail) + seq![0x7du8] + rest;
        assert(s =~= head + follow);
        assert(s[0] == 0x22);
        assert(s.drop_first() =~= escape_str(key) + seq![0x22u8]
            + (seq![0x3au8] + ser(val) + follow));
        lemma_scan_escaped(key, seq![0x3au8] + ser(val) + follow);
        let r1 = seq![0x3au8] + ser(val) + follow;
        assert(scan_string(s.drop_first()) == Some((key, r1)));
        assert(r1[0] == 0x3a);
        assert(skip_ws(r1) == r1);
        assert(r1.drop_first() =~= ser(val) + follow);
        assert(follow[0] == 0x2c);
        lemma_parse_ser(val, follow, (fuel - 1) as nat);
        assert(spec_parse(r1.drop_first(), (fuel - 1) as nat) == Some((val, follow)));
        assert(skip_ws(follow) == follow);
        assert(follow.drop_first() =~= ser_fields(tail) + seq![0x7du8] + rest);
        lemma_parse_ser_fields(tail, rest, (fuel - 1) as nat);
        assert(seq![(key, val)] + tail =~= fields);
    }
}

/// The fuel a value needs is covered by the length of its serialization.
pub proof fn lemma_weight_le_ser_len(v: JsonView)
    ensures
        weight(v) <= ser(v).len(),
    decreases v,
{
    match v {
        JsonView::UInt(n) => {
            lemma_dec_digits_props(n);
        },
        JsonView::NegInt(m) => {
            lemma_dec_digits_props(m);
        },
        JsonView::Arr(items) => {
            lemma_weight_items_le(items);
        },
        JsonView::Obj(fields) => {
            lemma_weight_fields_le(fields);
        },
        _ => {
        },
    }
}

proof fn lemma_weight_items_le(items: Seq<JsonView>)
    ensures
        weight_items(items) <= ser_items(items).len() + 1,
    decreases items,
{
    if items.len() == 0 {
    } else {
        lemma_weight_le_ser_len(items[0]);
        if items.len() == 1 {
            assert(items.drop_first().len() == 0);
            assert(weight_items(items.drop_first()) == 0);
        } else {
            lemma_weight_items_le(items.drop_first());
        }
    }
}

proof fn lemma_weight_fields_le(fields: Seq<(Seq<u8>, JsonView)>)
    ensures
        weight_fields(fields) <= ser_fields(fields).len() + 1,
    decreases fields,
{
    if fields.len() == 0 {
    } else {
        lemma_weight_le_ser_len(fields[0].1);
        if fields.len() == 1 {
            assert(fields.drop_first().len() == 0);
            assert(weight_fields(fields.drop_first()) == 0);
        } else {
            lemma_weight_fields_le(fields.drop_first());
        }
    }
}

/// A JSON value as data: what the executable codec builds and consumes.
#[derive(Debug, PartialEq, Eq)]
pub enum Json {
    Null,
    Bool(bool),
    UInt(u64),
    /// A negative integer, stored as its magnitude: the number `-(mag)`.
    NegInt(u64),
    Str(Vec<u8>),
    Arr(Vec<Json>),
    Obj(Vec<(Vec<u8>, Json)>),
}

/// The views of a list of values.
pub open spec fn views_of(items: Seq<Json>) -> Seq<JsonView>
    decreases items,
{
    if items.len() == 0 {
        Seq::empty()
    } else {
        views_of(items.drop_last()).push(items.last()@)
    }
}

/// The views of a list of members.
pub open spec fn views_of_fields(fields: Seq<(Vec<u8>, Json)>) -> Seq<(Seq<u8>, JsonView)>
    decreases fields,
{
    if fields.len() == 0 {
        Seq::empty()
    } else {
        views_of_fields(fields.drop_last()).push((fields.last().0@, fields.last().1@))
    }
}

impl Json {
    pub open spec fn view(&self) -> JsonView
        decreases self,
    {
        match self {
            Json::Null => JsonView::Null,
            Json::Bool(b) => JsonView::Bool(*b),
            Json::UInt(n) => JsonView::UInt(*n),
            Json::NegInt(m) => JsonView::NegInt(*m),
            Json::Str(s) => JsonView::Str(s@),
            Json::Arr(items) => JsonView::Arr(views_of(items@)),
            Json::Obj(fields) => JsonView::Obj(views_of_fields(fields@)),
        }
    }
}

/// The view list is the element-wise view.
pub proof fn lemma_views_of(items: Seq<Json>)
    ensures
        views_of(items).len() == items.len(),
        forall|i: int| 0 <= i < items.len() ==> views_of(items)[i] == items[i]@,
    decreases items,
{
    if items.len() > 0 {
        lemma_views_of(items.drop_last());
    }
}

/// The member view list is the element-wise view.
pub proof fn lemma_views_of_fields(fields: Seq<(Vec<u8>, Json)>)
    ensures
        views_of_fields(fields).len() == fields.len(),
        forall|i: int|
            0 <= i < fields.len() ==> views_of_fields(fields)[i] == (fields[i].0@, fields[i].1@),
    decreases fields,
{
    if fields.len() > 0 {
        lemma_views_of_fields(fields.drop_last());
    }
}

/// Appending an element extends the serialized element list by a comma and
/// the element (no comma for the first element).
proof fn lemma_ser_items_push(a: Seq<JsonView>, x: JsonView)
    ensures
        ser_items(a.push(x)) == if a.len() == 0 {
            ser(x)
        } else {
            ser_items(a) + seq![0x2cu8] + ser(x)
        },
    decreases a.len(),
{
    let ax = a.push(x);
    if a.len() == 0 {
        assert(ax.len() == 1);
        assert(ax[0] == x);
    } else {
        assert(ax[0] == a[0]);
        assert(ax.drop_first() =~= a.drop_first().push(x));
        lemma_ser_items_push(a.drop_first(), x);
        if a.len() == 1 {
            assert(ser_items(ax) == ser(a[0]) + seq![0x2cu8] + ser_items(ax.drop_first()));
            assert(ser_items(ax.drop_first()) == ser(x));
            assert(ser_items(a) == ser(a[0]));
        } else {
            assert(ser_items(ax) == ser(ax[0]) + seq![0x2cu8] + ser_items(ax.drop_first()));
            assert(ser_items(a) == ser(a[0]) + seq![0x2cu8] + ser_items(a.drop_first()));
            assert(ser(a[0]) + seq![0x2cu8] + (ser_items(a.drop_first()) + seq![0x2cu8] + ser(x))
                =~= (ser(a[0]) + seq![0x2cu8] + ser_items(a.drop_first())) + seq![0x2cu8]
                    + ser(x));
        }
    }
}

/// Appending a member extends the serialized member list likewise.
proof fn lemma_ser_fields_push(a: Seq<(Seq<u8>, JsonView)>, k: Seq<u8>, x: JsonView)
    ensures
        ser_fields(a.push((k, x))) == if a.len() == 0 {
            seq![0x22u8] + escape_str(k) + seq![0x22u8, 0x3au8] + ser(x)
        } else {
            ser_fields(a) + seq![0x2cu8]
                + (seq![0x22u8] + escape_str(k) + seq![0x22u8, 0x3au8] + ser(x))
        },
    decreases a.len(),
{
    let ax = a.push((k, x));
    let entry = seq![0x22u8] + escape_str(k) + seq![0x22u8, 0x3au8] + ser(x);
    if a.len() == 0 {
        assert(ax.len() == 1);
        assert(ax[0] == (k, x));
    } else {
        assert(ax[0] == a[0]);
        assert(ax.drop_first() =~= a.drop_first().push((k, x)));
        lemma_ser_fields_push(a.drop_first(), k, x);
        let head = seq![0x22u8] + escape_str(a[0].0) + seq![0x22u8, 0x3au8] + ser(a[0].1);
        if a.len() == 1 {
            assert(ser_fields(ax) == head + seq![0x2cu8] + ser_fields(ax.drop_first()));
            assert(ser_fields(ax.drop_first()) == entry);
            assert(ser_fields(a) == head);
        } else {
            assert(ser_fields(ax) == head + seq![0x2cu8] + ser_fields(ax.drop_first()));
            assert(ser_fields(a) == head + seq![0x2cu8] + ser_fields(a.drop_first()));
            assert(head + seq![0x2cu8] + (ser_fields(a.drop_first()) + seq![0x2cu8] + entry)
                =~= (head + seq![0x2cu8] + ser_fields(a.drop_first())) + seq![0x2cu8] + entry);
        }
    }
}

/// An escaped string body never holds a literal newline: clean bytes are
/// at least `0x20`, and every escape consists of the backslash, letters
/// and hex digits.
pub proof fn lemma_escape_no_newline(s: Seq<u8>)
    ensures
        forall|i: int| 0 <= i < escape_str(s).len() ==> #[trigger] escape_str(s)[i] != 0x0a,
    decreases s.len(),
{
    if s.len() > 0 {
        lemma_escape_no_newline(s.drop_first());
        let eb = escape_byte(s[0]);
        let tail = escape_str(s.drop_first());
        assert forall|i: int| 0 <= i < escape_str(s).len()
            implies #[trigger] escape_str(s)[i] != 0x0a by {
            if i < eb.len() {
                assert(escape_str(s)[i] == eb[i]);
            } else {
                assert(escape_str(s)[i] == tail[i - eb.len()]);
            }
        }
    }
}

/// Escaping one more byte extends the escaped body by that byte's escape.
proof fn lemma_escape_push(t: Seq<u8>, b: u8)
    ensures
        escape_str(t.push(b)) == escape_str(t) + escape_byte(b),
    decreases t.len(),
{
    let tb = t.push(b);
    if t.len() == 0 {
        assert(tb[0] == b);
        assert(tb.drop_first() =~= Seq::<u8>::empty());
        assert(escape_str(Seq::<u8>::empty()) =~= Seq::<u8>::empty());
        assert(escape_str(tb) =~= escape_byte(b) + escape_str(Seq::<u8>::empty()));
        assert(escape_byte(b) + Seq::<u8>::empty() =~= escape_byte(b));
        assert(escape_str(t) =~= Seq::<u8>::empty());
        assert(escape_str(t) + escape_byte(b) =~= escape_byte(b));
    } else {
        assert(tb[0] == t[0]);
        assert(tb.drop_first() =~= t.drop_first().push(b));
        lemma_escape_push(t.drop_first(), b);
        assert(escape_byte(t[0]) + (escape_str(t.drop_first()) + escape_byte(b))
            =~= (escape_byte(t[0]) + escape_str(t.drop_first())) + escape_byte(b));
    }
}

/// The lowercase ASCII digit of a hex value.
fn hex_digit_exec(v: u8) -> (r: u8)
    requires
        v < 16,
    ensures
        r == hex_digit(v as int),
{
    if v < 10 {
        0x30 + v
    } else {
        0x61 + (v - 10)
    }
}

/// Append a string body, escaping each byte as the wire form requires.
fn write_escaped(s: &[u8], out: &mut Vec<u8>)
    ensures
        final(out)@ == old(out)@ + escape_str(s@),
{
    let n: usize = s.len();
    let mut i: usize = 0;
    proof {
        assert(s@.take(0) =~= Seq::<u8>::empty());
        assert(escape_str(s@.take(0)) =~= Seq::<u8>::empty());
        assert(out@ + escape_str(s@.take(0)) =~= out@);
    }
    while i < n
        invariant
            n == s@.len(),
            0 <= i <= n,
            out@ =~= old(out)@ + escape_str(s@.take(i as int)),
        decreases n - i,
    {
        let b = s[i];
        if b == 0x22 {
            out.push(0x5c);
            out.push(0x22);
        } else if b == 0x5c {
            out.push(0x5c);
            out.push(0x5c);
        } else if b < 0x20 {
            out.push(0x5c);
            out.push(0x75);
            out.push(0x30);
            out.push(0x30);
            out.push(hex_digit_exec(b / 16));
            out.push(hex_digit_exec(b % 16));
        } else {
            out.push(b);
        }
        proof {
            assert(s@.take(i as int).push(s@[i as int]) =~= s@.take(i + 1));
            lemma_escape_push(s@.take(i as int), s@[i as int]);
            assert(out@ =~= old(out)@ + escape_str(s@.take(i + 1)));
        }
        i = i + 1;
    }
    proof {
        assert(s@.take(n as int) =~= s@);
    }
}

/// Append the decimal digits of `n`.
fn write_dec(n: u64, out: &mut Vec<u8>)
    ensures
        final(out)@ == old(out)@ + dec_digits(n),
    decreases n,
{
    if n < 10 {
        out.push(0x30 + (n as u8));
        assert(final(out)@ =~= old(out)@ + dec_digits(n));
    } else {
        write_dec(n / 10, out);
        out.push(0x30 + ((n % 10) as u8));
        assert(final(out)@ =~= old(out)@ + dec_digits(n));
    }
}

/// An element weighs no more than its element list.
pub proof fn lemma_weight_item_le(vs: Seq<JsonView>, k: int)
    requires
        0 <= k < vs.len(),
    ensures
        weight(vs[k]) <= weight_items(vs),
    decreases vs.len(),
{
    if k > 0 {
        lemma_weight_item_le(vs.drop_first(), k - 1);
    }
}

/// A member's value weighs no more than its member list.
pub proof fn lemma_weight_field_le(fs: Seq<(Seq<u8>, JsonView)>, k: int)
    requires
        0 <= k < fs.len(),
    ensures
        weight(fs[k].1) <= weight_fields(fs),
    decreases fs.len(),
{
    if k > 0 {
        lemma_weight_field_le(fs.drop_first(), k - 1);
    }
}

/// Append the serialization of `v`.
pub fn write_json(v: &Json, out: &mut Vec<u8>)
    ensures
        final(out)@ == old(out)@ + ser(v@),
    decreases weight(v@),
{
    match v {
        Json::Null => {
            out.push(0x6e);
            out.push(0x75);
            out.push(0x6c);
            out.push(0x6c);
            assert(final(out)@ =~= old(out)@ + ser(v@));
        },
        Json::Bool(b) => {
            if *b {
                out.push(0x74);
                out.push(0x72);
                out.push(0x75);
                out.push(0x65);
            } else {
                out.push(0x66);
                out.push(0x61);
                out.push(0x6c);
                out.push(0x73);
                out.push(0x65);
            }
            assert(final(out)@ =~= old(out)@ + ser(v@));
        },
        Json::UInt(n) => {
            write_dec(*n, out);
        },
        Json::NegInt(m) => {
            out.push(0x2d);
            write_dec(*m, out);
            assert(final(out)@ =~= old(out)@ + ser(v@));
        },
        Json::Str(s) => {
            out.push(0x22);
            write_escaped(s.as_slice(), out);
            out.push(0x22);
            assert(final(out)@ =~= old(out)@ + ser(v@));
        },
        Json::Arr(items) => {
            out.push(0x5b);
            let n: usize = items.len();
            let mut i: usize = 0;
            let ghost vs = views_of(items@);
            proof {
                lemma_views_of(items@);
            }
            while i < n
                invariant
                    n == items@.len(),
                    0 <= i <= n,
                    vs == views_of(items@),
                    v@ == JsonView::Arr(vs),
                    vs.len() == n,
                    forall|k: int| 0 <= k < n ==> vs[k] == items@[k]@,
                    out@ =~= old(out)@ + seq![0x5bu8] + ser_items(vs.take(i as int)),
                decreases n - i,
            {
                if i > 0 {
                    out.push(0x2c);
                }
                proof {
                    lemma_weight_item_le(vs, i as int);
                    assert(v@ == JsonView::Arr(vs));
                    assert(weight(v@) == 1 + weight_items(vs));
                    assert(weight(items@[i as int]@) < weight(v@));
                }
                write_json(&items[i], out);
                proof {
                    assert(vs.take(i as int).push(vs[i as int]) =~= vs.take(i + 1));
                    lemma_ser_items_push(vs.take(i as int), vs[i as int]);
                }
                i = i + 1;
            }
            out.push(0x5d);
            proof {
                assert(vs.take(n as int) =~= vs);
                assert(final(out)@ =~= old(out)@ + ser(v@));
            }
        },
        Json::Obj(fields) => {
            out.push(0x7b);
            let n: usize = fields.len();
            let mut i: usize = 0;
            let ghost fs = views_of_fields(fields@);
            proof {
                lemma_views_of_fields(fields@);
            }
            while i < n
                invariant
                    n == fields@.len(),
                    0 <= i <= n,
                    fs == views_of_fields(fields@),
                    v@ == JsonView::Obj(fs),
                    fs.len() == n,
                    forall|k: int| 0 <= k < n ==> fs[k] == (fields@[k].0@, fields@[k].1@),
                    out@ =~= old(out)@ + seq![0x7bu8] + ser_fields(fs.take(i as int)),
                decreases n - i,
            {
                if i > 0 {
                    out.push(0x2c);
                }
                out.push(0x22);
                write_escaped(fields[i].0.as_slice(), out);
                out.push(0x22);
                out.push(0x3a);
                proof {
                    lemma_weight_field_le(fs, i as int);
                    assert(v@ == JsonView::Obj(fs));
                    assert(weight(v@) == 1 + weight_fields(fs));
                    assert(weight(fields@[i as int].1@) < weight(v@));
                }
                write_json(&fields[i].1, out);
                proof {
                    assert(fs.take(i as int).push(fs[i as int]) =~= fs.take(i + 1));
                    lemma_ser_fields_push(fs.take(i as int), fs[i as int].0, fs[i as int].1);
                    assert(out@ =~= old(out)@ + seq![0x7bu8] + ser_fields(fs.take(i + 1)));
                }
                i = i + 1;
            }
            out.push(0x7d);
            proof {
                assert(fs.take(n as int) =~= fs);
                assert(final(out)@ =~= old(out)@ + ser(v@));
            }
        },
    }
}

/// The serialization of `v` as a fresh buffer.
pub fn to_json_bytes(v: &Json) -> (r: Vec<u8>)
    ensures
        r@ == ser(v@),
{
    let mut out: Vec<u8> = Vec::new();
    write_json(v, &mut out);
    assert(out@ =~= ser(v@));
    out
}

/// The digit scan stops at the first non-digit.
proof fn lemma_scan_digits_found(t: Seq<u8>, j: int)
    requires
        0 <= j <= t.len(),
        forall|k: int| 0 <= k < j ==> is_digit(#[trigger] t[k]),
        j == t.len() || !is_digit(t[j]),
    ensures
        scan_digits(t) == (t.take(j), t.skip(j)),
    decreases j,
{
    if j == 0 {
        assert(t.take(0) =~= Seq::<u8>::empty());
        assert(t.skip(0) =~= t);
    } else {
        assert(is_digit(t[0]));
        lemma_scan_digits_found(t.drop_first(), j - 1);
        assert(seq![t[0]] + t.drop_first().take(j - 1) =~= t.take(j));
        assert(t.drop_first().skip(j - 1) =~= t.skip(j));
    }
}

/// The byte a single-character escape denotes.
fn simple_unescape_exec(c: u8) -> (r: Option<u8>)
    ensures
        r == simple_unescape(c),
{
    if c == 0x22 {
        Some(0x22)
    } else if c == 0x5c {
        Some(0x5c)
    } else if c == 0x2f {
        Some(0x2f)
    } else if c == 0x62 {
        Some(0x08)
    } else if c == 0x66 {
        Some(0x0c)
    } else if c == 0x6e {
        Some(0x0a)
    } else if c == 0x72 {
        Some(0x0d)
    } else if c == 0x74 {
        Some(0x09)
    } else {
        None
    }
}

/// The value of an ASCII hex digit.
fn hex_val_exec(c: u8) -> (r: Option<u8>)
    ensures
        match r {
            Some(v) => hex_val(c) == Some(v as int) && v < 16,
            None => hex_val(c) is None,
        },
{
    if 0x30 <= c && c <= 0x39 {
        Some(c - 0x30)
    } else if 0x61 <= c && c <= 0x66 {
        Some(c - 0x61 + 10)
    } else if 0x41 <= c && c <= 0x46 {
        Some(c - 0x41 + 10)
    } else {
        None
    }
}

/// Scan a string body (the part after the opening quote) up to the closing
/// quote, undoing escapes.
#[verifier::rlimit(100)]
fn scan_str_body(s: &Vec<u8>, start: usize) -> (r: Result<(Vec<u8>, usize), ()>)
    requires
        start <= s@.len(),
    ensures
        match r {
            Ok(p) => start <= p.1 <= s@.len() && scan_string(s@.skip(start as int))
                == Some((p.0@, s@.skip(p.1 as int))),
            Err(e) => scan_string(s@.skip(start as int)) is None,
        },
{
    let ghost t0 = s@.skip(start as int);
    let n: usize = s.len();
    let mut j: usize = start;
    let mut content: Vec<u8> = Vec::new();
    proof {
        match scan_string(t0) {
            Some(p) => {
                assert(content@ + p.0 =~= p.0);
            },
            None => {
            },
        }
    }
    while j < n
        invariant
            start <= j <= n,
            n == s@.len(),
            t0 == s@.skip(start as int),
            match scan_string(s@.skip(j as int)) {
                Some(p) => scan_string(t0) == Some((content@ + p.0, p.1)),
                None => scan_string(t0) is None,
            },
        decreases n - j,
    {
        let ghost cur = s@.skip(j as int);
        proof {
            assert(forall|k: int| 0 <= k < cur.len() ==> cur[k] == s@[j + k]);
        }
        let b = s[j];
        assert(cur[0] == b);
        if b == 0x22 {
            proof {
                assert(cur.drop_first() =~= s@.skip(j + 1));
                assert(scan_string(cur) == Some((Seq::<u8>::empty(), s@.skip(j + 1))));
                assert(content@ + Seq::<u8>::empty() =~= content@);
            }
            return Ok((content, j + 1));
        }
        if b == 0x5c {
            if n - j < 2 {
                proof {
                    assert(cur.len() < 2);
                    assert(scan_string(cur) is None);
                }
                return Err(());
            }
            let e = s[j + 1];
            assert(cur[1] == e);
            match simple_unescape_exec(e) {
                Some(d) => {
                    let ghost c0 = content@;
                    content.push(d);
                    proof {
                        assert(cur.skip(2) =~= s@.skip(j + 2));
                        match scan_string(s@.skip(j + 2)) {
                            Some(p) => {
                                assert(scan_string(cur) == Some((seq![d] + p.0, p.1)));
                                assert(c0 + (seq![d] + p.0) =~= content@ + p.0);
                            },
                            None => {
                                assert(scan_string(cur) is None);
                            },
                        }
                    }
                    j = j + 2;
                },
                None => {
                    if e == 0x75 {
                        if n - j < 6 {
                            proof {
                                assert(cur.len() < 6);
                                assert(scan_string(cur) is None);
                            }
                            return Err(());
                        }
                        let ghost h = cur.skip(2);
                        proof {
                            assert(h[0] == s@[j + 2] && h[1] == s@[j + 3] && h[2] == s@[j + 4]
                                && h[3] == s@[j + 5]);
                        }
                        let va = match hex_val_exec(s[j + 2]) {
                            Some(v) => v,
                            None => {
                                proof {
                                    assert(hex4_val(h) is None);
                                    assert(scan_string(cur) is None);
                                }
                                return Err(());
                            },
                        };
                        let vb = match hex_val_exec(s[j + 3]) {
                            Some(v) => v,
                            None => {
                                proof {
                                    assert(hex4_val(h) is None);
                                    assert(scan_string(cur) is None);
                                }
                                return Err(());
                            },
                        };
                        let vc = match hex_val_exec(s[j + 4]) {
                            Some(v) => v,
                            None => {
                                proof {
                                    assert(hex4_val(h) is None);
                                    assert(scan_string(cur) is None);
                                }
                                return Err(());
                            },
                        };
                        let vd = match hex_val_exec(s[j + 5]) {
                            Some(v) => v,
                            None => {
                                proof {
                                    assert(hex4_val(h) is None);
                                    assert(scan_string(cur) is None);
                                }
                                return Err(());
                            },
                        };
                        let cp: u32 = (va as u32) * 4096 + (vb as u32) * 256 + (vc as u32) * 16
                            + (vd as u32);
                        proof {
                            assert(hex4_val(h) == Some(cp as int));
                        }
                        if 0xd800 <= cp && cp < 0xe000 {
                            proof {
                                assert(scan_string(cur) is None);
                            }
                            return Err(());
                        }
                        let ghost c0 = content@;
                        if cp < 0x80 {
                            content.push(cp as u8);
                        } else if cp < 0x800 {
                            content.push(0xc0 + (cp / 64) as u8);
                            content.push(0x80 + (cp % 64) as u8);
                        } else {
                            content.push(0xe0 + (cp / 4096) as u8);
                            content.push(0x80 + ((cp / 64) % 64) as u8);
                            content.push(0x80 + (cp % 64) as u8);
                        }
                        proof {
                            assert(content@ =~= c0 + utf8_bytes(cp as int));
                            assert(cur.skip(6) =~= s@.skip(j + 6));
                            match scan_string(s@.skip(j + 6)) {
                                Some(p) => {
                                    assert(scan_string(cur) == Some(
                                        (utf8_bytes(cp as int) + p.0, p.1),
                                    ));
                                    assert(c0 + (utf8_bytes(cp as int) + p.0)
                                        =~= content@ + p.0);
                                },
                                None => {
                                    assert(scan_string(cur) is None);
                                },
                            }
                        }
                        j = j + 6;
                    } else {
                        proof {
                            assert(scan_string(cur) is None);
                        }
                        return Err(());
                    }
                },
            }
        } else {
            let ghost c0 = content@;
            content.push(b);
            proof {
                assert(cur.drop_first() =~= s@.skip(j + 1));
                match scan_string(s@.skip(j + 1)) {
                    Some(p) => {
                        assert(scan_string(cur) == Some((seq![b] + p.0, p.1)));
                        assert(c0 + (seq![b] + p.0) =~= content@ + p.0);
                    },
                    None => {
                        assert(scan_string(cur) is None);
                    },
                }
            }
            j = j + 1;
        }
    }
    proof {
        assert(s@.skip(n as int).len() == 0);
        assert(scan_string(s@.skip(n as int)) is None);
    }
    Err(())
}

/// Advance past whitespace.
fn skip_ws_exec(s: &Vec<u8>, pos: usize) -> (r: usize)
    requires
        pos <= s@.len(),
    ensures
        pos <= r <= s@.len(),
        s@.skip(r as int) == skip_ws(s@.skip(pos as int)),
{
    let n: usize = s.len();
    let mut j: usize = pos;
    while j < n
        invariant
            pos <= j <= n,
            n == s@.len(),
            skip_ws(s@.skip(pos as int)) == skip_ws(s@.skip(j as int)),
        decreases n - j,
    {
        let b = s[j];
        proof {
            assert(s@.skip(j as int)[0] == b);
        }
        if b == 0x20 || b == 0x09 || b == 0x0a || b == 0x0d {
            proof {
                assert(s@.skip(j as int).drop_first() =~= s@.skip(j + 1));
            }
            j = j + 1;
        } else {
            proof {
                assert(skip_ws(s@.skip(j as int)) == s@.skip(j as int));
            }
            return j;
        }
    }
    proof {
        assert(s@.skip(n as int).len() == 0);
        assert(skip_ws(s@.skip(n as int)) == s@.skip(n as int));
    }
    n
}

/// Read one JSON value starting at `pos`; mirrors `spec_parse` exactly.
#[verifier::rlimit(100)]
pub fn parse_value(s: &Vec<u8>, pos: usize, fuel: usize) -> (r: Result<(Json, usize), ()>)
    requires
        pos <= s@.len(),
    ensures
        match r {
            Ok(p) => pos <= p.1 <= s@.len() && spec_parse(s@.skip(pos as int), fuel as nat)
                == Some((p.0@, s@.skip(p.1 as int))),
            Err(e) => spec_parse(s@.skip(pos as int), fuel as nat) is None,
        },
    decreases fuel,
{
    if fuel == 0 {
        return Err(());
    }
    let pos1 = skip_ws_exec(s, pos);
    let ghost t = s@.skip(pos1 as int);
    proof {
        assert(t == skip_ws(s@.skip(pos as int)));
        assert(forall|k: int| 0 <= k < t.len() ==> t[k] == s@[pos1 + k]);
    }
    if pos1 == s.len() {
        return Err(());
    }
    let n: usize = s.len();
    let b = s[pos1];
    assert(t[0] == b);
    if b == 0x6e {
        if n - pos1 >= 4 && s[pos1 + 1] == 0x75 && s[pos1 + 2] == 0x6c && s[pos1 + 3] == 0x6c {
            proof {
                assert(t.skip(4) =~= s@.skip(pos1 + 4));
            }
            Ok((Json::Null, pos1 + 4))
        } else {
            Err(())
        }
    } else if b == 0x74 {
        if n - pos1 >= 4 && s[pos1 + 1] == 0x72 && s[pos1 + 2] == 0x75 && s[pos1 + 3] == 0x65 {
            proof {
                assert(t.skip(4) =~= s@.skip(pos1 + 4));
            }
            Ok((Json::Bool(true), pos1 + 4))
        } else {
            Err(())
        }
    } else if b == 0x66 {
        if n - pos1 >= 5 && s[pos1 + 1] == 0x61 && s[pos1 + 2] == 0x6c && s[pos1 + 3] == 0x73
            && s[pos1 + 4] == 0x65 {
            proof {
                assert(t.skip(5) =~= s@.skip(pos1 + 5));
            }
            Ok((Json::Bool(false), pos1 + 5))
        } else {
            Err(())
        }
    } else if b == 0x22 {
        proof {
            assert(t.drop_first() =~= s@.skip(pos1 + 1));
        }
        match scan_str_body(s, pos1 + 1) {
            Ok((content, p)) => Ok((Json::Str(content), p)),
            Err(()) => Err(()),
        }
    } else if 0x30 <= b && b <= 0x39 {
        let mut j: usize = pos1;
        let mut acc: u64 = 0;
        let mut of: bool = false;
        while j < n && 0x30 <= s[j] && s[j] <= 0x39
            invariant
                pos1 <= j <= n,
                n == s@.len(),
                forall|k: int| pos1 <= k < j ==> is_digit(#[trigger] s@[k]),
                if of {
                    dec_value(s@.subrange(pos1 as int, j as int)) > u64::MAX
                } else {
                    acc == dec_value(s@.subrange(pos1 as int, j as int))
                },
            decreases n - j,
        {
            let d: u64 = (s[j] - 0x30) as u64;
            proof {
                let pre = s@.subrange(pos1 as int, j as int);
                let post = s@.subrange(pos1 as int, j + 1);
                assert(post.drop_last() =~= pre);
                assert(post.last() == s@[j as int]);
                assert(dec_value(post) == dec_value(pre) * 10 + d);
            }
            if of {
                proof {
                    let pre = dec_value(s@.subrange(pos1 as int, j as int)) as int;
                    assert(pre * 10 >= pre) by (nonlinear_arith)
                        requires pre >= 0;
                }
            } else if acc > (u64::MAX - d) / 10 {
                proof {
                    let q = ((u64::MAX - d) / 10) as int;
                    let m = (u64::MAX - d) as int;
                    assert(m == q * 10 + m % 10);
                    assert(acc >= q + 1);
                    assert(acc * 10 >= (q + 1) * 10) by (nonlinear_arith)
                        requires acc >= q + 1;
                    assert(acc * 10 + d > u64::MAX);
                }
                of = true;
            } else {
                proof {
                    let q = ((u64::MAX - d) / 10) as int;
                    let m = (u64::MAX - d) as int;
                    assert(m == q * 10 + m % 10);
                    assert(acc * 10 <= q * 10) by (nonlinear_arith)
                        requires acc <= q;
                    assert(acc * 10 + d <= u64::MAX);
                }
                acc = acc * 10 + d;
            }
            j = j + 1;
        }
        proof {
            assert(forall|k: int| 0 <= k < j - pos1 ==> is_digit(#[trigger] t[k]));
            if j < n {
                assert(t[j - pos1] == s@[j as int]);
                assert(!is_digit(t[j - pos1]));
            }
            lemma_scan_digits_found(t, j - pos1);
            assert(t.take(j - pos1) =~= s@.subrange(pos1 as int, j as int));
            assert(t.skip(j - pos1) =~= s@.skip(j as int));
        }
        if of {
            Err(())
        } else {
            Ok((Json::UInt(acc), j))
        }
    } else if b == 0x2d {
        let ghost tm = t.drop_first();
        proof {
            assert(tm =~= s@.skip(pos1 + 1));
            assert(forall|k: int| 0 <= k < tm.len() ==> tm[k] == s@[pos1 + 1 + k]);
        }
        if pos1 + 1 == n || !(0x30 <= s[pos1 + 1] && s[pos1 + 1] <= 0x39) {
            proof {
                assert(scan_digits(tm).0.len() == 0);
            }
            return Err(());
        }
        let mstart: usize = pos1 + 1;
        let mut j: usize = mstart;
        let mut acc: u64 = 0;
        let mut of: bool = false;
        while j < n && 0x30 <= s[j] && s[j] <= 0x39
            invariant
                mstart <= j <= n,
                mstart == pos1 + 1,
                pos1 + 1 <= n,
                n == s@.len(),
                forall|k: int| mstart <= k < j ==> is_digit(#[trigger] s@[k]),
                if of {
                    dec_value(s@.subrange(mstart as int, j as int)) > u64::MAX
                } else {
                    acc == dec_value(s@.subrange(mstart as int, j as int))
                },
            decreases n - j,
        {
            let d: u64 = (s[j] - 0x30) as u64;
            proof {
                let pre = s@.subrange(mstart as int, j as int);
                let post = s@.subrange(mstart as int, j + 1);
                assert(post.drop_last() =~= pre);
                assert(post.last() == s@[j as int]);
                assert(dec_value(post) == dec_value(pre) * 10 + d);
            }
            if of {
                proof {
                    let pre = dec_value(s@.subrange(mstart as int, j as int)) as int;
                    assert(pre * 10 >= pre) by (nonlinear_arith)
                        requires pre >= 0;
                }
            } else if acc > (u64::MAX - d) / 10 {
                proof {
                    let q = ((u64::MAX - d) / 10) as int;
                    let m = (u64::MAX - d) as int;
                    assert(m == q * 10 + m % 10);
                    assert(acc >= q + 1);
                    assert(acc * 10 >= (q + 1) * 10) by (nonlinear_arith)
                        requires acc >= q + 1;
                    assert(acc * 10 + d > u64::MAX);
                }
                of = true;
            } else {
                proof {
                    let q = ((u64::MAX - d) / 10) as int;
                    let m = (u64::MAX - d) as int;
                    assert(m == q * 10 + m % 10);
                    assert(acc * 10 <= q * 10) by (nonlinear_arith)
                        requires acc <= q;
                    assert(acc * 10 + d <= u64::MAX);
                }
                acc = acc * 10 + d;
            }
            j = j + 1;
        }
        proof {
            assert(forall|k: int| 0 <= k < j - mstart ==> is_digit(#[trigger] tm[k]));
            if j < n {
                assert(tm[j - mstart] == s@[j as int]);
                assert(!is_digit(tm[j - mstart]));
            }
            lemma_scan_digits_found(tm, j - mstart);
            assert(tm.take(j - mstart) =~= s@.subrange(mstart as int, j as int));
            assert(tm.skip(j - mstart) =~= s@.skip(j as int));
            assert(scan_digits(tm).0.len() >= 1);
        }
        if of {
            Err(())
        } else {
            Ok((Json::NegInt(acc), j))
        }
    } else if b == 0x5b {
        let inner = skip_ws_exec(s, pos1 + 1);
        let ghost ti = s@.skip(inner as int);
        proof {
            assert(t.drop_first() =~= s@.skip(pos1 + 1));
            assert(ti == skip_ws(t.drop_first()));
            assert(forall|k: int| 0 <= k < ti.len() ==> ti[k] == s@[inner + k]);
        }
        if inner < n && s[inner] == 0x5d {
            proof {
                assert(ti[0] == 0x5d);
                assert(ti.drop_first() =~= s@.skip(inner + 1));
                assert(views_of(Seq::<Json>::empty()) =~= Seq::<JsonView>::empty());
            }
            let empty_arr: Vec<Json> = Vec::new();
            assert(empty_arr@ =~= Seq::<Json>::empty());
            Ok((Json::Arr(empty_arr), inner + 1))
        } else {
            proof {
                if inner < n {
                    assert(ti[0] == s@[inner as int]);
                } else {
                    assert(ti.len() == 0);
                }
            }
            match parse_items(s, pos1 + 1, fuel - 1) {
                Ok((vs, p)) => Ok((Json::Arr(vs), p)),
                Err(()) => Err(()),
            }
        }
    } else if b == 0x7b {
        let inner = skip_ws_exec(s, pos1 + 1);
        let ghost ti = s@.skip(inner as int);
        proof {
            assert(t.drop_first() =~= s@.skip(pos1 + 1));
            assert(ti == skip_ws(t.drop_first()));
            assert(forall|k: int| 0 <= k < ti.len() ==> ti[k] == s@[inner + k]);
        }
        if inner < n && s[inner] == 0x7d {
            proof {
                assert(ti[0] == 0x7d);
                assert(ti.drop_first() =~= s@.skip(inner + 1));
                assert(views_of_fields(Seq::<(Vec<u8>, Json)>::empty())
                    =~= Seq::<(Seq<u8>, JsonView)>::empty());
            }
            let empty_obj: Vec<(Vec<u8>, Json)> = Vec::new();
            assert(empty_obj@ =~= Seq::<(Vec<u8>, Json)>::empty());
            Ok((Json::Obj(empty_obj), inner + 1))
        } else {
            proof {
                if inner < n {
                    assert(ti[0] == s@[inner as int]);
                } else {
                    assert(ti.len() == 0);
                }
            }
            match parse_fields(s, pos1 + 1, fuel - 1) {
                Ok((fs, p)) => Ok((Json::Obj(fs), p)),
                Err(()) => Err(()),
            }
        }
    } else {
        Err(())
    }
}

/// Read `elem (',' elem)* ']'`; mirrors `spec_parse_items`.
fn parse_items(s: &Vec<u8>, pos: usize, fuel: usize) -> (r: Result<(Vec<Json>, usize), ()>)
    requires
        pos <= s@.len(),
    ensures
        match r {
            Ok(p) => pos <= p.1 <= s@.len() && spec_parse_items(s@.skip(pos as int), fuel as nat)
                == Some((views_of(p.0@), s@.skip(p.1 as int))),
            Err(e) => spec_parse_items(s@.skip(pos as int), fuel as nat) is None,
        },
    decreases fuel,
{
    if fuel == 0 {
        return Err(());
    }
    match parse_value(s, pos, fuel - 1) {
        Ok((v, p)) => {
            let p1 = skip_ws_exec(s, p);
            let ghost rr = s@.skip(p1 as int);
            proof {
                assert(rr == skip_ws(s@.skip(p as int)));
                assert(forall|k: int| 0 <= k < rr.len() ==> rr[k] == s@[p1 + k]);
            }
            if p1 == s.len() {
                Err(())
            } else if s[p1] == 0x2c {
                proof {
                    assert(rr[0] == 0x2c);
                    assert(rr.drop_first() =~= s@.skip(p1 + 1));
                }
                match parse_items(s, p1 + 1, fuel - 1) {
                    Ok((vs, p2)) => {
                        let mut all = vs;
                        let ghost tail0 = all@;
                        all.insert(0, v);
                        proof {
                            lemma_views_of(all@);
                            lemma_views_of(tail0);
                            assert(views_of(all@) =~= seq![v@] + views_of(tail0));
                        }
                        Ok((all, p2))
                    },
                    Err(()) => Err(()),
                }
            } else if s[p1] == 0x5d {
                proof {
                    assert(rr[0] == 0x5d);
                    assert(rr.drop_first() =~= s@.skip(p1 + 1));
                }
                let mut single: Vec<Json> = Vec::new();
                single.push(v);
                proof {
                    lemma_views_of(single@);
                    assert(views_of(single@) =~= seq![single@[0]@]);
                }
                Ok((single, p1 + 1))
            } else {
                proof {
                    assert(rr[0] == s@[p1 as int]);
                }
                Err(())
            }
        },
        Err(()) => Err(()),
    }
}

/// Read `'"' key '"' ':' value (',' ...)* '}'`; mirrors `spec_parse_fields`.
fn parse_fields(s: &Vec<u8>, pos: usize, fuel: usize)
    -> (r: Result<(Vec<(Vec<u8>, Json)>, usize), ()>)
    requires
        pos <= s@.len(),
    ensures
        match r {
            Ok(p) => pos <= p.1 <= s@.len() && spec_parse_fields(s@.skip(pos as int), fuel as nat)
                == Some((views_of_fields(p.0@), s@.skip(p.1 as int))),
            Err(e) => spec_parse_fields(s@.skip(pos as int), fuel as nat) is None,
        },
    decreases fuel,
{
    if fuel == 0 {
        return Err(());
    }
    let q = skip_ws_exec(s, pos);
    let ghost t = s@.skip(q as int);
    proof {
        assert(t == skip_ws(s@.skip(pos as int)));
        assert(forall|k: int| 0 <= k < t.len() ==> t[k] == s@[q + k]);
    }
    if q == s.len() {
        return Err(());
    }
    if s[q] != 0x22 {
        assert(t[0] != 0x22);
        return Err(());
    }
    assert(t[0] == 0x22);
    proof {
        assert(t.drop_first() =~= s@.skip(q + 1));
    }
    match scan_str_body(s, q + 1) {
        Ok((key, p1a)) => {
            let p1 = skip_ws_exec(s, p1a);
            let ghost r1 = s@.skip(p1 as int);
            proof {
                assert(r1 == skip_ws(s@.skip(p1a as int)));
                assert(forall|k: int| 0 <= k < r1.len() ==> r1[k] == s@[p1 + k]);
            }
            if p1 == s.len() {
                return Err(());
            }
            if s[p1] != 0x3a {
                assert(r1[0] != 0x3a);
                return Err(());
            }
            proof {
                assert(r1[0] == 0x3a);
                assert(r1.drop_first() =~= s@.skip(p1 + 1));
            }
            match parse_value(s, p1 + 1, fuel - 1) {
                Ok((v, p2a)) => {
                    let p2 = skip_ws_exec(s, p2a);
                    let ghost r2 = s@.skip(p2 as int);
                    proof {
                        assert(r2 == skip_ws(s@.skip(p2a as int)));
                        assert(forall|k: int| 0 <= k < r2.len() ==> r2[k] == s@[p2 + k]);
                    }
                    if p2 == s.len() {
                        Err(())
                    } else if s[p2] == 0x2c {
                        proof {
                            assert(r2[0] == 0x2c);
                            assert(r2.drop_first() =~= s@.skip(p2 + 1));
                        }
                        match parse_fields(s, p2 + 1, fuel - 1) {
                            Ok((fs, p3)) => {
                                let mut all = fs;
                                let ghost tail0 = all@;
                                all.insert(0, (key, v));
                                proof {
                                    lemma_views_of_fields(all@);
                                    lemma_views_of_fields(tail0);
                                    assert(views_of_fields(all@) =~= seq![(all@[0].0@, all@[0].1@)]
                                        + views_of_fields(tail0));
                                }
                                Ok((all, p3))
                            },
                            Err(()) => Err(()),
                        }
                    } else if s[p2] == 0x7d {
                        proof {
                            assert(r2[0] == 0x7d);
                            assert(r2.drop_first() =~= s@.skip(p2 + 1));
                        }
                        let mut single: Vec<(Vec<u8>, Json)> = Vec::new();
                        single.push((key, v));
                        proof {
                            lemma_views_of_fields(single@);
                            assert(views_of_fields(single@)
                                =~= seq![(single@[0].0@, single@[0].1@)]);
                        }
                        Ok((single, p2 + 1))
                    } else {
                        proof {
                            assert(r2[0] == s@[p2 as int]);
                        }
                        Err(())
                    }
                },
                Err(()) => Err(()),
            }
        },
        Err(()) => Err(()),
    }
}

/// Parse a whole buffer as exactly one JSON value.
pub open spec fn spec_parse_all(s: Seq<u8>) -> Option<JsonView> {
    match spec_parse(s, (s.len() + 1) as nat) {
        Some((v, r)) => if skip_ws(r).len() == 0 {
            Some(v)
        } else {
            None
        },
        None => None,
    }
}

/// Parse a whole buffer as exactly one JSON value; trailing bytes are an
/// error.
pub fn parse_json(s: &Vec<u8>) -> (r: Result<Json, ()>)
    requires
        s@.len() < usize::MAX,
    ensures
        match r {
            Ok(v) => spec_parse_all(s@) == Some(v@),
            Err(e) => spec_parse_all(s@) is None,
        },
{
    let fuel: usize = s.len() + 1;
    proof {
        assert(s@.skip(0) =~= s@);
    }
    match parse_value(s, 0, fuel) {
        Ok((v, p)) => {
            let pe = skip_ws_exec(s, p);
            proof {
                assert(s@.skip(pe as int) == skip_ws(s@.skip(p as int)));
            }
            if pe == s.len() {
                proof {
                    assert(s@.skip(pe as int).len() == 0);
                }
                Ok(v)
            } else {
                proof {
                    assert(s@.skip(pe as int).len() > 0);
                }
                Err(())
            }
        },
        Err(()) => Err(()),
    }
}

/// Round trip: serializing a value and parsing the buffer back yields the
/// value.
pub proof fn lemma_parse_all_ser(v: JsonView)
    ensures
        spec_parse_all(ser(v)) == Some(v),
{
    lemma_weight_le_ser_len(v);
    lemma_parse_ser(v, Seq::empty(), (ser(v).len() + 1) as nat);
    assert(ser(v) + Seq::<u8>::empty() =~= ser(v));
    assert(skip_ws(Seq::<u8>::empty()).len() == 0);
}

} // verus!
