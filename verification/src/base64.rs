//! Base64, standard alphabet with padding.
//!
//! The configuration file stores the TLS key and certificate DER as base64
//! text inside JSON. Encoding and decoding are defined here from scratch,
//! with the decoder proven to invert the encoder byte for byte.

use vstd::prelude::*;

verus! {

/// The alphabet byte for a 6-bit value.
pub open spec fn b64_char(v: int) -> u8 {
    if v < 26 {
        (0x41 + v) as u8
    } else if v < 52 {
        (0x61 + (v - 26)) as u8
    } else if v < 62 {
        (0x30 + (v - 52)) as u8
    } else if v == 62 {
        0x2b
    } else {
        0x2f
    }
}

/// The 6-bit value of an alphabet byte, if it is one.
pub open spec fn b64_val(c: u8) -> Option<int> {
    if 0x41 <= c <= 0x5a {
        Some((c - 0x41) as int)
    } else if 0x61 <= c <= 0x7a {
        Some((c - 0x61 + 26) as int)
    } else if 0x30 <= c <= 0x39 {
        Some((c - 0x30 + 52) as int)
    } else if c == 0x2b {
        Some(62)
    } else if c == 0x2f {
        Some(63)
    } else {
        None
    }
}

/// Decoding an alphabet byte yields the value it was made from.
proof fn lemma_b64_char_val(v: int)
    requires
        0 <= v < 64,
    ensures
        b64_val(b64_char(v)) == Some(v),
        b64_char(v) != 0x3d,
{
}

/// The encoding, three input bytes to four output bytes, padded at the end.
pub open spec fn spec_b64_encode(s: Seq<u8>) -> Seq<u8>
    decreases s.len(),
{
    if s.len() == 0 {
        Seq::empty()
    } else if s.len() == 1 {
        let b0 = s[0] as int;
        seq![b64_char(b0 / 4), b64_char((b0 % 4) * 16), 0x3du8, 0x3du8]
    } else if s.len() == 2 {
        let b0 = s[0] as int;
        let b1 = s[1] as int;
        seq![b64_char(b0 / 4), b64_char((b0 % 4) * 16 + b1 / 16), b64_char((b1 % 16) * 4), 0x3du8]
    } else {
        let b0 = s[0] as int;
        let b1 = s[1] as int;
        let b2 = s[2] as int;
        seq![
            b64_char(b0 / 4),
            b64_char((b0 % 4) * 16 + b1 / 16),
            b64_char((b1 % 16) * 4 + b2 / 64),
            b64_char(b2 % 64),
        ] + spec_b64_encode(s.skip(3))
    }
}

/// The decoding, four input bytes to up to three output bytes; `None` on a
/// byte outside the alphabet, a lone or misplaced padding, or a length that
/// is not a multiple of four.
pub open spec fn spec_b64_decode(s: Seq<u8>) -> Option<Seq<u8>>
    decreases s.len(),
{
    if s.len() == 0 {
        Some(Seq::empty())
    } else if s.len() < 4 {
        None
    } else {
        match (b64_val(s[0]), b64_val(s[1])) {
            (Some(v0), Some(v1)) => {
                if s[2] == 0x3d && s[3] == 0x3d {
                    if s.len() == 4 {
                        Some(seq![(v0 * 4 + v1 / 16) as u8])
                    } else {
                        None
                    }
                } else if s[3] == 0x3d {
                    match b64_val(s[2]) {
                        Some(v2) => if s.len() == 4 {
                            Some(seq![(v0 * 4 + v1 / 16) as u8, ((v1 % 16) * 16 + v2 / 4) as u8])
                        } else {
                            None
                        },
                        None => None,
                    }
                } else {
                    match (b64_val(s[2]), b64_val(s[3])) {
                        (Some(v2), Some(v3)) => match spec_b64_decode(s.skip(4)) {
                            Some(rest) => Some(
                                seq![
                                    (v0 * 4 + v1 / 16) as u8,
                                    ((v1 % 16) * 16 + v2 / 4) as u8,
                                    ((v2 % 4) * 64 + v3) as u8,
                                ] + rest,
                            ),
                            None => None,
                        },
                        _ => None,
                    }
                }
            },
            _ => None,
        }
    }
}

/// Decoding inverts encoding, byte for byte.
pub proof fn lemma_b64_round_trip(s: Seq<u8>)
    ensures
        spec_b64_decode(spec_b64_encode(s)) == Some(s),
    decreases s.len(),
{
    if s.len() == 0 {
        assert(spec_b64_encode(s) =~= Seq::<u8>::empty());
    } else if s.len() == 1 {
        let b0 = s[0] as int;
        lemma_b64_char_val(b0 / 4);
        lemma_b64_char_val((b0 % 4) * 16);
        let e = spec_b64_encode(s);
        assert(e.len() == 4);
        assert(spec_b64_decode(e) == Some(seq![((b0 / 4) * 4 + ((b0 % 4) * 16) / 16) as u8]));
        assert((b0 / 4) * 4 + ((b0 % 4) * 16) / 16 == b0);
        assert(seq![(b0 as u8)] =~= s);
    } else if s.len() == 2 {
        let b0 = s[0] as int;
        let b1 = s[1] as int;
        let v0 = b0 / 4;
        let v1 = (b0 % 4) * 16 + b1 / 16;
        let v2 = (b1 % 16) * 4;
        lemma_b64_char_val(v0);
        lemma_b64_char_val(v1);
        lemma_b64_char_val(v2);
        let e = spec_b64_encode(s);
        assert(e.len() == 4);
        assert(e[3] == 0x3d);
        assert(e[2] == b64_char(v2));
        assert(e[2] != 0x3d);
        assert(v1 / 16 == b0 % 4);
        assert(v0 * 4 + v1 / 16 == b0);
        assert(v1 % 16 == b1 / 16);
        assert((v1 % 16) * 16 + v2 / 4 == b1);
        assert(spec_b64_decode(e) == Some(seq![(b0 as u8), (b1 as u8)]));
        assert(seq![(b0 as u8), (b1 as u8)] =~= s);
    } else {
        let b0 = s[0] as int;
        let b1 = s[1] as int;
        let b2 = s[2] as int;
        let v0 = b0 / 4;
        let v1 = (b0 % 4) * 16 + b1 / 16;
        let v2 = (b1 % 16) * 4 + b2 / 64;
        let v3 = b2 % 64;
        lemma_b64_char_val(v0);
        lemma_b64_char_val(v1);
        lemma_b64_char_val(v2);
        lemma_b64_char_val(v3);
        lemma_b64_round_trip(s.skip(3));
        let e = spec_b64_encode(s);
        let group = seq![b64_char(v0), b64_char(v1), b64_char(v2), b64_char(v3)];
        let tail = spec_b64_encode(s.skip(3));
        assert(e == group + tail);
        assert(e.len() >= 4);
        assert(e[0] == b64_char(v0));
        assert(e[1] == b64_char(v1));
        assert(e[2] == b64_char(v2));
        assert(e[3] == b64_char(v3));
        assert(e[2] != 0x3d && e[3] != 0x3d);
        assert(e.skip(4) =~= tail);
        assert(v1 / 16 == b0 % 4);
        assert(v0 * 4 + v1 / 16 == b0);
        assert(v1 % 16 == b1 / 16);
        assert(v2 / 4 == b1 % 16);
        assert((v1 % 16) * 16 + v2 / 4 == b1);
        assert(v2 % 4 == b2 / 64);
        assert((v2 % 4) * 64 + v3 == b2);
        assert(spec_b64_decode(e) == Some(
            seq![(b0 as u8), (b1 as u8), (b2 as u8)] + s.skip(3),
        ));
        assert(seq![(b0 as u8), (b1 as u8), (b2 as u8)] + s.skip(3) =~= s);
    }
}

/// The alphabet byte of a 6-bit value.
fn b64_char_exec(v: u8) -> (r: u8)
    requires
        v < 64,
    ensures
        r == b64_char(v as int),
{
    if v < 26 {
        0x41 + v
    } else if v < 52 {
        0x61 + (v - 26)
    } else if v < 62 {
        0x30 + (v - 52)
    } else if v == 62 {
        0x2b
    } else {
        0x2f
    }
}

/// The 6-bit value of an alphabet byte.
fn b64_val_exec(c: u8) -> (r: Option<u8>)
    ensures
        match r {
            Some(v) => b64_val(c) == Some(v as int) && v < 64,
            None => b64_val(c) is None,
        },
{
    if 0x41 <= c && c <= 0x5a {
        Some(c - 0x41)
    } else if 0x61 <= c && c <= 0x7a {
        Some(c - 0x61 + 26)
    } else if 0x30 <= c && c <= 0x39 {
        Some(c - 0x30 + 52)
    } else if c == 0x2b {
        Some(62)
    } else if c == 0x2f {
        Some(63)
    } else {
        None
    }
}

/// Encode bytes as base64 text.
#[verifier::rlimit(100)]
pub fn b64_encode(s: &Vec<u8>) -> (r: Vec<u8>)
    ensures
        r@ == spec_b64_encode(s@),
{
    let n: usize = s.len();
    let mut out: Vec<u8> = Vec::new();
    let mut i: usize = 0;
    proof {
        assert(s@.skip(0) =~= s@);
        assert(out@ + spec_b64_encode(s@) =~= spec_b64_encode(s@));
    }
    while n - i >= 3
        invariant
            0 <= i <= n,
            n == s@.len(),
            i % 3 == 0,
            spec_b64_encode(s@) =~= out@ + spec_b64_encode(s@.skip(i as int)),
        decreases n - i,
    {
        let ghost rem = s@.skip(i as int);
        let b0 = s[i];
        let b1 = s[i + 1];
        let b2 = s[i + 2];
        proof {
            assert(rem[0] == b0 && rem[1] == b1 && rem[2] == b2);
            assert(rem.len() >= 3);
        }
        out.push(b64_char_exec(b0 / 4));
        out.push(b64_char_exec((b0 % 4) * 16 + b1 / 16));
        out.push(b64_char_exec((b1 % 16) * 4 + b2 / 64));
        out.push(b64_char_exec(b2 % 64));
        proof {
            assert(rem.skip(3) =~= s@.skip(i + 3));
            assert(spec_b64_encode(s@) =~= out@ + spec_b64_encode(s@.skip(i + 3)));
        }
        i = i + 3;
    }
    let ghost rem = s@.skip(i as int);
    if n - i == 1 {
        let b0 = s[i];
        proof {
            assert(rem.len() == 1);
            assert(rem[0] == b0);
        }
        out.push(b64_char_exec(b0 / 4));
        out.push(b64_char_exec((b0 % 4) * 16));
        out.push(0x3d);
        out.push(0x3d);
        assert(spec_b64_encode(rem) =~= seq![
            b64_char(b0 as int / 4),
            b64_char((b0 as int % 4) * 16),
            0x3du8,
            0x3du8,
        ]);
        assert(out@ =~= spec_b64_encode(s@));
    } else if n - i == 2 {
        let b0 = s[i];
        let b1 = s[i + 1];
        proof {
            assert(rem.len() == 2);
            assert(rem[0] == b0 && rem[1] == b1);
        }
        out.push(b64_char_exec(b0 / 4));
        out.push(b64_char_exec((b0 % 4) * 16 + b1 / 16));
        out.push(b64_char_exec((b1 % 16) * 4));
        out.push(0x3d);
        assert(out@ =~= spec_b64_encode(s@));
    } else {
        proof {
            assert(rem.len() == 0);
            assert(spec_b64_encode(rem) =~= Seq::<u8>::empty());
        }
        assert(out@ =~= spec_b64_encode(s@));
    }
    out
}

/// Decode base64 text back to bytes.
#[verifier::rlimit(100)]
pub fn b64_decode(s: &Vec<u8>) -> (r: Result<Vec<u8>, ()>)
    ensures
        match r {
            Ok(out) => spec_b64_decode(s@) == Some(out@),
            Err(e) => spec_b64_decode(s@) is None,
        },
{
    let n: usize = s.len();
    let mut out: Vec<u8> = Vec::new();
    let mut i: usize = 0;
    proof {
        assert(s@.skip(0) =~= s@);
        match spec_b64_decode(s@) {
            Some(all) => {
                assert(out@ + all =~= all);
            },
            None => {
            },
        }
    }
    while i < n
        invariant
            0 <= i <= n,
            n == s@.len(),
            i % 4 == 0,
            match spec_b64_decode(s@.skip(i as int)) {
                Some(tail) => spec_b64_decode(s@) == Some(out@ + tail),
                None => spec_b64_decode(s@) is None,
            },
        decreases n - i,
    {
        let ghost rem = s@.skip(i as int);
        let ghost out0 = out@;
        if n - i < 4 {
            proof {
                assert(rem.len() < 4 && rem.len() > 0);
                assert(spec_b64_decode(rem) is None);
            }
            return Err(());
        }
        let c0 = s[i];
        let c1 = s[i + 1];
        let c2 = s[i + 2];
        let c3 = s[i + 3];
        proof {
            assert(rem[0] == c0 && rem[1] == c1 && rem[2] == c2 && rem[3] == c3);
        }
        let v0 = match b64_val_exec(c0) {
            Some(v) => v,
            None => {
                proof {
                    assert(spec_b64_decode(rem) is None);
                }
                return Err(());
            },
        };
        let v1 = match b64_val_exec(c1) {
            Some(v) => v,
            None => {
                proof {
                    assert(spec_b64_decode(rem) is None);
                }
                return Err(());
            },
        };
        if c2 == 0x3d && c3 == 0x3d {
            if n - i == 4 {
                out.push(v0 * 4 + v1 / 16);
                proof {
                    assert(rem.len() == 4);
                    assert(spec_b64_decode(rem) == Some(seq![
                        ((v0 as int) * 4 + (v1 as int) / 16) as u8,
                    ]));
                    assert(s@.skip(i + 4).len() == 0);
                    assert(spec_b64_decode(s@.skip(i + 4)) == Some(Seq::<u8>::empty()));
                    assert(out@ + Seq::<u8>::empty() =~= out@);
                    assert(out0 + spec_b64_decode(rem)->0 =~= out@);
                }
                i = i + 4;
            } else {
                proof {
                    assert(spec_b64_decode(rem) is None);
                }
                return Err(());
            }
        } else if c3 == 0x3d {
            let v2 = match b64_val_exec(c2) {
                Some(v) => v,
                None => {
                    proof {
                        assert(spec_b64_decode(rem) is None);
                    }
                    return Err(());
                },
            };
            if n - i == 4 {
                out.push(v0 * 4 + v1 / 16);
                out.push((v1 % 16) * 16 + v2 / 4);
                proof {
                    assert(rem.len() == 4);
                    assert(spec_b64_decode(rem) == Some(seq![
                        ((v0 as int) * 4 + (v1 as int) / 16) as u8,
                        (((v1 as int) % 16) * 16 + (v2 as int) / 4) as u8,
                    ]));
                    assert(s@.skip(i + 4).len() == 0);
                    assert(spec_b64_decode(s@.skip(i + 4)) == Some(Seq::<u8>::empty()));
                    assert(out@ + Seq::<u8>::empty() =~= out@);
                    assert(out0 + spec_b64_decode(rem)->0 =~= out@);
                }
                i = i + 4;
            } else {
                proof {
                    assert(spec_b64_decode(rem) is None);
                }
                return Err(());
            }
        } else {
            let v2 = match b64_val_exec(c2) {
                Some(v) => v,
                None => {
                    proof {
                        assert(spec_b64_decode(rem) is None);
                    }
                    return Err(());
                },
            };
            let v3 = match b64_val_exec(c3) {
                Some(v) => v,
                None => {
                    proof {
                        assert(spec_b64_decode(rem) is None);
                    }
                    return Err(());
                },
            };
            out.push(v0 * 4 + v1 / 16);
            out.push((v1 % 16) * 16 + v2 / 4);
            out.push((v2 % 4) * 64 + v3);
            proof {
                assert(rem.skip(4) =~= s@.skip(i + 4));
                let group = seq![
                    ((v0 as int) * 4 + (v1 as int) / 16) as u8,
                    (((v1 as int) % 16) * 16 + (v2 as int) / 4) as u8,
                    (((v2 as int) % 4) * 64 + (v3 as int)) as u8,
                ];
                match spec_b64_decode(s@.skip(i + 4)) {
                    Some(tail) => {
                        assert(spec_b64_decode(rem) == Some(group + tail));
                        assert(out0 + (group + tail) =~= out@ + tail);
                    },
                    None => {
                        assert(spec_b64_decode(rem) is None);
                    },
                }
            }
            i = i + 4;
        }
    }
    proof {
        assert(s@.skip(n as int).len() == 0);
        assert(spec_b64_decode(s@.skip(n as int)) == Some(Seq::<u8>::empty()));
        assert(out@ + Seq::<u8>::empty() =~= out@);
    }
    Ok(out)
}

} // verus!
