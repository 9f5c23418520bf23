//! Decoding of base64 in the standard alphabet, with padding.

use vstd::prelude::*;

verus! {

pub const PAD: u8 = 61;

/// The six bits that a character of the alphabet stands for.
pub open spec fn sextet(c: u8) -> Option<int> {
    if 65 <= c <= 90 {
        Some(c - 65)
    } else if 97 <= c <= 122 {
        Some(c - 97 + 26)
    } else if 48 <= c <= 57 {
        Some(c - 48 + 52)
    } else if c == 43 {
        Some(62)
    } else if c == 47 {
        Some(63)
    } else {
        None
    }
}

/// The bytes that `s` encodes. `s` is read in groups of four characters,
/// each of which gives three bytes; the last group may end in one or two
/// padding characters and then gives two bytes or one, and the bits of it
/// that belong to no byte must be zero. Anything else does not decode.
pub open spec fn decode(s: Seq<u8>) -> Option<Seq<u8>>
    decreases s.len(),
{
    if s.len() == 0 {
        Some(Seq::empty())
    } else if s.len() < 4 {
        None
    } else {
        match (sextet(s[0]), sextet(s[1])) {
            (Some(a), Some(b)) => {
                if s.len() == 4 && s[2] == PAD && s[3] == PAD {
                    if b % 16 == 0 {
                        Some(seq![(a * 4 + b / 16) as u8])
                    } else {
                        None
                    }
                } else {
                    match sextet(s[2]) {
                        Some(c) => {
                            if s.len() == 4 && s[3] == PAD {
                                if c % 4 == 0 {
                                    Some(
                                        seq![
                                            (a * 4 + b / 16) as u8,
                                            ((b % 16) * 16 + c / 4) as u8,
                                        ],
                                    )
                                } else {
                                    None
                                }
                            } else {
                                match (sextet(s[3]), decode(s.skip(4))) {
                                    (Some(d), Some(rest)) => Some(
                                        seq![
                                            (a * 4 + b / 16) as u8,
                                            ((b % 16) * 16 + c / 4) as u8,
                                            ((c % 4) * 64 + d) as u8,
                                        ] + rest,
                                    ),
                                    _ => None,
                                }
                            }
                        },
                        None => None,
                    }
                }
            },
            _ => None,
        }
    }
}

fn sextet_of(c: u8) -> (r: Option<u8>)
    ensures
        match r {
            Some(v) => sextet(c) == Some(v as int) && v < 64,
            None => sextet(c) is None,
        },
{
    if 65 <= c && c <= 90 {
        Some(c - 65)
    } else if 97 <= c && c <= 122 {
        Some(c - 97 + 26)
    } else if 48 <= c && c <= 57 {
        Some(c - 48 + 52)
    } else if c == 43 {
        Some(62)
    } else if c == 47 {
        Some(63)
    } else {
        None
    }
}

/// Decodes `s`, or returns `None` where `s` is not base64.
pub fn decode_bytes(s: &[u8]) -> (r: Option<Vec<u8>>)
    ensures
        match r {
            Some(v) => decode(s@) == Some(v@),
            None => decode(s@) is None,
        },
{
    let n = s.len();
    let mut out: Vec<u8> = Vec::new();
    let mut i: usize = 0;
    proof {
        assert(s@.skip(0) =~= s@);
        if let Some(rest) = decode(s@) {
            assert(out@ + rest =~= rest);
        }
    }
    while i < n
        invariant
            n == s.len(),
            i <= n,
            match decode(s@.skip(i as int)) {
                Some(rest) => decode(s@) == Some(out@ + rest),
                None => decode(s@) is None,
            },
        decreases n - i,
    {
        let ghost t = s@.skip(i as int);
        let ghost before = out@;
        if n - i < 4 {
            return None;
        }
        proof {
            assert(t[0] == s@[i as int]);
            assert(t[1] == s@[i + 1]);
            assert(t[2] == s@[i + 2]);
            assert(t[3] == s@[i + 3]);
            assert(t.skip(4) =~= s@.skip(i + 4));
            assert(t.len() == n - i);
        }
        let last = n - i == 4;
        let a = match sextet_of(s[i]) {
            Some(v) => v,
            None => {
                return None;
            },
        };
        let b = match sextet_of(s[i + 1]) {
            Some(v) => v,
            None => {
                return None;
            },
        };
        if last && s[i + 2] == PAD && s[i + 3] == PAD {
            if b % 16 != 0 {
                return None;
            }
            out.push(a * 4 + b / 16);
            proof {
                assert(out@ =~= before + seq![(a * 4 + b / 16) as u8]);
            }
            return Some(out);
        }
        let c = match sextet_of(s[i + 2]) {
            Some(v) => v,
            None => {
                return None;
            },
        };
        if last && s[i + 3] == PAD {
            if c % 4 != 0 {
                return None;
            }
            out.push(a * 4 + b / 16);
            out.push((b % 16) * 16 + c / 4);
            proof {
                assert(out@ =~= before + seq![
                    (a * 4 + b / 16) as u8,
                    ((b % 16) * 16 + c / 4) as u8,
                ]);
            }
            return Some(out);
        }
        let d = match sextet_of(s[i + 3]) {
            Some(v) => v,
            None => {
                return None;
            },
        };
        out.push(a * 4 + b / 16);
        out.push((b % 16) * 16 + c / 4);
        out.push((c % 4) * 64 + d);
        proof {
            let three = seq![
                (a * 4 + b / 16) as u8,
                ((b % 16) * 16 + c / 4) as u8,
                ((c % 4) * 64 + d) as u8,
            ];
            assert(out@ =~= before + three);
            if let Some(rest) = decode(t.skip(4)) {
                assert(out@ + rest =~= before + (three + rest));
            }
        }
        i += 4;
    }
    proof {
        assert(s@.skip(n as int) =~= Seq::<u8>::empty());
        assert(out@ + Seq::<u8>::empty() =~= out@);
    }
    Some(out)
}

} // verus!
