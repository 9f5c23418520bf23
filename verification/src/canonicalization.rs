//! The two canonicalization algorithms of DKIM, for headers and for bodies.
//!
//! A header is taken as a name and a value: the bytes before the first colon
//! of the header field, and the bytes after it up to and including the line
//! terminator, folds included. Each algorithm is a pure function of the bytes
//! it is given.

use vstd::prelude::*;
use crate::bytes::{
    copy_range, is_wsp, lower_seq, space, to_lower_vec, trim_end, trim_start, trimmed_end, COLON,
    CR, LF, SP,
};

verus! {

/// A canonicalization algorithm. A signature names one for the headers and
/// one for the body, independently.
#[derive(Clone, Copy, Debug, PartialEq, Eq, Structural)]
pub enum Type {
    /// Bytes are kept as they are.
    Simple,
    /// Whitespace and case that transport may change are normalized.
    Relaxed,
}

/// Carriage return, line feed.
pub open spec fn crlf() -> Seq<u8> {
    seq![CR, LF]
}

/// Whether a line ends where `s` begins: `s` is empty or begins with CRLF.
pub open spec fn ends_line(s: Seq<u8>) -> bool {
    s.len() == 0 || (s.len() >= 2 && s[0] == CR && s[1] == LF)
}

/// `s` without its line breaks: without every LF, and without every CR that
/// an LF follows. Inside a header value every line break is a fold or the
/// terminator, so this unfolds the value.
pub open spec fn unfold(s: Seq<u8>) -> Seq<u8>
    decreases s.len(),
{
    if s.len() == 0 {
        Seq::empty()
    } else if s[0] == LF || (s[0] == CR && s.len() > 1 && s[1] == LF) {
        unfold(s.skip(1))
    } else {
        seq![s[0]] + unfold(s.skip(1))
    }
}

/// `s` with every run of spaces and tabs reduced to one space, and with the
/// runs that stand at the end of a line (before CRLF, or at the end of `s`)
/// removed: a space or tab is kept, as a space, exactly where the next byte
/// exists, is no space or tab, and does not begin a CRLF.
pub open spec fn relaxed_lines(s: Seq<u8>) -> Seq<u8>
    decreases s.len(),
{
    if s.len() == 0 {
        Seq::empty()
    } else if is_wsp(s[0]) {
        if (s.len() > 1 && is_wsp(s[1])) || ends_line(s.skip(1)) {
            relaxed_lines(s.skip(1))
        } else {
            seq![SP] + relaxed_lines(s.skip(1))
        }
    } else {
        seq![s[0]] + relaxed_lines(s.skip(1))
    }
}

/// `s` without the CRLF pairs it ends with.
pub open spec fn strip_crlfs(s: Seq<u8>) -> Seq<u8>
    decreases s.len(),
{
    if s.len() >= 2 && s[s.len() - 2] == CR && s[s.len() - 1] == LF {
        strip_crlfs(s.take(s.len() - 2))
    } else {
        s
    }
}

/// The simple form of a header: name, colon and value, byte for byte.
pub open spec fn simple_header(name: Seq<u8>, value: Seq<u8>) -> Seq<u8> {
    name + seq![COLON] + value
}

/// The relaxed form of a header name: lower case, nothing between it and the
/// colon.
pub open spec fn relaxed_name(name: Seq<u8>) -> Seq<u8> {
    lower_seq(trim_end(name, false))
}

/// The relaxed form of a header value: unfolded, runs of whitespace reduced
/// to one space, no whitespace at either end.
pub open spec fn relaxed_value(value: Seq<u8>) -> Seq<u8> {
    trim_start(relaxed_lines(unfold(value)), false)
}

/// The relaxed form of a header: relaxed name, colon, relaxed value, CRLF.
pub open spec fn relaxed_header(name: Seq<u8>, value: Seq<u8>) -> Seq<u8> {
    relaxed_name(name) + seq![COLON] + relaxed_value(value) + crlf()
}

/// The simple form of a body: the body without the empty lines at its end,
/// and one CRLF after it. An empty body becomes a single CRLF.
pub open spec fn simple_body(body: Seq<u8>) -> Seq<u8> {
    strip_crlfs(body) + crlf()
}

/// The relaxed form of a body: whitespace inside lines reduced and at line
/// ends removed, no empty lines at the end, and one CRLF after what is left,
/// if anything is.
pub open spec fn relaxed_body(body: Seq<u8>) -> Seq<u8> {
    let lines = strip_crlfs(relaxed_lines(body));
    if lines.len() == 0 {
        Seq::empty()
    } else {
        lines + crlf()
    }
}

/// The canonical form of a header under `ty`.
pub open spec fn canonical_header(ty: Type, name: Seq<u8>, value: Seq<u8>) -> Seq<u8> {
    match ty {
        Type::Simple => simple_header(name, value),
        Type::Relaxed => relaxed_header(name, value),
    }
}

/// The canonical form of a body under `ty`.
pub open spec fn canonical_body(ty: Type, body: Seq<u8>) -> Seq<u8> {
    match ty {
        Type::Simple => simple_body(body),
        Type::Relaxed => relaxed_body(body),
    }
}

fn unfolded(s: &[u8]) -> (r: Vec<u8>)
    ensures
        r@ == unfold(s@),
{
    let mut out: Vec<u8> = Vec::new();
    let mut i: usize = 0;
    assert(s@.skip(0) =~= s@);
    while i < s.len()
        invariant
            i <= s.len(),
            out@ + unfold(s@.skip(i as int)) == unfold(s@),
        decreases s.len() - i,
    {
        let b = s[i];
        let ghost t = s@.skip(i as int);
        proof {
            assert(t.skip(1) =~= s@.skip(i + 1));
            assert(t[0] == b);
            if i + 1 < s.len() {
                assert(t[1] == s@[i + 1]);
            }
        }
        let breaks = b == LF || (b == CR && i + 1 < s.len() && s[i + 1] == LF);
        if !breaks {
            let ghost before = out@;
            out.push(b);
            assert(out@ + unfold(t.skip(1)) =~= before + (seq![b] + unfold(t.skip(1))));
        }
        i += 1;
    }
    assert(s@.skip(s.len() as int) =~= Seq::<u8>::empty());
    assert(out@ + Seq::<u8>::empty() =~= out@);
    out
}

fn relaxed_lines_of(s: &[u8]) -> (r: Vec<u8>)
    ensures
        r@ == relaxed_lines(s@),
{
    let mut out: Vec<u8> = Vec::new();
    let n = s.len();
    let mut i: usize = 0;
    assert(s@.skip(0) =~= s@);
    while i < n
        invariant
            n == s.len(),
            i <= n,
            out@ + relaxed_lines(s@.skip(i as int)) == relaxed_lines(s@),
        decreases n - i,
    {
        let b = s[i];
        let ghost t = s@.skip(i as int);
        let ghost before = out@;
        proof {
            assert(t.skip(1) =~= s@.skip(i + 1));
            assert(t[0] == b);
            assert(t.len() == n - i);
            if i + 1 < n {
                assert(t[1] == s@[i + 1]);
                assert(t.skip(1)[0] == s@[i + 1]);
            }
            if i + 2 < n {
                assert(t.skip(1)[1] == s@[i + 2]);
            }
        }
        if space(b, false) {
            let run_goes_on = i + 1 < n && space(s[i + 1], false);
            let line_ends = i + 1 == n || (i + 2 < n && s[i + 1] == CR && s[i + 2] == LF);
            assert(line_ends == ends_line(t.skip(1)));
            if !(run_goes_on || line_ends) {
                out.push(SP);
                assert(out@ + relaxed_lines(t.skip(1)) =~= before + (seq![SP] + relaxed_lines(
                    t.skip(1),
                )));
            }
        } else {
            out.push(b);
            assert(out@ + relaxed_lines(t.skip(1)) =~= before + (seq![b] + relaxed_lines(
                t.skip(1),
            )));
        }
        i += 1;
    }
    assert(s@.skip(n as int) =~= Seq::<u8>::empty());
    assert(out@ + Seq::<u8>::empty() =~= out@);
    out
}

/// The length of `s` without the CRLF pairs it ends with.
fn stripped_len(s: &[u8]) -> (r: usize)
    ensures
        r <= s.len(),
        s@.take(r as int) == strip_crlfs(s@),
{
    let mut end: usize = s.len();
    assert(s@.take(end as int) =~= s@);
    while end >= 2 && s[end - 2] == CR && s[end - 1] == LF
        invariant
            end <= s.len(),
            strip_crlfs(s@) == strip_crlfs(s@.take(end as int)),
        decreases end,
    {
        assert(s@.take(end as int).take(end - 2) =~= s@.take(end - 2));
        end -= 2;
    }
    end
}

/// Canonicalizes a header with the simple algorithm.
pub fn canonicalize_header_simple(name: &[u8], value: &[u8]) -> (r: Vec<u8>)
    ensures
        r@ == simple_header(name@, value@),
{
    let mut out: Vec<u8> = copy_range(name, 0, name.len());
    assert(out@ =~= name@);
    out.push(COLON);
    let mut rest = copy_range(value, 0, value.len());
    assert(rest@ =~= value@);
    out.append(&mut rest);
    assert(out@ =~= simple_header(name@, value@));
    out
}

/// Canonicalizes a header with the relaxed algorithm.
pub fn canonicalize_header_relaxed(name: &[u8], value: &[u8]) -> (r: Vec<u8>)
    ensures
        r@ == relaxed_header(name@, value@),
{
    let kept = trimmed_end(name, false);
    let mut out = to_lower_vec(kept.as_slice());
    out.push(COLON);
    let flat = unfolded(value);
    let reduced = relaxed_lines_of(flat.as_slice());
    let mut i: usize = 0;
    assert(reduced@.skip(0) =~= reduced@);
    while i < reduced.len() && space(reduced[i], false)
        invariant
            i <= reduced.len(),
            trim_start(reduced@, false) == trim_start(reduced@.skip(i as int), false),
        decreases reduced.len() - i,
    {
        assert(reduced@.skip(i as int).skip(1) =~= reduced@.skip(i + 1));
        i += 1;
    }
    let mut rest = copy_range(reduced.as_slice(), i, reduced.len());
    assert(rest@ =~= reduced@.skip(i as int));
    out.append(&mut rest);
    out.push(CR);
    out.push(LF);
    assert(out@ =~= relaxed_header(name@, value@));
    out
}

/// Canonicalizes a body with the simple algorithm.
pub fn canonicalize_body_simple(body: &[u8]) -> (r: Vec<u8>)
    ensures
        r@ == simple_body(body@),
{
    let end = stripped_len(body);
    let mut out = copy_range(body, 0, end);
    assert(out@ =~= body@.take(end as int));
    out.push(CR);
    out.push(LF);
    assert(out@ =~= simple_body(body@));
    out
}

/// Canonicalizes a body with the relaxed algorithm.
pub fn canonicalize_body_relaxed(body: &[u8]) -> (r: Vec<u8>)
    ensures
        r@ == relaxed_body(body@),
{
    let reduced = relaxed_lines_of(body);
    let end = stripped_len(reduced.as_slice());
    let mut out = copy_range(reduced.as_slice(), 0, end);
    assert(out@ =~= reduced@.take(end as int));
    if end > 0 {
        out.push(CR);
        out.push(LF);
        assert(out@ =~= relaxed_body(body@));
    }
    out
}

/// Canonicalizes a header with the algorithm that `ty` names.
pub fn canonicalize_header(ty: Type, name: &[u8], value: &[u8]) -> (r: Vec<u8>)
    ensures
        r@ == canonical_header(ty, name@, value@),
{
    match ty {
        Type::Simple => canonicalize_header_simple(name, value),
        Type::Relaxed => canonicalize_header_relaxed(name, value),
    }
}

/// Canonicalizes a body with the algorithm that `ty` names.
pub fn canonicalize_body(ty: Type, body: &[u8]) -> (r: Vec<u8>)
    ensures
        r@ == canonical_body(ty, body@),
{
    match ty {
        Type::Simple => canonicalize_body_simple(body),
        Type::Relaxed => canonicalize_body_relaxed(body),
    }
}

} // verus!
