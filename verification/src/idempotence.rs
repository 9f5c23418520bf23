//! Canonical forms are fixed points: canonicalizing what an algorithm has
//! produced, with the same algorithm, changes nothing.

use vstd::prelude::*;
use crate::bytes::{
    index_of, is_space, is_wsp, lemma_index_of, lemma_index_of_is, lower, lower_seq, trim_end,
    trim_start, COLON, CR, LF, SP,
};
use crate::canonicalization::{
    canonical_body, canonical_header, crlf, ends_line, relaxed_body, relaxed_lines,
    relaxed_name, relaxed_value, simple_body, strip_crlfs, unfold, Type,
};

verus! {

/// What holds of a space at index `i` of a reduced string: it is a space
/// byte, a byte follows it, and that byte is neither whitespace nor the
/// beginning of a CRLF.
pub open spec fn lone_space(s: Seq<u8>, i: int) -> bool {
    &&& s[i] == SP
    &&& i + 1 < s.len()
    &&& !is_wsp(s[i + 1])
    &&& !(s[i + 1] == CR && i + 2 < s.len() && s[i + 2] == LF)
}

/// A string in which whitespace occurs only as single spaces inside lines.
pub open spec fn reduced(s: Seq<u8>) -> bool {
    forall|i: int| 0 <= i < s.len() && is_wsp(s[i]) ==> #[trigger] lone_space(s, i)
}

/// A string without a line feed.
pub open spec fn one_line(s: Seq<u8>) -> bool {
    forall|i: int| 0 <= i < s.len() ==> s[i] != LF
}

proof fn lemma_reduced_fixed(s: Seq<u8>)
    requires
        reduced(s),
    ensures
        relaxed_lines(s) == s,
    decreases s.len(),
{
    if s.len() == 0 {
        assert(relaxed_lines(s) =~= s);
    } else {
        let t = s.skip(1);
        assert forall|j: int| 0 <= j < t.len() && is_wsp(t[j]) implies #[trigger] lone_space(
            t,
            j,
        ) by {
            assert(lone_space(s, j + 1));
        }
        lemma_reduced_fixed(t);
        if is_wsp(s[0]) {
            assert(lone_space(s, 0));
            assert(t[0] == s[1]);
            if t.len() >= 2 {
                assert(t[1] == s[2]);
            }
            assert(!ends_line(t));
            assert(seq![SP] + t =~= s);
        } else {
            assert(seq![s[0]] + t =~= s);
        }
    }
}

proof fn lemma_relaxed_first(u: Seq<u8>)
    ensures
        relaxed_lines(u).len() > 0 ==> u.len() > 0,
        relaxed_lines(u).len() > 0 && relaxed_lines(u)[0] == LF ==> u[0] == LF,
        u.len() > 0 && !is_wsp(u[0]) ==> relaxed_lines(u).len() > 0 && relaxed_lines(u)[0] == u[0],
    decreases u.len(),
{
    if u.len() > 0 {
        lemma_relaxed_first(u.skip(1));
    }
}

proof fn lemma_relaxed_is_reduced(s: Seq<u8>)
    ensures
        reduced(relaxed_lines(s)),
    decreases s.len(),
{
    if s.len() > 0 {
        let r = relaxed_lines(s);
        let t = s.skip(1);
        let rt = relaxed_lines(t);
        lemma_relaxed_is_reduced(t);
        if is_wsp(s[0]) && ((s.len() > 1 && is_wsp(s[1])) || ends_line(t)) {
        } else {
            let head = if is_wsp(s[0]) {
                SP
            } else {
                s[0]
            };
            assert(r == seq![head] + rt);
            assert forall|i: int| 0 <= i < r.len() && is_wsp(r[i]) implies #[trigger] lone_space(
                r,
                i,
            ) by {
                if i == 0 {
                    assert(t[0] == s[1]);
                    lemma_relaxed_first(t);
                    lemma_relaxed_first(t.skip(1));
                    assert(rt == seq![t[0]] + relaxed_lines(t.skip(1)));
                    assert(r[1] == t[0]);
                    if r.len() > 2 {
                        assert(r[2] == relaxed_lines(t.skip(1))[0]);
                        if r[1] == CR && r[2] == LF {
                            assert(t.skip(1)[0] == LF);
                            assert(t[1] == LF);
                        }
                    }
                } else {
                    assert(r[i] == rt[i - 1]);
                    assert(lone_space(rt, i - 1));
                    assert(r[i + 1] == rt[i]);
                    if i + 2 < r.len() {
                        assert(r[i + 2] == rt[i + 1]);
                    }
                }
            }
        }
    }
}

proof fn lemma_strip_keeps_reduced(s: Seq<u8>)
    requires
        reduced(s),
    ensures
        reduced(strip_crlfs(s)),
    decreases s.len(),
{
    if s.len() >= 2 && s[s.len() - 2] == CR && s[s.len() - 1] == LF {
        let n = s.len() - 2;
        let p = s.take(n);
        assert forall|i: int| 0 <= i < p.len() && is_wsp(p[i]) implies #[trigger] lone_space(
            p,
            i,
        ) by {
            assert(lone_space(s, i));
            assert(i + 1 < n);
            assert(p[i + 1] == s[i + 1]);
            if i + 2 < n {
                assert(p[i + 2] == s[i + 2]);
            }
        }
        lemma_strip_keeps_reduced(p);
    }
}

proof fn lemma_crlf_keeps_reduced(y: Seq<u8>)
    requires
        reduced(y),
    ensures
        reduced(y + crlf()),
{
    let z = y + crlf();
    assert forall|i: int| 0 <= i < z.len() && is_wsp(z[i]) implies #[trigger] lone_space(z, i) by {
        if i < y.len() {
            assert(lone_space(y, i));
            assert(z[i + 1] == y[i + 1]);
            if i + 2 < y.len() {
                assert(z[i + 2] == y[i + 2]);
            } else {
                assert(z[i + 2] == CR);
            }
        }
    }
}

proof fn lemma_strip_appended(y: Seq<u8>)
    ensures
        strip_crlfs(y + crlf()) == strip_crlfs(y),
{
    let z = y + crlf();
    assert(z[z.len() - 2] == CR && z[z.len() - 1] == LF);
    assert(z.take(z.len() - 2) =~= y);
}

proof fn lemma_strip_fixed(s: Seq<u8>)
    ensures
        strip_crlfs(strip_crlfs(s)) == strip_crlfs(s),
    decreases s.len(),
{
    if s.len() >= 2 && s[s.len() - 2] == CR && s[s.len() - 1] == LF {
        lemma_strip_fixed(s.take(s.len() - 2));
    }
}

proof fn lemma_unfold_one_line(s: Seq<u8>)
    ensures
        one_line(unfold(s)),
    decreases s.len(),
{
    if s.len() > 0 {
        lemma_unfold_one_line(s.skip(1));
    }
}

proof fn lemma_relaxed_one_line(s: Seq<u8>)
    requires
        one_line(s),
    ensures
        one_line(relaxed_lines(s)),
    decreases s.len(),
{
    if s.len() > 0 {
        let t = s.skip(1);
        assert forall|i: int| 0 <= i < t.len() implies t[i] != LF by {
            assert(t[i] == s[i + 1]);
        }
        lemma_relaxed_one_line(t);
    }
}

proof fn lemma_trim_start_suffix(s: Seq<u8>, folding: bool)
    ensures
        trim_start(s, folding).len() <= s.len(),
        trim_start(s, folding) == s.skip(s.len() - trim_start(s, folding).len()),
        trim_start(s, folding).len() > 0 ==> !is_space(trim_start(s, folding)[0], folding),
    decreases s.len(),
{
    if s.len() > 0 && is_space(s[0], folding) {
        lemma_trim_start_suffix(s.skip(1), folding);
        let r = trim_start(s, folding);
        assert(s.skip(1).skip(s.len() - 1 - r.len()) =~= s.skip(s.len() - r.len()));
    } else {
        assert(s.skip(0) =~= s);
    }
}

proof fn lemma_trim_end_prefix(s: Seq<u8>, folding: bool)
    ensures
        trim_end(s, folding).len() <= s.len(),
        trim_end(s, folding) == s.take(trim_end(s, folding).len() as int),
        trim_end(s, folding).len() > 0 ==> !is_space(trim_end(s, folding).last(), folding),
    decreases s.len(),
{
    if s.len() > 0 && is_space(s.last(), folding) {
        lemma_trim_end_prefix(s.drop_last(), folding);
        let r = trim_end(s, folding);
        assert(s.drop_last().take(r.len() as int) =~= s.take(r.len() as int));
    } else {
        assert(s.take(s.len() as int) =~= s);
    }
}

proof fn lemma_unfold_terminated(v: Seq<u8>)
    requires
        one_line(v),
    ensures
        unfold(v + crlf()) == v,
    decreases v.len(),
{
    let z = v + crlf();
    if v.len() == 0 {
        assert(z.skip(1) =~= seq![LF]);
        assert(seq![LF].skip(1) =~= Seq::<u8>::empty());
        assert(unfold(seq![LF]) == unfold(Seq::<u8>::empty()));
        assert(unfold(z) =~= v);
    } else {
        let t = v.skip(1);
        assert forall|i: int| 0 <= i < t.len() implies t[i] != LF by {
            assert(t[i] == v[i + 1]);
        }
        lemma_unfold_terminated(t);
        assert(z.skip(1) =~= t + crlf());
        assert(z[0] == v[0]);
        if v.len() > 1 {
            assert(z[1] == v[1]);
        } else {
            assert(z[1] == CR);
        }
        assert(seq![v[0]] + t =~= v);
    }
}

/// A body in simple form is its own simple form.
pub proof fn lemma_simple_body_idempotent(body: Seq<u8>)
    ensures
        simple_body(simple_body(body)) == simple_body(body),
{
    lemma_strip_appended(strip_crlfs(body));
    lemma_strip_fixed(body);
}

/// A body in relaxed form is its own relaxed form.
pub proof fn lemma_relaxed_body_idempotent(body: Seq<u8>)
    ensures
        relaxed_body(relaxed_body(body)) == relaxed_body(body),
{
    let c = relaxed_lines(body);
    let y = strip_crlfs(c);
    if y.len() == 0 {
        assert(relaxed_body(body) =~= Seq::<u8>::empty());
        assert(relaxed_lines(Seq::<u8>::empty()) =~= Seq::<u8>::empty());
    } else {
        let out = y + crlf();
        lemma_relaxed_is_reduced(body);
        lemma_strip_keeps_reduced(c);
        lemma_crlf_keeps_reduced(y);
        lemma_reduced_fixed(out);
        lemma_strip_appended(y);
        lemma_strip_fixed(c);
    }
}

/// Canonicalizing a canonical body again, with the same algorithm, gives the
/// same bytes.
pub proof fn lemma_body_idempotent(ty: Type, body: Seq<u8>)
    ensures
        canonical_body(ty, canonical_body(ty, body)) == canonical_body(ty, body),
{
    match ty {
        Type::Simple => lemma_simple_body_idempotent(body),
        Type::Relaxed => lemma_relaxed_body_idempotent(body),
    }
}

/// A relaxed header name is its own relaxed form, and holds a colon only
/// where the name it was made from does.
pub proof fn lemma_relaxed_name_fixed(name: Seq<u8>)
    ensures
        relaxed_name(relaxed_name(name)) == relaxed_name(name),
        index_of(name, COLON) == name.len() ==> index_of(relaxed_name(name), COLON)
            == relaxed_name(name).len(),
{
    let kept = trim_end(name, false);
    let rn = relaxed_name(name);
    lemma_trim_end_prefix(name, false);
    lemma_trim_end_prefix(rn, false);
    if rn.len() > 0 {
        assert(rn.last() == lower(kept.last()));
        assert(trim_end(rn, false) == rn);
    } else {
        assert(trim_end(rn, false) == rn);
    }
    assert(lower_seq(rn) =~= rn);
    if index_of(name, COLON) == name.len() {
        lemma_index_of(name, COLON);
        assert forall|i: int| 0 <= i < rn.len() implies rn[i] != COLON by {
            assert(kept[i] == name[i]);
            assert(rn[i] == lower(kept[i]));
        }
        lemma_index_of_is(rn, COLON, rn.len() as int);
    }
}

/// A relaxed header value, followed by the CRLF that the relaxed header ends
/// with, has itself as its relaxed form.
pub proof fn lemma_relaxed_value_fixed(value: Seq<u8>)
    ensures
        relaxed_value(relaxed_value(value) + crlf()) == relaxed_value(value),
{
    let u = unfold(value);
    let c = relaxed_lines(u);
    let rv = trim_start(c, false);
    lemma_unfold_one_line(value);
    lemma_relaxed_one_line(u);
    lemma_relaxed_is_reduced(u);
    lemma_trim_start_suffix(c, false);
    let k = c.len() - rv.len();
    assert forall|i: int| 0 <= i < rv.len() implies rv[i] != LF by {
        assert(rv[i] == c[k + i]);
    }
    assert forall|i: int| 0 <= i < rv.len() && is_wsp(rv[i]) implies #[trigger] lone_space(
        rv,
        i,
    ) by {
        assert(rv[i] == c[k + i]);
        assert(lone_space(c, k + i));
        assert(rv[i + 1] == c[k + i + 1]);
        if i + 2 < rv.len() {
            assert(rv[i + 2] == c[k + i + 2]);
        }
    }
    lemma_unfold_terminated(rv);
    lemma_reduced_fixed(rv);
}

/// Canonicalizing a canonical header again, with the same algorithm, gives
/// the same bytes. The canonical header is read as a header is read: the name
/// is what stands before its first colon, the value all that follows. The
/// name that was canonicalized holds no colon, as no header name does.
pub proof fn lemma_header_idempotent(ty: Type, name: Seq<u8>, value: Seq<u8>)
    requires
        index_of(name, COLON) == name.len(),
    ensures
        ({
            let line = canonical_header(ty, name, value);
            let k = index_of(line, COLON);
            canonical_header(ty, line.take(k), line.skip(k + 1)) == line
        }),
{
    let line = canonical_header(ty, name, value);
    match ty {
        Type::Simple => {
            lemma_index_of(name, COLON);
            assert forall|i: int| 0 <= i < name.len() implies line[i] != COLON by {
                assert(line[i] == name[i]);
            }
            assert(line[name.len() as int] == COLON);
            lemma_index_of_is(line, COLON, name.len() as int);
            assert(line.take(name.len() as int) =~= name);
            assert(line.skip(name.len() as int + 1) =~= value);
        },
        Type::Relaxed => {
            let rn = relaxed_name(name);
            let rv = relaxed_value(value);
            lemma_relaxed_name_fixed(name);
            lemma_relaxed_value_fixed(value);
            lemma_index_of(rn, COLON);
            assert forall|i: int| 0 <= i < rn.len() implies line[i] != COLON by {
                assert(line[i] == rn[i]);
            }
            assert(line[rn.len() as int] == COLON);
            lemma_index_of_is(line, COLON, rn.len() as int);
            assert(line.take(rn.len() as int) =~= rn);
            assert(line.skip(rn.len() as int + 1) =~= rv + crlf());
        },
    }
}

} // verus!
