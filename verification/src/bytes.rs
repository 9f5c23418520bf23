//! Byte classes and the small byte-string operations that the parsers and the
//! canonicalizer share: search, split and join on a separator, trimming,
//! lower-casing.

use vstd::prelude::*;
use vstd::slice::slice_subrange;
use vstd::slice::slice_to_vec;
use vstd::utf8::is_ascii_chars;
use vstd::utf8::is_ascii_chars_encode_utf8;

verus! {

pub const HTAB: u8 = 9;
pub const LF: u8 = 10;
pub const CR: u8 = 13;
pub const SP: u8 = 32;
pub const COLON: u8 = 58;
pub const SEMICOLON: u8 = 59;
pub const EQUALS: u8 = 61;

/// Space or horizontal tab.
pub open spec fn is_wsp(b: u8) -> bool {
    b == SP || b == HTAB
}

/// A byte that trimming removes: space or tab, and with `folding` also the
/// carriage return and line feed of a folded line.
pub open spec fn is_space(b: u8, folding: bool) -> bool {
    is_wsp(b) || (folding && (b == CR || b == LF))
}

/// The lower-case form of an ASCII letter; any other byte is itself.
pub open spec fn lower(b: u8) -> u8 {
    if 65 <= b <= 90 {
        (b + 32) as u8
    } else {
        b
    }
}

/// `s` with every ASCII letter in lower case.
pub open spec fn lower_seq(s: Seq<u8>) -> Seq<u8> {
    Seq::new(s.len(), |i: int| lower(s[i]))
}

/// Equality of byte strings up to the case of ASCII letters.
pub open spec fn eq_ignore_case(a: Seq<u8>, b: Seq<u8>) -> bool {
    lower_seq(a) == lower_seq(b)
}

/// The bytes of an ASCII text.
pub open spec fn ascii(text: Seq<char>) -> Seq<u8> {
    Seq::new(text.len(), |i: int| text[i] as u8)
}

/// The index of the first `b` in `s`, or `s.len()` where there is none.
pub open spec fn index_of(s: Seq<u8>, b: u8) -> int
    decreases s.len(),
{
    if s.len() == 0 || s[0] == b {
        0
    } else {
        1 + index_of(s.skip(1), b)
    }
}

/// The pieces of `s` between occurrences of `sep`. There is always at least
/// one piece, and one more piece than there are separators.
pub open spec fn split_on(s: Seq<u8>, sep: u8) -> Seq<Seq<u8>>
    decreases s.len(),
{
    let k = index_of(s, sep);
    if 0 <= k < s.len() {
        seq![s.take(k)] + split_on(s.skip(k + 1), sep)
    } else {
        seq![s]
    }
}

/// The pieces written one after the other with `sep` between them.
pub open spec fn join_on(pieces: Seq<Seq<u8>>, sep: u8) -> Seq<u8>
    decreases pieces.len(),
{
    if pieces.len() == 0 {
        Seq::empty()
    } else if pieces.len() == 1 {
        pieces[0]
    } else {
        pieces[0] + seq![sep] + join_on(pieces.skip(1), sep)
    }
}

/// `s` without the spaces it starts with.
pub open spec fn trim_start(s: Seq<u8>, folding: bool) -> Seq<u8>
    decreases s.len(),
{
    if s.len() > 0 && is_space(s[0], folding) {
        trim_start(s.skip(1), folding)
    } else {
        s
    }
}

/// `s` without the spaces it ends with.
pub open spec fn trim_end(s: Seq<u8>, folding: bool) -> Seq<u8>
    decreases s.len(),
{
    if s.len() > 0 && is_space(s.last(), folding) {
        trim_end(s.drop_last(), folding)
    } else {
        s
    }
}

/// `s` without the spaces at either end.
pub open spec fn trim(s: Seq<u8>, folding: bool) -> Seq<u8> {
    trim_end(trim_start(s, folding), folding)
}

/// The pieces, each without the whitespace around it, folds included.
pub open spec fn trim_all(pieces: Seq<Seq<u8>>) -> Seq<Seq<u8>> {
    Seq::new(pieces.len(), |i: int| trim(pieces[i], true))
}

/// The views of a vector of byte vectors.
pub open spec fn views(v: Seq<Vec<u8>>) -> Seq<Seq<u8>> {
    Seq::new(v.len(), |i: int| v[i]@)
}

/// `index_of` finds the first occurrence.
pub proof fn lemma_index_of(s: Seq<u8>, b: u8)
    ensures
        0 <= index_of(s, b) <= s.len(),
        index_of(s, b) < s.len() ==> s[index_of(s, b)] == b,
        forall|i: int| 0 <= i < index_of(s, b) ==> s[i] != b,
    decreases s.len(),
{
    if s.len() == 0 || s[0] == b {
    } else {
        lemma_index_of(s.skip(1), b);
        let k = index_of(s.skip(1), b);
        assert forall|i: int| 0 <= i < 1 + k implies s[i] != b by {
            if i > 0 {
                assert(s.skip(1)[i - 1] == s[i]);
            }
        }
    }
}

/// An index that holds `b` and has no `b` before it is `index_of`; so is the
/// length where there is no `b` at all.
pub proof fn lemma_index_of_is(s: Seq<u8>, b: u8, k: int)
    requires
        0 <= k <= s.len(),
        k < s.len() ==> s[k] == b,
        forall|i: int| 0 <= i < k ==> s[i] != b,
    ensures
        index_of(s, b) == k,
{
    lemma_index_of(s, b);
    let j = index_of(s, b);
    if j < k {
        assert(s[j] != b);
    }
}

/// Joining the pieces of a split gives the string back.
pub proof fn lemma_join_split(s: Seq<u8>, sep: u8)
    ensures
        join_on(split_on(s, sep), sep) == s,
        split_on(s, sep).len() >= 1,
    decreases s.len(),
{
    lemma_index_of(s, sep);
    let k = index_of(s, sep);
    if 0 <= k < s.len() {
        let rest = s.skip(k + 1);
        lemma_join_split(rest, sep);
        let pieces = split_on(s, sep);
        assert(pieces.skip(1) =~= split_on(rest, sep));
        assert(pieces[0] == s.take(k));
        assert(s =~= s.take(k) + seq![sep] + rest);
    } else {
    }
}

/// Whether `b` is a space in the sense of [`is_space`].
pub fn space(b: u8, folding: bool) -> (r: bool)
    ensures
        r == is_space(b, folding),
{
    b == SP || b == HTAB || (folding && (b == CR || b == LF))
}

/// The lower-case form of `b`.
pub fn to_lower(b: u8) -> (r: u8)
    ensures
        r == lower(b),
{
    if 65 <= b && b <= 90 {
        b + 32
    } else {
        b
    }
}

/// A copy of `s` with every ASCII letter in lower case.
pub fn to_lower_vec(s: &[u8]) -> (r: Vec<u8>)
    ensures
        r@ == lower_seq(s@),
{
    let mut out: Vec<u8> = Vec::new();
    let mut i: usize = 0;
    while i < s.len()
        invariant
            i <= s.len(),
            out@.len() == i,
            forall|j: int| 0 <= j < i ==> out@[j] == lower(s@[j]),
        decreases s.len() - i,
    {
        out.push(to_lower(s[i]));
        i += 1;
    }
    assert(out@ =~= lower_seq(s@));
    out
}

/// Whether the two byte strings are equal.
pub fn bytes_eq(a: &[u8], b: &[u8]) -> (r: bool)
    ensures
        r == (a@ == b@),
{
    if a.len() != b.len() {
        return false;
    }
    let mut i: usize = 0;
    while i < a.len()
        invariant
            i <= a.len(),
            a.len() == b.len(),
            forall|j: int| 0 <= j < i ==> a@[j] == b@[j],
        decreases a.len() - i,
    {
        if a[i] != b[i] {
            return false;
        }
        i += 1;
    }
    assert(a@ =~= b@);
    true
}

/// Whether the two byte strings are equal up to the case of ASCII letters.
pub fn bytes_eq_ignore_case(a: &[u8], b: &[u8]) -> (r: bool)
    ensures
        r == eq_ignore_case(a@, b@),
{
    if a.len() != b.len() {
        assert(lower_seq(a@).len() != lower_seq(b@).len());
        return false;
    }
    let mut i: usize = 0;
    while i < a.len()
        invariant
            i <= a.len(),
            a.len() == b.len(),
            forall|j: int| 0 <= j < i ==> lower(a@[j]) == lower(b@[j]),
        decreases a.len() - i,
    {
        if to_lower(a[i]) != to_lower(b[i]) {
            assert(lower_seq(a@)[i as int] != lower_seq(b@)[i as int]);
            return false;
        }
        i += 1;
    }
    assert(lower_seq(a@) =~= lower_seq(b@));
    true
}

/// The bytes of an ASCII text.
pub(crate) fn text(t: &str) -> (r: &[u8])
    requires
        is_ascii_chars(t@),
    ensures
        r@ == ascii(t@),
{
    let r = t.as_bytes();
    proof {
        is_ascii_chars_encode_utf8(t@);
        assert(r@ =~= ascii(t@));
    }
    r
}

/// Whether `s` is the ASCII text `text`.
pub(crate) fn is_text(s: &[u8], text: &str) -> (r: bool)
    ensures
        is_ascii_chars(text@) ==> r == (s@ == ascii(text@)),
{
    let t = text.as_bytes();
    proof {
        if is_ascii_chars(text@) {
            is_ascii_chars_encode_utf8(text@);
            assert(t@ =~= ascii(text@));
        }
    }
    bytes_eq(s, t)
}

/// A copy of the bytes of `s` from `from` up to `to`.
pub(crate) fn copy_range(s: &[u8], from: usize, to: usize) -> (r: Vec<u8>)
    requires
        from <= to <= s.len(),
    ensures
        r@ == s@.subrange(from as int, to as int),
{
    slice_to_vec(slice_subrange(s, from, to))
}

/// The index of the first `b` at or after `from`, or the length of `s`.
pub(crate) fn find_from(s: &[u8], from: usize, b: u8) -> (r: usize)
    requires
        from <= s.len(),
    ensures
        r == from + index_of(s@.skip(from as int), b),
        from <= r <= s.len(),
{
    let mut i: usize = from;
    proof {
        lemma_index_of(s@.skip(from as int), b);
    }
    while i < s.len() && s[i] != b
        invariant
            from <= i <= s.len(),
            forall|j: int| from <= j < i ==> s@[j] != b,
        decreases s.len() - i,
    {
        i += 1;
    }
    proof {
        let t = s@.skip(from as int);
        assert forall|j: int| 0 <= j < i - from implies t[j] != b by {
            assert(t[j] == s@[from + j]);
        }
        lemma_index_of_is(t, b, i - from);
    }
    i
}

/// The pieces of `s` between occurrences of `sep`.
pub fn split(s: &[u8], sep: u8) -> (r: Vec<Vec<u8>>)
    ensures
        views(r@) == split_on(s@, sep),
        r@.len() >= 1,
{
    let mut out: Vec<Vec<u8>> = Vec::new();
    let mut pos: usize = 0;
    proof {
        assert(s@.skip(0) =~= s@);
        assert(views(out@) + split_on(s@, sep) =~= split_on(s@, sep));
    }
    loop
        invariant
            pos <= s.len(),
            views(out@) + split_on(s@.skip(pos as int), sep) == split_on(s@, sep),
        decreases s.len() - pos,
    {
        let end = find_from(s, pos, sep);
        let piece = copy_range(s, pos, end);
        let ghost before = views(out@);
        let ghost rest = s@.skip(pos as int);
        proof {
            assert(piece@ =~= rest.take(end - pos));
        }
        out.push(piece);
        assert(views(out@) =~= before.push(piece@));
        if end < s.len() {
            proof {
                assert(rest.skip(end - pos + 1) =~= s@.skip(end + 1));
                assert(before.push(piece@) + split_on(s@.skip(end + 1), sep) =~= before + split_on(
                    rest,
                    sep,
                ));
            }
            pos = end + 1;
        } else {
            proof {
                assert(rest.take(end - pos) =~= rest);
                assert(before.push(piece@) =~= before + split_on(rest, sep));
            }
            return out;
        }
    }
}

/// The pieces of `s` between occurrences of `sep`, each without the
/// whitespace around it.
pub fn split_trimmed(s: &[u8], sep: u8) -> (r: Vec<Vec<u8>>)
    ensures
        views(r@) == trim_all(split_on(s@, sep)),
{
    let pieces = split(s, sep);
    let mut out: Vec<Vec<u8>> = Vec::new();
    let mut i: usize = 0;
    while i < pieces.len()
        invariant
            i <= pieces.len(),
            views(pieces@) == split_on(s@, sep),
            out@.len() == i,
            forall|j: int| 0 <= j < i ==> (#[trigger] out@[j])@ == trim(pieces@[j]@, true),
        decreases pieces.len() - i,
    {
        let piece = trimmed(pieces[i].as_slice(), true);
        out.push(piece);
        i += 1;
    }
    proof {
        let want = trim_all(split_on(s@, sep));
        assert(views(out@).len() == want.len());
        assert forall|j: int| 0 <= j < want.len() implies views(out@)[j] == want[j] by {
            assert(views(pieces@)[j] == pieces@[j]@);
            assert(out@[j]@ == trim(pieces@[j]@, true));
        }
        assert(views(out@) =~= want);
    }
    out
}

/// The pieces written one after the other with `sep` between them.
pub fn join(pieces: &Vec<Vec<u8>>, sep: u8) -> (r: Vec<u8>)
    ensures
        r@ == join_on(views(pieces@), sep),
{
    let mut out: Vec<u8> = Vec::new();
    let mut i: usize = pieces.len();
    let ghost all = views(pieces@);
    assert(all.skip(i as int) =~= Seq::<Seq<u8>>::empty());
    while i > 0
        invariant
            i <= pieces.len(),
            all == views(pieces@),
            out@ == join_on(all.skip(i as int), sep),
        decreases i,
    {
        i -= 1;
        let ghost tail = all.skip(i as int);
        proof {
            assert(tail.skip(1) =~= all.skip(i + 1));
            assert(tail[0] == pieces@[i as int]@);
        }
        let mut next: Vec<u8> = slice_to_vec(pieces[i].as_slice());
        if i + 1 < pieces.len() {
            next.push(sep);
            next.append(&mut out);
        }
        out = next;
    }
    assert(all.skip(0) =~= all);
    out
}

/// A copy of `s` without the spaces at its end.
pub fn trimmed_end(s: &[u8], folding: bool) -> (r: Vec<u8>)
    ensures
        r@ == trim_end(s@, folding),
{
    let mut j: usize = s.len();
    assert(s@.take(j as int) =~= s@);
    while j > 0 && space(s[j - 1], folding)
        invariant
            j <= s.len(),
            trim_end(s@, folding) == trim_end(s@.take(j as int), folding),
        decreases j,
    {
        assert(s@.take(j as int).drop_last() =~= s@.take(j - 1));
        j -= 1;
    }
    let out = copy_range(s, 0, j);
    assert(out@ =~= s@.take(j as int));
    out
}

/// A copy of `s` without the spaces at either end.
pub fn trimmed(s: &[u8], folding: bool) -> (r: Vec<u8>)
    ensures
        r@ == trim(s@, folding),
{
    let mut i: usize = 0;
    assert(s@.skip(0) =~= s@);
    while i < s.len() && space(s[i], folding)
        invariant
            i <= s.len(),
            trim_start(s@, folding) == trim_start(s@.skip(i as int), folding),
        decreases s.len() - i,
    {
        assert(s@.skip(i as int).skip(1) =~= s@.skip(i + 1));
        i += 1;
    }
    let mut j: usize = s.len();
    assert(s@.skip(i as int) =~= s@.subrange(i as int, j as int));
    while j > i && space(s[j - 1], folding)
        invariant
            i <= j <= s.len(),
            trim(s@, folding) == trim_end(s@.subrange(i as int, j as int), folding),
        decreases j,
    {
        assert(s@.subrange(i as int, j as int).drop_last() =~= s@.subrange(i as int, j - 1));
        j -= 1;
    }
    copy_range(s, i, j)
}

} // verus!
