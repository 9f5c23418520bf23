//! The `tag=value` list that a `DKIM-Signature` header and a key record are
//! written in, and the readers of the values that both share.

use vstd::prelude::*;
use crate::bytes::{
    bytes_eq, find_from, index_of, is_space, space, split, split_on, trim, trimmed, views,
    copy_range, EQUALS, SEMICOLON,
};

verus! {

/// One `tag=value` pair of a list.
#[derive(Clone, Debug)]
pub struct TagSpec {
    name: Vec<u8>,
    value: Vec<u8>,
}

/// What a [`TagSpec`] holds: the name, and the value without the whitespace
/// around it.
pub struct TagView {
    pub name: Seq<u8>,
    pub value: Seq<u8>,
}

impl View for TagSpec {
    type V = TagView;

    closed spec fn view(&self) -> TagView {
        TagView { name: self.name@, value: self.value@ }
    }
}

/// The views of a list of tags.
pub open spec fn tag_views(v: Seq<TagSpec>) -> Seq<TagView> {
    Seq::new(v.len(), |i: int| v[i]@)
}

/// An ASCII letter.
pub open spec fn is_alpha(b: u8) -> bool {
    65 <= b <= 90 || 97 <= b <= 122
}

/// An ASCII digit.
pub open spec fn is_digit(b: u8) -> bool {
    48 <= b <= 57
}

/// A tag name: a letter, then letters, digits and underscores.
pub open spec fn is_tag_name(s: Seq<u8>) -> bool {
    &&& s.len() > 0
    &&& is_alpha(s[0])
    &&& forall|i: int| 0 <= i < s.len() ==> is_alpha(s[i]) || is_digit(s[i]) || s[i] == 95
}

/// The tag that one piece of a list is: name and value stand on the two
/// sides of the first `=`, both without the whitespace around them.
pub open spec fn parse_piece(piece: Seq<u8>) -> Option<TagView> {
    let k = index_of(piece, EQUALS);
    if 0 <= k < piece.len() {
        let name = trim(piece.take(k), true);
        if is_tag_name(name) {
            Some(TagView { name, value: trim(piece.skip(k + 1), true) })
        } else {
            None
        }
    } else {
        None
    }
}

/// The value of the first tag named `name`.
pub open spec fn tag_value(tags: Seq<TagView>, name: Seq<u8>) -> Option<Seq<u8>>
    decreases tags.len(),
{
    if tags.len() == 0 {
        None
    } else if tags[0].name == name {
        Some(tags[0].value)
    } else {
        tag_value(tags.skip(1), name)
    }
}

/// The tags of a sequence of pieces, if every piece is a tag and no name
/// occurs twice.
pub open spec fn tags_of(pieces: Seq<Seq<u8>>) -> Option<Seq<TagView>>
    decreases pieces.len(),
{
    if pieces.len() == 0 {
        Some(Seq::empty())
    } else {
        match (tags_of(pieces.drop_last()), parse_piece(pieces.last())) {
            (Some(before), Some(tag)) => {
                if tag_value(before, tag.name) is Some {
                    None
                } else {
                    Some(before.push(tag))
                }
            },
            _ => None,
        }
    }
}

/// The tags of a list: the pieces between semicolons, each a tag. After the
/// last semicolon nothing but whitespace may follow. `None` where the list
/// is malformed: a piece without `=`, a name that is no tag name, a name
/// that occurs twice, or an empty piece that is not the last.
pub open spec fn parse_tag_list(s: Seq<u8>) -> Option<Seq<TagView>> {
    let pieces = split_on(s, SEMICOLON);
    if pieces.len() > 0 && trim(pieces.last(), true).len() == 0 {
        tags_of(pieces.drop_last())
    } else {
        tags_of(pieces)
    }
}

/// `s` without spaces, tabs, carriage returns and line feeds.
pub open spec fn remove_spaces(s: Seq<u8>) -> Seq<u8>
    decreases s.len(),
{
    if s.len() == 0 {
        Seq::empty()
    } else if is_space(s[0], true) {
        remove_spaces(s.skip(1))
    } else {
        seq![s[0]] + remove_spaces(s.skip(1))
    }
}

/// The number that a string of digits writes in base ten.
pub open spec fn number(s: Seq<u8>) -> nat
    decreases s.len(),
{
    if s.len() == 0 {
        0
    } else {
        (number(s.drop_last()) * 10 + (s.last() - 48)) as nat
    }
}

/// A non-empty string of digits.
pub open spec fn is_digits(s: Seq<u8>) -> bool {
    s.len() > 0 && forall|i: int| 0 <= i < s.len() ==> is_digit(s[i])
}

/// The number that `s` writes, where `s` is a string of digits and the
/// number fits 64 bits.
pub open spec fn parse_number(s: Seq<u8>) -> Option<u64> {
    if is_digits(s) && number(s) <= u64::MAX {
        Some(number(s) as u64)
    } else {
        None
    }
}

proof fn lemma_tags_of_prefix(pieces: Seq<Seq<u8>>, j: int)
    requires
        0 <= j <= pieces.len(),
        tags_of(pieces.take(j)) is None,
    ensures
        tags_of(pieces) is None,
    decreases pieces.len() - j,
{
    if j < pieces.len() {
        assert(pieces.take(j + 1).drop_last() =~= pieces.take(j));
        lemma_tags_of_prefix(pieces, j + 1);
    } else {
        assert(pieces.take(j) =~= pieces);
    }
}

proof fn lemma_number_grows(s: Seq<u8>, j: int)
    requires
        0 <= j <= s.len(),
        forall|i: int| 0 <= i < s.len() ==> is_digit(s[i]),
    ensures
        number(s.take(j)) <= number(s),
    decreases s.len() - j,
{
    if j < s.len() {
        assert(s.take(j + 1).drop_last() =~= s.take(j));
        assert(s.take(j + 1).last() == s[j]);
        lemma_number_grows(s, j + 1);
    } else {
        assert(s.take(j) =~= s);
    }
}

impl TagSpec {
    /// The tag's name.
    pub fn name(&self) -> (r: &[u8])
        ensures
            r@ == self@.name,
    {
        self.name.as_slice()
    }

    /// The tag's value, without the whitespace around it.
    pub fn value(&self) -> (r: &[u8])
        ensures
            r@ == self@.value,
    {
        self.value.as_slice()
    }
}

fn alpha(b: u8) -> (r: bool)
    ensures
        r == is_alpha(b),
{
    (65 <= b && b <= 90) || (97 <= b && b <= 122)
}

fn digit(b: u8) -> (r: bool)
    ensures
        r == is_digit(b),
{
    48 <= b && b <= 57
}

fn tag_name(s: &[u8]) -> (r: bool)
    ensures
        r == is_tag_name(s@),
{
    if s.len() == 0 || !alpha(s[0]) {
        return false;
    }
    let mut i: usize = 0;
    while i < s.len()
        invariant
            i <= s.len(),
            forall|j: int| 0 <= j < i ==> is_alpha(s@[j]) || is_digit(s@[j]) || s@[j] == 95,
        decreases s.len() - i,
    {
        if !(alpha(s[i]) || digit(s[i]) || s[i] == 95) {
            return false;
        }
        i += 1;
    }
    true
}

fn piece_tag(piece: &[u8]) -> (r: Option<TagSpec>)
    ensures
        match r {
            Some(t) => parse_piece(piece@) == Some(t@),
            None => parse_piece(piece@) is None,
        },
{
    assert(piece@.skip(0) =~= piece@);
    let k = find_from(piece, 0, EQUALS);
    if k >= piece.len() {
        return None;
    }
    let left = copy_range(piece, 0, k);
    let right = copy_range(piece, k + 1, piece.len());
    assert(left@ =~= piece@.take(k as int));
    assert(right@ =~= piece@.skip(k + 1));
    let name = trimmed(left.as_slice(), true);
    if !tag_name(name.as_slice()) {
        return None;
    }
    let value = trimmed(right.as_slice(), true);
    Some(TagSpec { name, value })
}

/// The value of the first tag named `name`.
pub fn find_tag<'a>(tags: &'a Vec<TagSpec>, name: &[u8]) -> (r: Option<&'a [u8]>)
    ensures
        match r {
            Some(v) => tag_value(tag_views(tags@), name@) == Some(v@),
            None => tag_value(tag_views(tags@), name@) is None,
        },
{
    let ghost all = tag_views(tags@);
    let mut i: usize = 0;
    assert(all.skip(0) =~= all);
    while i < tags.len()
        invariant
            i <= tags.len(),
            all == tag_views(tags@),
            tag_value(all, name@) == tag_value(all.skip(i as int), name@),
        decreases tags.len() - i,
    {
        proof {
            assert(all.skip(i as int)[0] == tags@[i as int]@);
            assert(all.skip(i as int).skip(1) =~= all.skip(i + 1));
        }
        if bytes_eq(tags[i].name.as_slice(), name) {
            return Some(tags[i].value.as_slice());
        }
        i += 1;
    }
    None
}

/// Reads a `tag=value` list. `None` where the list is malformed.
pub fn read_tag_list(s: &[u8]) -> (r: Option<Vec<TagSpec>>)
    ensures
        match r {
            Some(v) => parse_tag_list(s@) == Some(tag_views(v@)),
            None => parse_tag_list(s@) is None,
        },
{
    let pieces = split(s, SEMICOLON);
    let n = pieces.len();
    let tail = trimmed(pieces[n - 1].as_slice(), true);
    let m = if tail.len() == 0 {
        n - 1
    } else {
        n
    };
    let ghost all = views(pieces@);
    let ghost body = all.take(m as int);
    proof {
        assert(all.last() == pieces@[n - 1]@);
        assert(all.take(n - 1) =~= all.drop_last());
        assert(all.take(n as int) =~= all);
        assert(parse_tag_list(s@) == tags_of(body));
        assert(body.take(0) =~= Seq::<Seq<u8>>::empty());
    }
    let mut out: Vec<TagSpec> = Vec::new();
    let mut i: usize = 0;
    assert(tag_views(out@) =~= Seq::<TagView>::empty());
    while i < m
        invariant
            i <= m <= pieces.len(),
            all == views(pieces@),
            body == all.take(m as int),
            parse_tag_list(s@) == tags_of(body),
            tags_of(body.take(i as int)) == Some(tag_views(out@)),
        decreases m - i,
    {
        proof {
            assert(body.take(i + 1).drop_last() =~= body.take(i as int));
            assert(body.take(i + 1).last() == pieces@[i as int]@);
        }
        let ghost before = tag_views(out@);
        match piece_tag(pieces[i].as_slice()) {
            Some(tag) => {
                if find_tag(&out, tag.name.as_slice()).is_some() {
                    proof {
                        assert(tags_of(body.take(i + 1)) is None);
                        lemma_tags_of_prefix(body, i + 1);
                    }
                    return None;
                }
                out.push(tag);
                assert(tag_views(out@) =~= before.push(tag@));
            },
            None => {
                proof {
                    assert(tags_of(body.take(i + 1)) is None);
                    lemma_tags_of_prefix(body, i + 1);
                }
                return None;
            },
        }
        i += 1;
    }
    assert(body.take(m as int) =~= body);
    Some(out)
}

/// A copy of `s` without spaces, tabs, carriage returns and line feeds.
pub fn without_spaces(s: &[u8]) -> (r: Vec<u8>)
    ensures
        r@ == remove_spaces(s@),
{
    let mut out: Vec<u8> = Vec::new();
    let mut i: usize = 0;
    assert(s@.skip(0) =~= s@);
    while i < s.len()
        invariant
            i <= s.len(),
            out@ + remove_spaces(s@.skip(i as int)) == remove_spaces(s@),
        decreases s.len() - i,
    {
        let b = s[i];
        let ghost t = s@.skip(i as int);
        proof {
            assert(t.skip(1) =~= s@.skip(i + 1));
            assert(t[0] == b);
        }
        if !space(b, true) {
            let ghost before = out@;
            out.push(b);
            assert(out@ + remove_spaces(t.skip(1)) =~= before + (seq![b] + remove_spaces(
                t.skip(1),
            )));
        }
        i += 1;
    }
    assert(s@.skip(s.len() as int) =~= Seq::<u8>::empty());
    assert(out@ + Seq::<u8>::empty() =~= out@);
    out
}

/// Reads a number written in digits. `None` where `s` is empty, holds
/// anything but digits, or writes a number that does not fit 64 bits.
pub fn read_number(s: &[u8]) -> (r: Option<u64>)
    ensures
        r == parse_number(s@),
{
    if s.len() == 0 {
        return None;
    }
    let mut value: u64 = 0;
    let mut i: usize = 0;
    assert(s@.take(0) =~= Seq::<u8>::empty());
    while i < s.len()
        invariant
            i <= s.len(),
            forall|j: int| 0 <= j < i ==> is_digit(s@[j]),
            value == number(s@.take(i as int)),
        decreases s.len() - i,
    {
        let b = s[i];
        if !digit(b) {
            return None;
        }
        proof {
            assert(s@.take(i + 1).drop_last() =~= s@.take(i as int));
            assert(s@.take(i + 1).last() == b);
        }
        let next = match value.checked_mul(10) {
            Some(v) => v.checked_add((b - 48) as u64),
            None => None,
        };
        match next {
            Some(v) => {
                value = v;
            },
            None => {
                proof {
                    assert(number(s@.take(i + 1)) > u64::MAX);
                    if is_digits(s@) {
                        lemma_number_grows(s@, i + 1);
                    }
                }
                return None;
            },
        }
        i += 1;
    }
    assert(s@.take(s.len() as int) =~= s@);
    Some(value)
}

} // verus!
