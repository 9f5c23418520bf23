//! A raw message as an ordered list of headers and a body, every byte kept.

use vstd::prelude::*;
use vstd::slice::slice_subrange;
use crate::bytes::{
    bytes_eq_ignore_case, copy_range, find_from, index_of, is_wsp, lemma_index_of,
    lemma_index_of_is, lower_seq, space, trimmed_end, COLON, CR, LF,
};
use crate::canonicalization::relaxed_name;

verus! {

/// One header field of a message: the bytes before its first colon, and the
/// bytes after it up to and including the line terminator, folds included.
#[derive(Clone, Debug)]
pub struct Header {
    name: Vec<u8>,
    value: Vec<u8>,
}

/// What a [`Header`] holds.
pub struct HeaderView {
    pub name: Seq<u8>,
    pub value: Seq<u8>,
}

/// A message split into its headers, in the order of the wire, and its body.
#[derive(Clone, Debug)]
pub struct RawMessage {
    headers: Vec<Header>,
    body: Vec<u8>,
}

/// What a [`RawMessage`] holds.
pub struct MessageView {
    pub headers: Seq<HeaderView>,
    pub body: Seq<u8>,
}

impl View for Header {
    type V = HeaderView;

    closed spec fn view(&self) -> HeaderView {
        HeaderView { name: self.name@, value: self.value@ }
    }
}

/// The views of a list of headers.
pub open spec fn header_views(v: Seq<Header>) -> Seq<HeaderView> {
    Seq::new(v.len(), |i: int| v[i]@)
}

impl View for RawMessage {
    type V = MessageView;

    closed spec fn view(&self) -> MessageView {
        MessageView { headers: header_views(self.headers@), body: self.body@ }
    }
}

/// Whether an empty line stands at `p`: `p` is the start of a line, and a
/// line terminator, CRLF or a bare LF, stands there.
pub open spec fn separator_at(s: Seq<u8>, p: int) -> bool {
    &&& 0 <= p < s.len()
    &&& p == 0 || s[p - 1] == LF
    &&& s[p] == LF || (s[p] == CR && p + 1 < s.len() && s[p + 1] == LF)
}

/// The index of the first empty line at or after `from`, or the length of
/// `s` where there is none.
pub open spec fn first_separator(s: Seq<u8>, from: int) -> int
    decreases s.len() - from,
{
    if from < 0 || from >= s.len() {
        s.len() as int
    } else if separator_at(s, from) {
        from
    } else {
        first_separator(s, from + 1)
    }
}

/// The header section: all that stands before the first empty line.
pub open spec fn header_block(s: Seq<u8>) -> Seq<u8> {
    s.take(first_separator(s, 0))
}

/// The body: all that stands after the first empty line, or nothing where
/// there is no empty line.
pub open spec fn body_of(s: Seq<u8>) -> Seq<u8> {
    let p = first_separator(s, 0);
    if 0 <= p < s.len() {
        if s[p] == LF {
            s.skip(p + 1)
        } else {
            s.skip(p + 2)
        }
    } else {
        Seq::empty()
    }
}

/// The index at or after `q` at which the next header field begins: the
/// first index that follows a line feed and holds no space or tab. The
/// length of `s` where there is none.
pub open spec fn field_end(s: Seq<u8>, q: int) -> int
    decreases s.len() - q,
{
    if q < 1 || q >= s.len() {
        s.len() as int
    } else if s[q - 1] == LF && !is_wsp(s[q]) {
        q
    } else {
        field_end(s, q + 1)
    }
}

/// The headers of a header section, in order. A field is a line with the
/// continuation lines that follow it; a field without a colon has no name
/// and is left out.
pub open spec fn header_list(s: Seq<u8>) -> Seq<HeaderView>
    decreases s.len(),
{
    if s.len() == 0 {
        Seq::empty()
    } else {
        let n = field_end(s, 1);
        if 0 < n <= s.len() {
            let field = s.take(n);
            let k = index_of(field, COLON);
            let rest = header_list(s.skip(n));
            if 0 <= k < field.len() {
                seq![HeaderView { name: field.take(k), value: field.skip(k + 1) }] + rest
            } else {
                rest
            }
        } else {
            Seq::empty()
        }
    }
}

/// The message that a sequence of bytes is.
pub open spec fn parse_message(s: Seq<u8>) -> MessageView {
    MessageView { headers: header_list(header_block(s)), body: body_of(s) }
}

/// Whether a header with the name `name` is meant by `wanted`: the names are
/// equal up to case, and up to whitespace between the name and the colon.
pub open spec fn name_matches(name: Seq<u8>, wanted: Seq<u8>) -> bool {
    relaxed_name(name) == lower_seq(wanted)
}

/// The indices of the headers that `wanted` means, in the order of the
/// message.
pub open spec fn indices_named(headers: Seq<HeaderView>, wanted: Seq<u8>) -> Seq<int>
    decreases headers.len(),
{
    if headers.len() == 0 {
        Seq::empty()
    } else {
        let before = indices_named(headers.drop_last(), wanted);
        if name_matches(headers.last().name, wanted) {
            before.push(headers.len() - 1)
        } else {
            before
        }
    }
}

/// The index of the header that `wanted` means and that has exactly `skip`
/// such headers below it, if there is one.
pub open spec fn nth_from_end(headers: Seq<HeaderView>, wanted: Seq<u8>, skip: nat) -> Option<int>
    decreases headers.len(),
{
    if headers.len() == 0 {
        None
    } else if name_matches(headers.last().name, wanted) {
        if skip == 0 {
            Some(headers.len() - 1)
        } else {
            nth_from_end(headers.drop_last(), wanted, (skip - 1) as nat)
        }
    } else {
        nth_from_end(headers.drop_last(), wanted, skip)
    }
}

/// No header name holds a colon: the name ends where the first colon of the
/// field stands.
pub proof fn lemma_names_hold_no_colon(s: Seq<u8>)
    ensures
        forall|i: int|
            0 <= i < header_list(s).len() ==> index_of(
                (#[trigger] header_list(s)[i]).name,
                COLON,
            ) == header_list(s)[i].name.len(),
    decreases s.len(),
{
    if s.len() > 0 {
        let n = field_end(s, 1);
        if 0 < n <= s.len() {
            let field = s.take(n);
            let k = index_of(field, COLON);
            let rest = header_list(s.skip(n));
            lemma_names_hold_no_colon(s.skip(n));
            if 0 <= k < field.len() {
                let name = field.take(k);
                lemma_index_of(field, COLON);
                assert forall|j: int| 0 <= j < name.len() implies name[j] != COLON by {
                    assert(name[j] == field[j]);
                }
                lemma_index_of_is(name, COLON, name.len() as int);
                let all = header_list(s);
                assert forall|i: int| 0 <= i < all.len() implies index_of(
                    (#[trigger] all[i]).name,
                    COLON,
                ) == all[i].name.len() by {
                    if i > 0 {
                        assert(all[i] == rest[i - 1]);
                    }
                }
            }
        }
    }
}

impl Header {
    /// A header of the given name and value.
    pub fn new(name: Vec<u8>, value: Vec<u8>) -> (r: Header)
        ensures
            r@ == (HeaderView { name: name@, value: value@ }),
    {
        Header { name, value }
    }

    /// The bytes before the first colon.
    pub fn name(&self) -> (r: &[u8])
        ensures
            r@ == self@.name,
    {
        self.name.as_slice()
    }

    /// The bytes after the first colon, line terminator included.
    pub fn value(&self) -> (r: &[u8])
        ensures
            r@ == self@.value,
    {
        self.value.as_slice()
    }

    /// Whether `wanted` means this header.
    pub fn is_named(&self, wanted: &[u8]) -> (r: bool)
        ensures
            r == name_matches(self@.name, wanted@),
    {
        let kept = trimmed_end(self.name.as_slice(), false);
        bytes_eq_ignore_case(kept.as_slice(), wanted)
    }
}

fn find_separator(s: &[u8]) -> (p: usize)
    ensures
        p == first_separator(s@, 0),
        p <= s.len(),
        p < s.len() ==> separator_at(s@, p as int),
{
    let mut p: usize = 0;
    while p < s.len()
        invariant
            p <= s.len(),
            first_separator(s@, 0) == first_separator(s@, p as int),
        decreases s.len() - p,
    {
        let starts_line = p == 0 || s[p - 1] == LF;
        if starts_line && (s[p] == LF || (s[p] == CR && p + 1 < s.len() && s[p + 1] == LF)) {
            return p;
        }
        p += 1;
    }
    p
}

fn find_field_end(s: &[u8], from: usize) -> (e: usize)
    requires
        from < s.len(),
    ensures
        from < e <= s.len(),
        e - from == field_end(s@.skip(from as int), 1),
{
    let ghost t = s@.skip(from as int);
    let mut q: usize = from + 1;
    while q < s.len() && !(s[q - 1] == LF && !space(s[q], false))
        invariant
            from < q <= s.len(),
            t == s@.skip(from as int),
            field_end(t, 1) == field_end(t, q - from),
        decreases s.len() - q,
    {
        assert(t[q - from - 1] == s@[q - 1]);
        assert(t[q - from] == s@[q as int]);
        q += 1;
    }
    proof {
        if q < s.len() {
            assert(t[q - from - 1] == s@[q - 1]);
            assert(t[q - from] == s@[q as int]);
        }
    }
    q
}

fn parse_headers(block: &[u8]) -> (r: Vec<Header>)
    ensures
        header_views(r@) == header_list(block@),
{
    let mut out: Vec<Header> = Vec::new();
    let mut pos: usize = 0;
    proof {
        assert(block@.skip(0) =~= block@);
        assert(header_views(out@) + header_list(block@) =~= header_list(block@));
    }
    while pos < block.len()
        invariant
            pos <= block.len(),
            header_views(out@) + header_list(block@.skip(pos as int)) == header_list(block@),
        decreases block.len() - pos,
    {
        let ghost t = block@.skip(pos as int);
        let ghost before = header_views(out@);
        let end = find_field_end(block, pos);
        let field = slice_subrange(block, pos, end);
        proof {
            assert(field@ =~= t.take(end - pos));
            assert(t.skip(end - pos) =~= block@.skip(end as int));
            assert(field@.skip(0) =~= field@);
        }
        let k = find_from(field, 0, COLON);
        if k < field.len() {
            let header = Header {
                name: copy_range(field, 0, k),
                value: copy_range(field, k + 1, field.len()),
            };
            proof {
                assert(header@.name =~= field@.take(k as int));
                assert(header@.value =~= field@.skip(k + 1));
            }
            out.push(header);
            proof {
                assert(header_views(out@) =~= before.push(header@));
                assert(before.push(header@) + header_list(block@.skip(end as int)) =~= before
                    + header_list(t));
            }
        }
        pos = end;
    }
    proof {
        assert(header_views(out@) + Seq::<HeaderView>::empty() =~= header_views(out@));
    }
    out
}

impl RawMessage {
    /// Splits a message into headers and body at the first empty line. Where
    /// there is none, all is header and the body is empty.
    pub fn parse(input: &[u8]) -> (r: RawMessage)
        ensures
            r@ == parse_message(input@),
    {
        let p = find_separator(input);
        let block = slice_subrange(input, 0, p);
        assert(block@ =~= header_block(input@));
        let headers = parse_headers(block);
        let body = if p < input.len() {
            if input[p] == LF {
                copy_range(input, p + 1, input.len())
            } else {
                copy_range(input, p + 2, input.len())
            }
        } else {
            Vec::new()
        };
        assert(body@ =~= body_of(input@));
        RawMessage { headers, body }
    }

    /// The headers, in the order of the message.
    pub fn headers(&self) -> (r: &Vec<Header>)
        ensures
            header_views(r@) == self@.headers,
    {
        &self.headers
    }

    /// The body, byte for byte.
    pub fn body(&self) -> (r: &[u8])
        ensures
            r@ == self@.body,
    {
        self.body.as_slice()
    }

    /// The indices of the headers that `wanted` means, in the order of the
    /// message.
    pub fn headers_named(&self, wanted: &[u8]) -> (r: Vec<usize>)
        ensures
            r@.len() == indices_named(self@.headers, wanted@).len(),
            forall|i: int| 0 <= i < r@.len() ==> r@[i] == indices_named(self@.headers, wanted@)[i],
            forall|i: int| 0 <= i < r@.len() ==> r@[i] < self@.headers.len(),
    {
        let mut out: Vec<usize> = Vec::new();
        let mut i: usize = 0;
        let ghost all = self@.headers;
        assert(all.take(0) =~= Seq::<HeaderView>::empty());
        while i < self.headers.len()
            invariant
                i <= self.headers.len(),
                all == self@.headers,
                all.len() == self.headers.len(),
                out@.len() == indices_named(all.take(i as int), wanted@).len(),
                forall|j: int|
                    0 <= j < out@.len() ==> out@[j] == indices_named(all.take(i as int), wanted@)[j],
                forall|j: int| 0 <= j < out@.len() ==> out@[j] < i,
            decreases self.headers.len() - i,
        {
            proof {
                assert(all.take(i + 1).drop_last() =~= all.take(i as int));
                assert(all.take(i + 1).last() == self.headers@[i as int]@);
            }
            if self.headers[i].is_named(wanted) {
                out.push(i);
            }
            i += 1;
        }
        assert(all.take(i as int) =~= all);
        out
    }

    /// The index of the header that `wanted` means and that has exactly
    /// `skip` such headers below it: the search goes from the bottom of the
    /// header section upwards.
    pub fn find_from_end(&self, wanted: &[u8], skip: usize) -> (r: Option<usize>)
        ensures
            match r {
                Some(i) => nth_from_end(self@.headers, wanted@, skip as nat) == Some(i as int),
                None => nth_from_end(self@.headers, wanted@, skip as nat) is None,
            },
            r matches Some(i) ==> i < self@.headers.len(),
    {
        let mut i: usize = self.headers.len();
        let mut left: usize = skip;
        let ghost all = self@.headers;
        assert(all.take(i as int) =~= all);
        while i > 0
            invariant
                i <= self.headers.len(),
                all == self@.headers,
                all.len() == self.headers.len(),
                nth_from_end(all, wanted@, skip as nat) == nth_from_end(
                    all.take(i as int),
                    wanted@,
                    left as nat,
                ),
            decreases i,
        {
            proof {
                assert(all.take(i as int).drop_last() =~= all.take(i - 1));
                assert(all.take(i as int).last() == self.headers@[i - 1]@);
            }
            i -= 1;
            if self.headers[i].is_named(wanted) {
                if left == 0 {
                    return Some(i);
                }
                left -= 1;
            }
        }
        None
    }
}

} // verus!
