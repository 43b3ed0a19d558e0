//! The wire codec: decoding a raw byte buffer into an HTTP request,
//! encoding a status/body pair into an HTTP response, and reading query
//! strings.  Decoding never fails: a buffer without a request line yields an
//! empty method and the default path, and malformed header lines are
//! skipped.

use vstd::prelude::*;
use crate::bytes::ascii;
use crate::bytes::ascii_bytes;
use crate::bytes::dec_digits;
use crate::bytes::find_sub;
use crate::bytes::find_sub_bytes;
use crate::bytes::lemma_find_sub;
use crate::bytes::lower_bytes;
use crate::bytes::parse_dec;
use crate::bytes::parse_dec_usize;
use crate::bytes::split_on;
use crate::bytes::split_on_bytes;
use crate::bytes::seq_views;
use crate::bytes::subvec;
use crate::bytes::to_lower;
use crate::bytes::u64_dec;

verus! {

// ---------------------------------------------------------------------------
// Small wire constants
// ---------------------------------------------------------------------------

/// The bytes of `"\r\n"`.
pub open spec fn crlf() -> Seq<u8> {
    seq![13u8, 10u8]
}

/// The bytes of `"\r\n\r\n"`, the header/body separator.
pub open spec fn crlf_crlf() -> Seq<u8> {
    seq![13u8, 10u8, 13u8, 10u8]
}

/// The bytes of `": "`, the header name/value separator.
pub open spec fn colon_space() -> Seq<u8> {
    seq![58u8, 32u8]
}

fn crlf_bytes() -> (r: Vec<u8>)
    ensures
        r@ == crlf(),
{
    let mut r: Vec<u8> = Vec::new();
    r.push(13);
    r.push(10);
    proof {
        assert(r@ =~= crlf());
    }
    r
}

fn crlf_crlf_bytes() -> (r: Vec<u8>)
    ensures
        r@ == crlf_crlf(),
{
    let mut r: Vec<u8> = Vec::new();
    r.push(13);
    r.push(10);
    r.push(13);
    r.push(10);
    proof {
        assert(r@ =~= crlf_crlf());
    }
    r
}

fn colon_space_bytes() -> (r: Vec<u8>)
    ensures
        r@ == colon_space(),
{
    let mut r: Vec<u8> = Vec::new();
    r.push(58);
    r.push(32);
    proof {
        assert(r@ =~= colon_space());
    }
    r
}

fn byte_vec(b: u8) -> (r: Vec<u8>)
    ensures
        r@ == seq![b],
{
    let mut r: Vec<u8> = Vec::new();
    r.push(b);
    proof {
        assert(r@ =~= seq![b]);
    }
    r
}

// ---------------------------------------------------------------------------
// Request decoding: specification
// ---------------------------------------------------------------------------

/// The header section of a raw request: everything before the first blank
/// line, or the whole buffer when there is none.
pub open spec fn spec_head_section(data: Seq<u8>) -> Seq<u8> {
    match find_sub(data, crlf_crlf()) {
        Some(i) => if 0 <= i && i + 4 <= data.len() {
            data.subrange(0, i)
        } else {
            data
        },
        None => data,
    }
}

/// The body of a raw request: everything after the first blank line, or
/// empty when there is none.
pub open spec fn spec_body_section(data: Seq<u8>) -> Seq<u8> {
    match find_sub(data, crlf_crlf()) {
        Some(i) => if 0 <= i && i + 4 <= data.len() {
            data.subrange(i + 4, data.len() as int)
        } else {
            Seq::empty()
        },
        None => Seq::empty(),
    }
}

/// The method named on a request line: the token before the first space, or
/// the whole line when it has no space.
pub open spec fn spec_method(line: Seq<u8>) -> Seq<u8> {
    match find_sub(line, seq![32u8]) {
        Some(i) => if 0 <= i <= line.len() {
            line.subrange(0, i)
        } else {
            line
        },
        None => line,
    }
}

/// The path named on a request line: the token between the first and second
/// spaces, or `/` when the line has no space at all.
pub open spec fn spec_path(line: Seq<u8>) -> Seq<u8> {
    match find_sub(line, seq![32u8]) {
        Some(i) => if 0 <= i < line.len() {
            let rest = line.subrange(i + 1, line.len() as int);
            match find_sub(rest, seq![32u8]) {
                Some(j) => if 0 <= j <= rest.len() {
                    rest.subrange(0, j)
                } else {
                    rest
                },
                None => rest,
            }
        } else {
            ascii("/")
        },
        None => ascii("/"),
    }
}

/// The header pairs read from the lines after the request line: each line
/// holding `": "` contributes its lower-cased name and its value, in order;
/// lines without the separator are skipped.
pub open spec fn spec_header_pairs(lines: Seq<Seq<u8>>) -> Seq<(Seq<u8>, Seq<u8>)>
    decreases lines.len(),
{
    if lines.len() == 0 {
        Seq::empty()
    } else {
        let line = lines[0];
        let rest = spec_header_pairs(lines.drop_first());
        match find_sub(line, colon_space()) {
            Some(i) => if 0 <= i && i + 2 <= line.len() {
                seq![
                    (
                        lower_bytes(line.subrange(0, i)),
                        line.subrange(i + 2, line.len() as int),
                    )
                ] + rest
            } else {
                rest
            },
            None => rest,
        }
    }
}

/// The lines of the header section.
pub open spec fn spec_head_lines(data: Seq<u8>) -> Seq<Seq<u8>> {
    split_on(spec_head_section(data), crlf())
}

/// `split_on` always produces at least one piece.
pub proof fn lemma_split_on_len(hay: Seq<u8>, sep: Seq<u8>)
    ensures
        split_on(hay, sep).len() >= 1,
{
}

// ---------------------------------------------------------------------------
// Association lists: last-seen value wins
// ---------------------------------------------------------------------------

/// The value of the last pair named `key`, if any.  Decoded headers and
/// query pairs keep every pair in order; a mapping read is the last match.
pub open spec fn lookup_pair(ps: Seq<(Seq<u8>, Seq<u8>)>, key: Seq<u8>) -> Option<Seq<u8>>
    decreases ps.len(),
{
    if ps.len() == 0 {
        None
    } else if ps.last().0 == key {
        Some(ps.last().1)
    } else {
        lookup_pair(ps.drop_last(), key)
    }
}

/// The views of a sequence of byte-vector pairs.
pub open spec fn pair_views(ps: Seq<(Vec<u8>, Vec<u8>)>) -> Seq<(Seq<u8>, Seq<u8>)> {
    ps.map_values(|p: (Vec<u8>, Vec<u8>)| (p.0@, p.1@))
}

/// The value of the last pair named `key`, if any.
pub fn lookup_bytes(ps: &Vec<(Vec<u8>, Vec<u8>)>, key: &Vec<u8>) -> (r: Option<Vec<u8>>)
    ensures
        match r {
            Some(v) => lookup_pair(pair_views(ps@), key@) == Some(v@),
            None => lookup_pair(pair_views(ps@), key@) is None,
        },
{
    let mut i: usize = ps.len();
    proof {
        assert(pair_views(ps@).take(ps@.len() as int) =~= pair_views(ps@));
    }
    while i > 0
        invariant
            i <= ps@.len(),
            lookup_pair(pair_views(ps@), key@) == lookup_pair(
                pair_views(ps@).take(i as int),
                key@,
            ),
        decreases i,
    {
        i = i - 1;
        let hit = ps[i].0 == *key;
        proof {
            assert(pair_views(ps@).take(i + 1).last() == (ps@[i as int].0@, ps@[i as int].1@));
            assert(pair_views(ps@).take(i + 1).drop_last() =~= pair_views(ps@).take(i as int));
            if hit {
                assert(ps@[i as int].0@ =~= key@);
            } else {
                assert(!(ps@[i as int].0@ =~= key@));
            }
        }
        if hit {
            let v = subvec(&ps[i].1, 0, ps[i].1.len());
            proof {
                assert(lookup_pair(pair_views(ps@).take(i + 1), key@) == Some(ps@[i as int].1@));
            }
            return Some(v);
        }
    }
    proof {
        assert(pair_views(ps@).take(0) =~= Seq::<(Seq<u8>, Seq<u8>)>::empty());
    }
    None
}

// ---------------------------------------------------------------------------
// Request decoding: executable
// ---------------------------------------------------------------------------

/// A decoded HTTP request: method, path (with its raw query string), raw
/// body bytes, and the header pairs in arrival order.
pub struct Request {
    pub method: Vec<u8>,
    pub path: Vec<u8>,
    pub body: Vec<u8>,
    pub headers: Vec<(Vec<u8>, Vec<u8>)>,
}

impl Request {
    /// The value of the named (lower-case) header, last occurrence winning.
    pub fn header_value(&self, name: &Vec<u8>) -> (r: Option<Vec<u8>>)
        ensures
            match r {
                Some(v) => lookup_pair(pair_views(self.headers@), name@) == Some(v@),
                None => lookup_pair(pair_views(self.headers@), name@) is None,
            },
    {
        lookup_bytes(&self.headers, name)
    }

    /// The declared `content-length`, when present and readable as a number.
    pub fn content_length(&self) -> (r: Option<usize>)
        ensures
            match r {
                Some(n) => spec_content_length(self.headers@) == Some(n as int),
                None => spec_content_length(self.headers@) is None,
            },
    {
        proof {
            reveal_strlit("content-length");
        }
        let name = ascii_bytes("content-length");
        match self.header_value(&name) {
            Some(v) => parse_dec_usize(&v),
            None => None,
        }
    }

    /// How many declared body bytes are still missing.  The caller keeps
    /// reading from the connection until this reaches zero or the
    /// connection ends.
    pub fn body_shortfall(&self) -> (r: usize)
        ensures
            r as int == spec_body_shortfall(self.headers@, self.body@.len() as int),
    {
        match self.content_length() {
            Some(n) => if self.body.len() < n {
                n - self.body.len()
            } else {
                0
            },
            None => 0,
        }
    }

    /// Append further body bytes read from the connection.
    pub fn append_body(&mut self, chunk: &Vec<u8>)
        requires
            old(self).body@.len() + chunk@.len() <= usize::MAX,
        ensures
            final(self).body@ == old(self).body@ + chunk@,
            final(self).method == old(self).method,
            final(self).path == old(self).path,
            final(self).headers == old(self).headers,
    {
        self.body.extend_from_slice(chunk.as_slice());
    }
}

/// The declared `content-length` of decoded header pairs, if present and
/// readable as a decimal number that fits a machine word.
pub open spec fn spec_content_length(headers: Seq<(Vec<u8>, Vec<u8>)>) -> Option<int> {
    match lookup_pair(pair_views(headers), ascii("content-length")) {
        Some(v) => parse_dec(v, usize::MAX as int),
        None => None,
    }
}

/// Declared body bytes still missing: the shortfall against
/// `content-length`, or zero without a readable declaration.
pub open spec fn spec_body_shortfall(headers: Seq<(Vec<u8>, Vec<u8>)>, have: int) -> int {
    match spec_content_length(headers) {
        Some(n) => if have < n {
            n - have
        } else {
            0
        },
        None => 0,
    }
}

/// Decode a raw HTTP request.  Never fails: without a request line the
/// method is empty and the path is `/`; header lines without `": "` are
/// skipped; header names are folded to lower case.
pub fn parse_http_request(data: &[u8]) -> (r: Request)
    ensures
        r.method@ == spec_method(spec_head_lines(data@)[0]),
        r.path@ == spec_path(spec_head_lines(data@)[0]),
        r.body@ == spec_body_section(data@),
        pair_views(r.headers@) == spec_header_pairs(spec_head_lines(data@).drop_first()),
{
    let buf: Vec<u8> = vstd::slice::slice_to_vec(data);
    let sep4 = crlf_crlf_bytes();
    proof {
        lemma_find_sub(buf@, sep4@);
    }
    let buf_len = buf.len();
    let (head, body) = match find_sub_bytes(&buf, &sep4) {
        Some(i) => (subvec(&buf, 0, i), subvec(&buf, i + 4, buf_len)),
        None => (subvec(&buf, 0, buf_len), Vec::new()),
    };
    proof {
        assert(head@ =~= spec_head_section(data@));
        assert(body@ =~= spec_body_section(data@));
    }
    let sep2 = crlf_bytes();
    let lines = split_on_bytes(&head, &sep2);
    proof {
        lemma_split_on_len(head@, crlf());
        assert(seq_views(lines@)[0] == lines@[0]@);
    }
    let line0 = &lines[0];
    let space = byte_vec(32);
    let line0_len = line0.len();
    proof {
        lemma_find_sub(line0@, seq![32u8]);
    }
    let (method, path) = match find_sub_bytes(line0, &space) {
        Some(i) => {
            let m = subvec(line0, 0, i);
            let rest = subvec(line0, i + 1, line0_len);
            let rest_len = rest.len();
            proof {
                lemma_find_sub(rest@, seq![32u8]);
            }
            let p = match find_sub_bytes(&rest, &space) {
                Some(j) => subvec(&rest, 0, j),
                None => rest,
            };
            (m, p)
        },
        None => {
            proof {
                reveal_strlit("/");
            }
            (subvec(line0, 0, line0_len), ascii_bytes("/"))
        },
    };
    proof {
        assert(method@ == spec_method(spec_head_lines(data@)[0]));
        assert(path@ == spec_path(spec_head_lines(data@)[0]));
    }
    let sep_cs = colon_space_bytes();
    let mut headers: Vec<(Vec<u8>, Vec<u8>)> = Vec::new();
    let mut k: usize = 1;
    proof {
        assert(seq_views(lines@).skip(1) =~= seq_views(lines@).drop_first());
        assert(pair_views(headers@) =~= Seq::<(Seq<u8>, Seq<u8>)>::empty());
        assert(pair_views(headers@) + spec_header_pairs(seq_views(lines@).skip(1))
            =~= spec_header_pairs(seq_views(lines@).drop_first()));
    }
    while k < lines.len()
        invariant
            1 <= k <= lines@.len(),
            sep_cs@ == colon_space(),
            spec_header_pairs(seq_views(lines@).drop_first()) == pair_views(headers@)
                + spec_header_pairs(seq_views(lines@).skip(k as int)),
        decreases lines@.len() - k,
    {
        let line = &lines[k];
        proof {
            lemma_find_sub(line@, colon_space());
            assert(seq_views(lines@).skip(k as int)[0] == line@);
            assert(seq_views(lines@).skip(k as int).drop_first() =~= seq_views(lines@).skip(
                k as int + 1,
            ));
        }
        let line_len = line.len();
        match find_sub_bytes(line, &sep_cs) {
            Some(i) => {
                let name = to_lower(&subvec(line, 0, i));
                let value = subvec(line, i + 2, line_len);
                proof {
                    assert(pair_views(headers@.push((name, value))) =~= pair_views(headers@)
                        + seq![(name@, value@)]);
                    assert(pair_views(headers@) + (seq![(name@, value@)] + spec_header_pairs(
                        seq_views(lines@).skip(k as int + 1),
                    )) =~~= (pair_views(headers@) + seq![(name@, value@)]) + spec_header_pairs(
                        seq_views(lines@).skip(k as int + 1),
                    ));
                }
                headers.push((name, value));
            },
            None => {},
        }
        k = k + 1;
    }
    proof {
        assert(seq_views(lines@).skip(lines@.len() as int)
            =~= Seq::<Seq<u8>>::empty());
        assert(pair_views(headers@) + Seq::<(Seq<u8>, Seq<u8>)>::empty() =~= pair_views(
            headers@,
        ));
    }
    Request { method, path, body, headers }
}

// ---------------------------------------------------------------------------
// Query strings
// ---------------------------------------------------------------------------

/// The pairs of a query string's segments: each non-empty segment holding
/// `=` contributes the text before its first `=` and the text after it, in
/// order; other segments are dropped.
pub open spec fn spec_query_pairs_of(segs: Seq<Seq<u8>>) -> Seq<(Seq<u8>, Seq<u8>)>
    decreases segs.len(),
{
    if segs.len() == 0 {
        Seq::empty()
    } else {
        let seg = segs[0];
        let rest = spec_query_pairs_of(segs.drop_first());
        if seg.len() == 0 {
            rest
        } else {
            match find_sub(seg, seq![61u8]) {
                Some(i) => if 0 <= i < seg.len() {
                    seq![(seg.subrange(0, i), seg.subrange(i + 1, seg.len() as int))] + rest
                } else {
                    rest
                },
                None => rest,
            }
        }
    }
}

/// The pairs decoded from a query string: segments between `&`, split at
/// their first `=`; segments without `=` are dropped; values are taken
/// literally, with no percent-decoding.
pub open spec fn spec_query_pairs(q: Seq<u8>) -> Seq<(Seq<u8>, Seq<u8>)> {
    spec_query_pairs_of(split_on(q, seq![38u8]))
}

/// Decode a query string into its key/value pairs, in order.  A mapping
/// read of the result takes the last value of a repeated key.
pub fn parse_query_string(query: &[u8]) -> (r: Vec<(Vec<u8>, Vec<u8>)>)
    ensures
        pair_views(r@) == spec_query_pairs(query@),
{
    let q: Vec<u8> = vstd::slice::slice_to_vec(query);
    let amp = byte_vec(38);
    let eq = byte_vec(61);
    let segs = split_on_bytes(&q, &amp);
    let mut out: Vec<(Vec<u8>, Vec<u8>)> = Vec::new();
    let mut k: usize = 0;
    proof {
        assert(seq_views(segs@).skip(0) =~= seq_views(segs@));
        assert(pair_views(out@) =~= Seq::<(Seq<u8>, Seq<u8>)>::empty());
        assert(pair_views(out@) + spec_query_pairs_of(seq_views(segs@).skip(0))
            =~= spec_query_pairs_of(seq_views(segs@)));
    }
    while k < segs.len()
        invariant
            k <= segs@.len(),
            eq@ == seq![61u8],
            spec_query_pairs_of(seq_views(segs@)) == pair_views(out@) + spec_query_pairs_of(
                seq_views(segs@).skip(k as int),
            ),
        decreases segs@.len() - k,
    {
        let seg = &segs[k];
        proof {
            lemma_find_sub(seg@, seq![61u8]);
            assert(seq_views(segs@).skip(k as int)[0] == seg@);
            assert(seq_views(segs@).skip(k as int).drop_first() =~= seq_views(segs@).skip(
                k as int + 1,
            ));
        }
        let seg_len = seg.len();
        if seg_len > 0 {
            match find_sub_bytes(seg, &eq) {
                Some(i) => {
                    let key = subvec(seg, 0, i);
                    let value = subvec(seg, i + 1, seg_len);
                    proof {
                        assert(pair_views(out@.push((key, value))) =~= pair_views(out@)
                            + seq![(key@, value@)]);
                        assert(pair_views(out@) + (seq![(key@, value@)] + spec_query_pairs_of(
                            seq_views(segs@).skip(k as int + 1),
                        )) =~~= (pair_views(out@) + seq![(key@, value@)]) + spec_query_pairs_of(
                            seq_views(segs@).skip(k as int + 1),
                        ));
                    }
                    out.push((key, value));
                },
                None => {},
            }
        }
        k = k + 1;
    }
    proof {
        assert(seq_views(segs@).skip(segs@.len() as int) =~= Seq::<Seq<u8>>::empty());
        assert(pair_views(out@) + Seq::<(Seq<u8>, Seq<u8>)>::empty() =~= pair_views(out@));
    }
    out
}

// ---------------------------------------------------------------------------
// Query strings recover what was encoded
// ---------------------------------------------------------------------------

/// The textual segment of one query pair: `key=value`.
pub open spec fn spec_query_segment(p: (Seq<u8>, Seq<u8>)) -> Seq<u8> {
    p.0 + seq![61u8] + p.1
}

/// A query string listing the given pairs, `&`-separated.
pub open spec fn spec_join_query(ps: Seq<(Seq<u8>, Seq<u8>)>) -> Seq<u8>
    decreases ps.len(),
{
    if ps.len() == 0 {
        Seq::empty()
    } else if ps.len() == 1 {
        spec_query_segment(ps[0])
    } else {
        spec_query_segment(ps[0]) + seq![38u8] + spec_join_query(ps.drop_first())
    }
}

/// A query pair is well-formed when its key holds neither `&` nor `=` and
/// its value holds no `&`.
pub open spec fn spec_wf_query_pair(p: (Seq<u8>, Seq<u8>)) -> bool {
    &&& forall|j: int| 0 <= j < p.0.len() ==> p.0[j] != 38 && p.0[j] != 61
    &&& forall|j: int| 0 <= j < p.1.len() ==> p.1[j] != 38
}

proof fn lemma_segment_pairs(ps: Seq<(Seq<u8>, Seq<u8>)>)
    requires
        forall|k: int| 0 <= k < ps.len() ==> spec_wf_query_pair(#[trigger] ps[k]),
    ensures
        spec_query_pairs_of(ps.map_values(|p: (Seq<u8>, Seq<u8>)| spec_query_segment(p))) == ps,
    decreases ps.len(),
{
    let segs = ps.map_values(|p: (Seq<u8>, Seq<u8>)| spec_query_segment(p));
    if ps.len() == 0 {
        assert(spec_query_pairs_of(segs) =~= ps);
    } else {
        let p = ps[0];
        let seg = spec_query_segment(p);
        assert(segs[0] == seg);
        assert(seg.len() == p.0.len() + 1 + p.1.len());
        assert(seg[p.0.len() as int] == 61);
        assert forall|j: int| 0 <= j < p.0.len() implies seg[j] != 61 by {
            assert(seg[j] == p.0[j]);
        }
        crate::bytes::lemma_find_byte_at(seg, 61, p.0.len() as int);
        assert(seg.subrange(0, p.0.len() as int) =~= p.0);
        assert(seg.subrange(p.0.len() as int + 1, seg.len() as int) =~= p.1);
        assert(segs.drop_first() =~= ps.drop_first().map_values(
            |q: (Seq<u8>, Seq<u8>)| spec_query_segment(q),
        ));
        lemma_segment_pairs(ps.drop_first());
        assert(seq![(p.0, p.1)] + ps.drop_first() =~= ps);
    }
}

proof fn lemma_split_join(ps: Seq<(Seq<u8>, Seq<u8>)>)
    requires
        ps.len() > 0,
        forall|k: int| 0 <= k < ps.len() ==> spec_wf_query_pair(#[trigger] ps[k]),
    ensures
        split_on(spec_join_query(ps), seq![38u8]) == ps.map_values(
            |p: (Seq<u8>, Seq<u8>)| spec_query_segment(p),
        ),
    decreases ps.len(),
{
    let joined = spec_join_query(ps);
    let seg = spec_query_segment(ps[0]);
    let segs = ps.map_values(|p: (Seq<u8>, Seq<u8>)| spec_query_segment(p));
    if ps.len() == 1 {
        assert forall|j: int| 0 <= j < joined.len() implies joined[j] != 38 by {
            if j < ps[0].0.len() {
                assert(joined[j] == ps[0].0[j]);
            } else if j == ps[0].0.len() {
            } else {
                assert(joined[j] == ps[0].1[j - ps[0].0.len() - 1]);
            }
        }
        crate::bytes::lemma_find_byte_none(joined, 38);
        assert(split_on(joined, seq![38u8]) =~= segs);
    } else {
        let rest = spec_join_query(ps.drop_first());
        assert(joined == seg + seq![38u8] + rest);
        assert(joined[seg.len() as int] == 38);
        assert forall|j: int| 0 <= j < seg.len() implies joined[j] != 38 by {
            assert(joined[j] == seg[j]);
            if j < ps[0].0.len() {
                assert(seg[j] == ps[0].0[j]);
            } else if j == ps[0].0.len() {
            } else {
                assert(seg[j] == ps[0].1[j - ps[0].0.len() - 1]);
            }
        }
        crate::bytes::lemma_find_byte_at(joined, 38, seg.len() as int);
        assert(joined.subrange(0, seg.len() as int) =~= seg);
        assert(joined.subrange(seg.len() as int + 1, joined.len() as int) =~= rest);
        lemma_split_join(ps.drop_first());
        assert(segs.drop_first() =~= ps.drop_first().map_values(
            |q: (Seq<u8>, Seq<u8>)| spec_query_segment(q),
        ));
        assert(seq![seg] + segs.drop_first() =~= segs);
    }
}

/// Decoding recovers an encoded query string exactly: for well-formed
/// pairs, the decoded pair list is the listed pairs themselves, and a
/// mapping read of any key therefore yields the last value listed for it.
/// Malformed segments never contribute a pair in the first place.
pub proof fn lemma_query_string_roundtrip(ps: Seq<(Seq<u8>, Seq<u8>)>, key: Seq<u8>)
    requires
        ps.len() > 0,
        forall|k: int| 0 <= k < ps.len() ==> spec_wf_query_pair(#[trigger] ps[k]),
    ensures
        spec_query_pairs(spec_join_query(ps)) == ps,
        lookup_pair(spec_query_pairs(spec_join_query(ps)), key) == lookup_pair(ps, key),
{
    lemma_split_join(ps);
    lemma_segment_pairs(ps);
}

// ---------------------------------------------------------------------------
// Response encoding
// ---------------------------------------------------------------------------

/// The reason phrase of a status code, from the codec's fixed table.
pub open spec fn spec_reason(status: u16) -> Seq<u8> {
    if status == 200 {
        ascii("OK")
    } else if status == 404 {
        ascii("Not Found")
    } else {
        ascii("Unknown")
    }
}

/// Everything of an encoded response before the declared length.
pub open spec fn spec_response_head(status: u16) -> Seq<u8> {
    ascii("HTTP/1.1 ") + dec_digits(status as nat) + seq![32u8] + spec_reason(status) + ascii(
        "\r\nContent-Type: application/json\r\nContent-Length: ",
    )
}

/// A whole encoded response: status line, fixed content type, a declared
/// length equal to the body's exact byte length, a blank line, the body.
pub open spec fn spec_response(status: u16, body: Seq<u8>) -> Seq<u8> {
    spec_response_head(status) + dec_digits(body.len()) + crlf_crlf() + body
}

/// An encoded response declares a `Content-Length` equal to the exact byte
/// length of the body it carries, whatever the status and body.
pub proof fn lemma_response_content_length(status: u16, body: Seq<u8>)
    ensures
        spec_response(status, body) == spec_response_head(status) + dec_digits(body.len())
            + crlf_crlf() + body,
        spec_response(status, body).skip(
            spec_response(status, body).len() - body.len(),
        ) =~= body,
{
}

/// Encode a minimal HTTP/1.1 response.
pub fn build_http_response(status: u16, body: &Vec<u8>) -> (r: Vec<u8>)
    ensures
        r@ == spec_response(status, body@),
{
    proof {
        reveal_strlit("HTTP/1.1 ");
        reveal_strlit("OK");
        reveal_strlit("Not Found");
        reveal_strlit("Unknown");
        reveal_strlit("\r\nContent-Type: application/json\r\nContent-Length: ");
    }
    let mut r = ascii_bytes("HTTP/1.1 ");
    let status_digits = u64_dec(status as u64);
    r.extend_from_slice(status_digits.as_slice());
    r.push(32);
    let reason = if status == 200 {
        ascii_bytes("OK")
    } else if status == 404 {
        ascii_bytes("Not Found")
    } else {
        ascii_bytes("Unknown")
    };
    r.extend_from_slice(reason.as_slice());
    let mid = ascii_bytes("\r\nContent-Type: application/json\r\nContent-Length: ");
    r.extend_from_slice(mid.as_slice());
    let len_digits = u64_dec(body.len() as u64);
    r.extend_from_slice(len_digits.as_slice());
    let blank = crlf_crlf_bytes();
    r.extend_from_slice(blank.as_slice());
    r.extend_from_slice(body.as_slice());
    proof {
        assert(r@ =~= spec_response(status, body@));
    }
    r
}

} // verus!
