//! Byte-sequence utilities: ASCII literals, substring search, splitting,
//! case folding, and decimal/octal numerals.  All wire-level text handling
//! in this crate works on raw bytes.

use vstd::prelude::*;

verus! {

// ---------------------------------------------------------------------------
// ASCII literals
// ---------------------------------------------------------------------------

/// The byte sequence of an ASCII string, for use in specifications.
pub open spec fn ascii(s: &str) -> Seq<u8> {
    Seq::new(s@.len(), |i: int| s@[i] as u8)
}

/// The bytes of an ASCII string slice, as a fresh vector.
pub fn ascii_bytes(s: &str) -> (r: Vec<u8>)
    requires
        s.is_ascii(),
    ensures
        r@ == ascii(s),
{
    proof {
        vstd::string::is_ascii_spec_bytes(s);
    }
    let b: &[u8] = s.as_bytes();
    let r = vstd::slice::slice_to_vec(b);
    proof {
        assert(r@ =~= ascii(s));
    }
    r
}

/// Whether two byte vectors hold the same bytes.
pub fn bytes_eq(a: &Vec<u8>, b: &Vec<u8>) -> (r: bool)
    ensures
        r == (a@ == b@),
{
    let r = a == b;
    proof {
        if r {
            assert(a@ =~= b@);
        }
    }
    r
}

// ---------------------------------------------------------------------------
// Substring search
// ---------------------------------------------------------------------------

/// `needle` occurs in `hay` starting at position `i`.
pub open spec fn match_at(hay: Seq<u8>, needle: Seq<u8>, i: int) -> bool {
    0 <= i && i + needle.len() <= hay.len() && hay.subrange(i, i + needle.len()) == needle
}

/// Position of the first occurrence of `needle` in `hay`, if any.
pub open spec fn find_sub(hay: Seq<u8>, needle: Seq<u8>) -> Option<int>
    decreases hay.len(),
{
    if needle.len() > hay.len() {
        None
    } else if hay.subrange(0, needle.len() as int) == needle {
        Some(0)
    } else if hay.len() == 0 {
        None
    } else {
        match find_sub(hay.subrange(1, hay.len() as int), needle) {
            Some(i) => Some(i + 1),
            None => None,
        }
    }
}

/// `find_sub` returns the first match: a `Some` is a match preceded by no
/// other, and a `None` means no position matches.
pub proof fn lemma_find_sub(hay: Seq<u8>, needle: Seq<u8>)
    ensures
        match find_sub(hay, needle) {
            Some(i) => match_at(hay, needle, i) && forall|j: int|
                0 <= j < i ==> !match_at(hay, needle, j),
            None => forall|j: int| !match_at(hay, needle, j),
        },
    decreases hay.len(),
{
    if needle.len() > hay.len() {
    } else if hay.subrange(0, needle.len() as int) == needle {
    } else if hay.len() == 0 {
    } else {
        let tail = hay.subrange(1, hay.len() as int);
        lemma_find_sub(tail, needle);
        assert forall|j: int| 1 <= j implies match_at(hay, needle, j) == match_at(
            tail,
            needle,
            j - 1,
        ) by {
            if 0 <= j - 1 && j - 1 + needle.len() <= tail.len() {
                assert(hay.subrange(j, j + needle.len()) =~= tail.subrange(
                    j - 1,
                    j - 1 + needle.len(),
                ));
            }
        }
        assert(!match_at(hay, needle, 0));
    }
}

/// Whether `needle` matches `hay` at position `i`.
fn match_prefix_at(hay: &Vec<u8>, needle: &Vec<u8>, i: usize) -> (r: bool)
    requires
        i + needle@.len() <= hay@.len(),
    ensures
        r == match_at(hay@, needle@, i as int),
{
    let hay_len = hay.len();
    let mut j: usize = 0;
    while j < needle.len()
        invariant
            hay_len == hay@.len(),
            i + needle@.len() <= hay@.len(),
            j <= needle@.len(),
            forall|k: int| 0 <= k < j ==> hay@[i + k] == needle@[k],
        decreases needle@.len() - j,
    {
        if hay[i + j] != needle[j] {
            proof {
                if match_at(hay@, needle@, i as int) {
                    assert(hay@.subrange(i as int, i + needle@.len())[j as int] == needle@[
                        j as int
                    ]);
                }
            }
            return false;
        }
        j = j + 1;
    }
    proof {
        assert(hay@.subrange(i as int, i + needle@.len()) =~= needle@);
    }
    true
}

/// First occurrence of `needle` in `hay`.
pub fn find_sub_bytes(hay: &Vec<u8>, needle: &Vec<u8>) -> (r: Option<usize>)
    ensures
        match r {
            Some(i) => find_sub(hay@, needle@) == Some(i as int),
            None => find_sub(hay@, needle@) is None,
        },
{
    proof {
        lemma_find_sub(hay@, needle@);
    }
    if needle.len() > hay.len() {
        return None;
    }
    let hay_len = hay.len();
    let needle_len = needle.len();
    if needle_len == 0 {
        proof {
            assert(hay@.subrange(0, 0) =~= needle@);
        }
        return Some(0);
    }
    let mut i: usize = 0;
    while i <= hay_len - needle_len
        invariant
            hay_len == hay@.len(),
            needle_len == needle@.len(),
            0 < needle_len <= hay_len,
            i <= hay_len - needle_len + 1,
            forall|j: int| 0 <= j < i ==> !match_at(hay@, needle@, j),
        decreases hay@.len() - i,
    {
        if match_prefix_at(hay, needle, i) {
            proof {
                lemma_find_sub(hay@, needle@);
            }
            return Some(i);
        }
        i = i + 1;
    }
    None
}

/// A byte that occurs nowhere is never found.
pub proof fn lemma_find_byte_none(hay: Seq<u8>, b: u8)
    requires
        forall|j: int| 0 <= j < hay.len() ==> hay[j] != b,
    ensures
        find_sub(hay, seq![b]) is None,
{
    lemma_find_sub(hay, seq![b]);
    match find_sub(hay, seq![b]) {
        Some(i) => {
            assert(hay.subrange(i, i + 1)[0] == hay[i]);
            assert(false);
        },
        None => {},
    }
}

/// The first occurrence of a byte is found exactly there.
pub proof fn lemma_find_byte_at(hay: Seq<u8>, b: u8, i: int)
    requires
        0 <= i < hay.len(),
        hay[i] == b,
        forall|j: int| 0 <= j < i ==> hay[j] != b,
    ensures
        find_sub(hay, seq![b]) == Some(i),
{
    lemma_find_sub(hay, seq![b]);
    assert(hay.subrange(i, i + 1) =~= seq![b]);
    assert(match_at(hay, seq![b], i));
    match find_sub(hay, seq![b]) {
        Some(k) => {
            assert(hay.subrange(k, k + 1)[0] == hay[k]);
            if k < i {
                assert(false);
            }
            if i < k {
                assert(!match_at(hay, seq![b], i));
                assert(false);
            }
        },
        None => {
            assert(!match_at(hay, seq![b], i));
            assert(false);
        },
    }
}

// ---------------------------------------------------------------------------
// Splitting on a separator
// ---------------------------------------------------------------------------

/// The pieces of `hay` between occurrences of the (non-empty) separator.
pub open spec fn split_on(hay: Seq<u8>, sep: Seq<u8>) -> Seq<Seq<u8>>
    decreases hay.len(),
{
    if sep.len() == 0 {
        seq![hay]
    } else {
        match find_sub(hay, sep) {
            Some(i) => if 0 <= i && i + sep.len() <= hay.len() {
                seq![hay.subrange(0, i)] + split_on(
                    hay.subrange(i + sep.len(), hay.len() as int),
                    sep,
                )
            } else {
                seq![hay]
            },
            None => seq![hay],
        }
    }
}

/// The views of a sequence of byte vectors.
pub open spec fn seq_views(vs: Seq<Vec<u8>>) -> Seq<Seq<u8>> {
    vs.map_values(|v: Vec<u8>| v@)
}

/// A copy of `v[from..to]`.
pub fn subvec(v: &Vec<u8>, from: usize, to: usize) -> (r: Vec<u8>)
    requires
        from <= to <= v@.len(),
    ensures
        r@ == v@.subrange(from as int, to as int),
{
    let s = vstd::slice::slice_subrange(v.as_slice(), from, to);
    vstd::slice::slice_to_vec(s)
}

/// Split `hay` at every occurrence of the non-empty separator `sep`.
pub fn split_on_bytes(hay: &Vec<u8>, sep: &Vec<u8>) -> (r: Vec<Vec<u8>>)
    requires
        sep@.len() > 0,
    ensures
        seq_views(r@) == split_on(hay@, sep@),
{
    let mut out: Vec<Vec<u8>> = Vec::new();
    let mut rest: Vec<u8> = subvec(hay, 0, hay.len());
    proof {
        assert(rest@ =~= hay@);
        assert(seq_views(out@) + split_on(rest@, sep@) =~~= split_on(hay@, sep@));
    }
    loop
        invariant
            sep@.len() > 0,
            split_on(hay@, sep@) == seq_views(out@) + split_on(rest@, sep@),
        decreases rest@.len(),
    {
        proof {
            lemma_find_sub(rest@, sep@);
        }
        let rest_len = rest.len();
        match find_sub_bytes(&rest, sep) {
            Some(i) => {
                let head = subvec(&rest, 0, i);
                let tail = subvec(&rest, i + sep.len(), rest_len);
                proof {
                    assert(split_on(rest@, sep@) == seq![head@] + split_on(tail@, sep@));
                    assert(seq_views(out@.push(head)) =~= seq_views(out@) + seq![head@]);
                    assert(seq_views(out@) + (seq![head@] + split_on(tail@, sep@)) =~~= (seq_views(
                        out@,
                    ) + seq![head@]) + split_on(tail@, sep@));
                }
                out.push(head);
                rest = tail;
            },
            None => {
                proof {
                    assert(split_on(rest@, sep@) == seq![rest@]);
                    assert(seq_views(out@.push(rest)) =~= seq_views(out@) + seq![rest@]);
                }
                out.push(rest);
                return out;
            },
        }
    }
}

// ---------------------------------------------------------------------------
// ASCII case folding
// ---------------------------------------------------------------------------

/// A byte with an ASCII upper-case letter folded to lower case.
pub open spec fn lower_byte(b: u8) -> u8 {
    if 65 <= b <= 90 {
        (b + 32) as u8
    } else {
        b
    }
}

/// A byte sequence with ASCII upper-case letters folded to lower case.
pub open spec fn lower_bytes(s: Seq<u8>) -> Seq<u8> {
    s.map_values(|b: u8| lower_byte(b))
}

/// Fold ASCII upper-case letters in `v` to lower case.
pub fn to_lower(v: &Vec<u8>) -> (r: Vec<u8>)
    ensures
        r@ == lower_bytes(v@),
{
    let mut r: Vec<u8> = Vec::new();
    let mut i: usize = 0;
    while i < v.len()
        invariant
            i <= v@.len(),
            r@ =~= lower_bytes(v@.take(i as int)),
        decreases v@.len() - i,
    {
        let b = v[i];
        if 65 <= b && b <= 90 {
            r.push(b + 32);
        } else {
            r.push(b);
        }
        i = i + 1;
        proof {
            assert(r@ =~= lower_bytes(v@.take(i as int)));
        }
    }
    proof {
        assert(v@.take(v@.len() as int) =~= v@);
    }
    r
}

// ---------------------------------------------------------------------------
// Decimal numerals
// ---------------------------------------------------------------------------

/// The decimal digits of `n`, most significant first.
pub open spec fn dec_digits(n: nat) -> Seq<u8>
    decreases n,
{
    if n < 10 {
        seq![(48 + n) as u8]
    } else {
        dec_digits(n / 10) + seq![(48 + n % 10) as u8]
    }
}

/// Render `n` in decimal.
pub fn u64_dec(n: u64) -> (r: Vec<u8>)
    ensures
        r@ == dec_digits(n as nat),
    decreases n,
{
    if n < 10 {
        let mut r: Vec<u8> = Vec::new();
        r.push(48 + (n as u8));
        proof {
            assert(r@ =~= dec_digits(n as nat));
        }
        r
    } else {
        let mut r = u64_dec(n / 10);
        r.push(48 + ((n % 10) as u8));
        proof {
            assert(r@ =~= dec_digits(n as nat));
        }
        r
    }
}

/// `b` is an ASCII decimal digit.
pub open spec fn is_digit(b: u8) -> bool {
    48 <= b <= 57
}

/// Every byte of `s` is a decimal digit.
pub open spec fn all_digits(s: Seq<u8>) -> bool {
    forall|i: int| 0 <= i < s.len() ==> is_digit(#[trigger] s[i])
}

/// The value of a digit string, most significant first.
pub open spec fn dec_of(s: Seq<u8>) -> int
    decreases s.len(),
{
    if s.len() == 0 {
        0
    } else {
        dec_of(s.drop_last()) * 10 + (s.last() - 48)
    }
}

/// A digit string has a non-negative value.
pub proof fn lemma_dec_of_nonneg(s: Seq<u8>)
    requires
        all_digits(s),
    ensures
        dec_of(s) >= 0,
    decreases s.len(),
{
    if s.len() > 0 {
        assert(all_digits(s.drop_last()));
        lemma_dec_of_nonneg(s.drop_last());
    }
}

/// Extending a digit string cannot decrease its value.
pub proof fn lemma_dec_of_prefix(s: Seq<u8>, j: int)
    requires
        all_digits(s),
        0 <= j <= s.len(),
    ensures
        dec_of(s.take(j)) <= dec_of(s),
    decreases s.len() - j,
{
    if j < s.len() {
        lemma_dec_of_prefix(s, j + 1);
        let t = s.take(j + 1);
        assert(t.drop_last() =~= s.take(j));
        assert(all_digits(t.drop_last()));
        lemma_dec_of_nonneg(t.drop_last());
        assert(dec_of(t) == dec_of(s.take(j)) * 10 + (s[j] - 48));
        assert(dec_of(s.take(j)) <= dec_of(t));
    } else {
        assert(s.take(j) =~= s);
    }
}

/// The numeric reading of `s`: an optional `+` sign, then decimal digits,
/// rejected when empty, malformed, or larger than `max`.
pub open spec fn parse_dec(s: Seq<u8>, max: int) -> Option<int> {
    let t = if s.len() > 0 && s[0] == 43 {
        s.skip(1)
    } else {
        s
    };
    if t.len() > 0 && all_digits(t) && dec_of(t) <= max {
        Some(dec_of(t))
    } else {
        None
    }
}

/// Parse a decimal numeral into a `usize`, as `str::parse` would.
pub fn parse_dec_usize(s: &Vec<u8>) -> (r: Option<usize>)
    ensures
        match r {
            Some(v) => parse_dec(s@, usize::MAX as int) == Some(v as int),
            None => parse_dec(s@, usize::MAX as int) is None,
        },
{
    let start: usize = if s.len() > 0 && s[0] == 43 {
        1
    } else {
        0
    };
    let ghost t = if s@.len() > 0 && s@[0] == 43 {
        s@.skip(1)
    } else {
        s@
    };
    proof {
        assert(t =~= s@.subrange(start as int, s@.len() as int));
    }
    if s.len() == start {
        return None;
    }
    let mut acc: usize = 0;
    let mut i: usize = start;
    while i < s.len()
        invariant
            start <= i <= s@.len(),
            start <= 1,
            t == s@.subrange(start as int, s@.len() as int),
            t == (if s@.len() > 0 && s@[0] == 43 {
                s@.skip(1)
            } else {
                s@
            }),
            all_digits(t.take(i - start)),
            acc == dec_of(t.take(i - start)),
        decreases s@.len() - i,
    {
        let b = s[i];
        if !(48 <= b && b <= 57) {
            proof {
                assert(0 <= i - start < t.len());
                assert(t[i - start] == b);
                assert(!is_digit(b));
                assert(!all_digits(t));
                assert(parse_dec(s@, usize::MAX as int) is None);
            }
            return None;
        }
        let d: usize = (b - 48) as usize;
        proof {
            assert(t.take(i + 1 - start).drop_last() =~= t.take(i - start));
            assert(t.take(i + 1 - start).last() == b);
        }
        if acc > (usize::MAX - d) / 10 {
            proof {
                assert(acc * 10 + d > usize::MAX) by {
                    assert(acc >= (usize::MAX - d) / 10 + 1);
                    assert(((usize::MAX - d) / 10 + 1) * 10 >= usize::MAX - d + 1)
                        by (nonlinear_arith);
                    assert(acc * 10 >= ((usize::MAX - d) / 10 + 1) * 10) by (nonlinear_arith)
                        requires
                            acc >= (usize::MAX - d) / 10 + 1,
                    ;
                }
                if all_digits(t) {
                    lemma_dec_of_prefix(t, i + 1 - start);
                    assert(dec_of(t) >= dec_of(t.take(i + 1 - start)));
                    assert(dec_of(t.take(i + 1 - start)) == acc * 10 + d);
                }
            }
            return None;
        }
        proof {
            assert(acc * 10 + d <= usize::MAX) by {
                assert(acc <= (usize::MAX - d) / 10);
                assert(((usize::MAX - d) / 10) * 10 <= usize::MAX - d) by (nonlinear_arith);
                assert(acc * 10 <= ((usize::MAX - d) / 10) * 10) by (nonlinear_arith)
                    requires
                        acc <= (usize::MAX - d) / 10,
                ;
            }
        }
        acc = acc * 10 + d;
        i = i + 1;
    }
    proof {
        assert(t.take(i - start) =~= t);
    }
    Some(acc)
}

// ---------------------------------------------------------------------------
// Octal numerals
// ---------------------------------------------------------------------------

/// `b` is an ASCII octal digit.
pub open spec fn is_oct_digit(b: u8) -> bool {
    48 <= b <= 55
}

/// Every byte of `s` is an octal digit.
pub open spec fn all_oct_digits(s: Seq<u8>) -> bool {
    forall|i: int| 0 <= i < s.len() ==> is_oct_digit(#[trigger] s[i])
}

/// The value of an octal digit string, most significant first.
pub open spec fn oct_of(s: Seq<u8>) -> int
    decreases s.len(),
{
    if s.len() == 0 {
        0
    } else {
        oct_of(s.drop_last()) * 8 + (s.last() - 48)
    }
}

/// An octal digit string has a non-negative value.
pub proof fn lemma_oct_of_nonneg(s: Seq<u8>)
    requires
        all_oct_digits(s),
    ensures
        oct_of(s) >= 0,
    decreases s.len(),
{
    if s.len() > 0 {
        assert(all_oct_digits(s.drop_last()));
        lemma_oct_of_nonneg(s.drop_last());
    }
}

/// Extending an octal digit string cannot decrease its value.
pub proof fn lemma_oct_of_prefix(s: Seq<u8>, j: int)
    requires
        all_oct_digits(s),
        0 <= j <= s.len(),
    ensures
        oct_of(s.take(j)) <= oct_of(s),
    decreases s.len() - j,
{
    if j < s.len() {
        lemma_oct_of_prefix(s, j + 1);
        let t = s.take(j + 1);
        assert(t.drop_last() =~= s.take(j));
        assert(all_oct_digits(t.drop_last()));
        lemma_oct_of_nonneg(t.drop_last());
        assert(oct_of(t) == oct_of(s.take(j)) * 8 + (s[j] - 48));
        assert(oct_of(s.take(j)) <= oct_of(t));
    } else {
        assert(s.take(j) =~= s);
    }
}

/// The octal reading of `s`: an optional `+` sign, then octal digits,
/// rejected when empty, malformed, or larger than `max`.
pub open spec fn parse_oct(s: Seq<u8>, max: int) -> Option<int> {
    let t = if s.len() > 0 && s[0] == 43 {
        s.skip(1)
    } else {
        s
    };
    if t.len() > 0 && all_oct_digits(t) && oct_of(t) <= max {
        Some(oct_of(t))
    } else {
        None
    }
}

/// Parse an octal numeral into a `u32`, as `u32::from_str_radix` would.
pub fn parse_oct_u32(s: &Vec<u8>) -> (r: Option<u32>)
    ensures
        match r {
            Some(v) => parse_oct(s@, u32::MAX as int) == Some(v as int),
            None => parse_oct(s@, u32::MAX as int) is None,
        },
{
    let start: usize = if s.len() > 0 && s[0] == 43 {
        1
    } else {
        0
    };
    let ghost t = if s@.len() > 0 && s@[0] == 43 {
        s@.skip(1)
    } else {
        s@
    };
    proof {
        assert(t =~= s@.subrange(start as int, s@.len() as int));
    }
    if s.len() == start {
        return None;
    }
    let mut acc: u32 = 0;
    let mut i: usize = start;
    while i < s.len()
        invariant
            start <= i <= s@.len(),
            start <= 1,
            t == s@.subrange(start as int, s@.len() as int),
            t == (if s@.len() > 0 && s@[0] == 43 {
                s@.skip(1)
            } else {
                s@
            }),
            all_oct_digits(t.take(i - start)),
            acc == oct_of(t.take(i - start)),
        decreases s@.len() - i,
    {
        let b = s[i];
        if !(48 <= b && b <= 55) {
            proof {
                assert(t[i - start] == b);
                assert(!all_oct_digits(t));
            }
            return None;
        }
        let d: u32 = (b - 48) as u32;
        proof {
            assert(t.take(i + 1 - start).drop_last() =~= t.take(i - start));
            assert(t.take(i + 1 - start).last() == b);
        }
        if acc > (u32::MAX - d) / 8 {
            proof {
                assert(acc * 8 + d > u32::MAX) by {
                    assert(acc >= (u32::MAX - d) / 8 + 1);
                    assert(((u32::MAX - d) / 8 + 1) * 8 >= u32::MAX - d + 1) by (nonlinear_arith);
                    assert(acc * 8 >= ((u32::MAX - d) / 8 + 1) * 8) by (nonlinear_arith)
                        requires
                            acc >= (u32::MAX - d) / 8 + 1,
                    ;
                }
                if all_oct_digits(t) {
                    lemma_oct_of_prefix(t, i + 1 - start);
                    assert(oct_of(t) >= oct_of(t.take(i + 1 - start)));
                    assert(oct_of(t.take(i + 1 - start)) == acc * 8 + d);
                }
            }
            return None;
        }
        proof {
            assert(acc * 8 + d <= u32::MAX) by {
                assert(acc <= (u32::MAX - d) / 8);
                assert(((u32::MAX - d) / 8) * 8 <= u32::MAX - d) by (nonlinear_arith);
                assert(acc * 8 <= ((u32::MAX - d) / 8) * 8) by (nonlinear_arith)
                    requires
                        acc <= (u32::MAX - d) / 8,
                ;
            }
        }
        acc = acc * 8 + d;
        i = i + 1;
    }
    proof {
        assert(t.take(i - start) =~= t);
    }
    Some(acc)
}

} // verus!
