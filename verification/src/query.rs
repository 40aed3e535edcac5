//! Parsing of URL-encoded query strings, and the lookup of the
//! destination-signaling parameter in them.
//!
//! A query string is a sequence of `&`-separated segments; a segment is a
//! key, optionally followed by `=` and a value; keys and values are
//! percent-decoded, with `+` standing for a space. Decoding is all-or-nothing:
//! one malformed percent escape anywhere makes the whole query string yield
//! no destination, rather than a hard error.

use vstd::prelude::*;
use crate::message::{bytes_eq, copy_bytes, dest_key, dest_key_bytes};

verus! {

/// The value of an ASCII hex digit, or `None` for any other byte.
pub open spec fn hex_val(b: u8) -> Option<u8> {
    if 48 <= b && b <= 57 {
        Some((b - 48) as u8)
    } else if 65 <= b && b <= 70 {
        Some((b - 55) as u8)
    } else if 97 <= b && b <= 102 {
        Some((b - 87) as u8)
    } else {
        None
    }
}

/// Percent-decoding of a byte sequence: `%XY` becomes the byte `16*X + Y`,
/// `+` becomes a space, every other byte stands for itself. `None` on a
/// malformed escape (`%` not followed by two hex digits).
pub open spec fn pct_decode(s: Seq<u8>) -> Option<Seq<u8>>
    decreases s.len(),
{
    if s.len() == 0 {
        Some(Seq::<u8>::empty())
    } else if s[0] == 37 {
        if s.len() >= 3 {
            match hex_val(s[1]) {
                Some(h) => match hex_val(s[2]) {
                    Some(l) => match pct_decode(s.skip(3)) {
                        Some(t) => Some(seq![(h * 16 + l) as u8] + t),
                        None => None,
                    },
                    None => None,
                },
                None => None,
            }
        } else {
            None
        }
    } else {
        let b = if s[0] == 43 {
            32u8
        } else {
            s[0]
        };
        match pct_decode(s.skip(1)) {
            Some(t) => Some(seq![b] + t),
            None => None,
        }
    }
}

/// The index of the first occurrence of `c` in `s`, or `-1` if absent.
pub open spec fn find_byte(s: Seq<u8>, c: u8) -> int
    decreases s.len(),
{
    if s.len() == 0 {
        -1
    } else if s[0] == c {
        0
    } else {
        let r = find_byte(s.skip(1), c);
        if r < 0 {
            -1
        } else {
            r + 1
        }
    }
}

/// `find_byte` returns `-1` exactly when `c` is absent, and otherwise the
/// first index holding `c`.
pub proof fn lemma_find_byte(s: Seq<u8>, c: u8)
    ensures
        find_byte(s, c) == -1 ==> forall|j: int| 0 <= j < s.len() ==> s[j] != c,
        find_byte(s, c) != -1 ==> 0 <= find_byte(s, c) < s.len() && s[find_byte(s, c)] == c
            && (forall|j: int| 0 <= j < find_byte(s, c) ==> s[j] != c),
    decreases s.len(),
{
    if s.len() == 0 {
    } else if s[0] == c {
    } else {
        lemma_find_byte(s.skip(1), c);
        let r = find_byte(s.skip(1), c);
        if r == -1 {
            assert forall|j: int| 0 <= j < s.len() implies s[j] != c by {
                if j > 0 {
                    assert(s.skip(1)[j - 1] == s[j]);
                }
            }
        } else {
            assert(s.skip(1)[r] == s[r + 1]);
            assert forall|j: int| 0 <= j < r + 1 implies s[j] != c by {
                if j > 0 {
                    assert(s.skip(1)[j - 1] == s[j]);
                }
            }
        }
    }
}

/// One `key[=value]` segment, percent-decoded: the decoded key and value, or
/// `None` when either side has a malformed escape. A segment without `=` has
/// the empty value.
pub open spec fn parse_pair(seg: Seq<u8>) -> Option<(Seq<u8>, Seq<u8>)> {
    let e = find_byte(seg, 61);
    let rawk = if e < 0 {
        seg
    } else {
        seg.take(e)
    };
    let rawv = if e < 0 {
        Seq::<u8>::empty()
    } else {
        seg.skip(e + 1)
    };
    match pct_decode(rawk) {
        Some(k) => match pct_decode(rawv) {
            Some(v) => Some((k, v)),
            None => None,
        },
        None => None,
    }
}

/// The destination the query string carries. The outer `None` means some
/// segment failed to decode; the inner option is the lookup of the
/// destination key over the decoded pairs, the last occurrence winning.
pub open spec fn query_lookup(q: Seq<u8>) -> Option<Option<Seq<u8>>>
    decreases q.len(),
{
    let a = find_byte(q, 38);
    if 0 <= a && a < q.len() {
        match parse_pair(q.take(a)) {
            Some(p) => match query_lookup(q.skip(a + 1)) {
                Some(rest) => Some(
                    if rest is Some {
                        rest
                    } else if p.0 == dest_key() {
                        Some(p.1)
                    } else {
                        None
                    },
                ),
                None => None,
            },
            None => None,
        }
    } else {
        match parse_pair(q) {
            Some(p) => Some(
                if p.0 == dest_key() {
                    Some(p.1)
                } else {
                    None::<Seq<u8>>
                },
            ),
            None => None,
        }
    }
}

/// The destination the query string yields: a decode failure anywhere is
/// treated as the key being absent.
pub open spec fn spec_query_destination(q: Seq<u8>) -> Option<Seq<u8>> {
    match query_lookup(q) {
        Some(r) => r,
        None => None,
    }
}

/// The value of an ASCII hex digit, or `None` for any other byte.
pub fn hex_value(b: u8) -> (r: Option<u8>)
    ensures
        r == hex_val(b),
{
    if 48 <= b && b <= 57 {
        Some(b - 48)
    } else if 65 <= b && b <= 70 {
        Some(b - 55)
    } else if 97 <= b && b <= 102 {
        Some(b - 87)
    } else {
        None
    }
}

/// Percent-decode a byte vector; `None` on a malformed escape.
pub fn percent_decode(s: &Vec<u8>) -> (r: Option<Vec<u8>>)
    ensures
        r.deep_view() == pct_decode(s@),
{
    let mut out: Vec<u8> = Vec::new();
    let mut i: usize = 0;
    proof {
        assert(s@.skip(0) =~= s@);
        assert(out@ =~= Seq::<u8>::empty());
        match pct_decode(s@) {
            Some(t) => {
                assert(out@ + t =~= t);
            },
            None => {},
        }
    }
    while i < s.len()
        invariant
            i <= s.len(),
            pct_decode(s@) == (match pct_decode(s@.skip(i as int)) {
                Some(t) => Some(out@ + t),
                None => None::<Seq<u8>>,
            }),
        decreases s.len() - i,
    {
        let b = s[i];
        proof {
            assert(s@.skip(i as int)[0] == s@[i as int]);
        }
        if b == 37 {
            if s.len() - i >= 3 {
                let h = hex_value(s[i + 1]);
                let l = hex_value(s[i + 2]);
                proof {
                    assert(s@.skip(i as int)[1] == s@[i + 1]);
                    assert(s@.skip(i as int)[2] == s@[i + 2]);
                    assert(s@.skip(i as int).skip(3) =~= s@.skip(i + 3));
                }
                match (h, l) {
                    (Some(hv), Some(lv)) => {
                        let decoded = hv * 16 + lv;
                        proof {
                            match pct_decode(s@.skip(i + 3)) {
                                Some(t) => {
                                    assert(out@ + (seq![decoded] + t) =~= out@.push(decoded)
                                        + t);
                                },
                                None => {},
                            }
                        }
                        out.push(decoded);
                        i = i + 3;
                    },
                    _ => {
                        return None;
                    },
                }
            } else {
                return None;
            }
        } else {
            let c = if b == 43 {
                32
            } else {
                b
            };
            proof {
                assert(s@.skip(i as int).skip(1) =~= s@.skip(i + 1));
                match pct_decode(s@.skip(i + 1)) {
                    Some(t) => {
                        assert(out@ + (seq![c] + t) =~= out@.push(c) + t);
                    },
                    None => {},
                }
            }
            out.push(c);
            i = i + 1;
        }
    }
    proof {
        assert(s@.skip(i as int) =~= Seq::<u8>::empty());
        assert(out@ + Seq::<u8>::empty() =~= out@);
    }
    Some(out)
}

/// The first index at or after `start` holding `c`, or the length if absent;
/// stated against [`find_byte`] on the suffix.
pub fn find_from(s: &Vec<u8>, start: usize, c: u8) -> (r: usize)
    requires
        start <= s.len(),
    ensures
        start <= r <= s@.len(),
        ({
            let f = find_byte(s@.skip(start as int), c);
            if f == -1 {
                r == s@.len()
            } else {
                r == start + f
            }
        }),
{
    let mut i: usize = start;
    while i < s.len()
        invariant
            start <= i <= s.len(),
            forall|j: int| start <= j < i ==> s@[j] != c,
        decreases s.len() - i,
    {
        if s[i] == c {
            proof {
                lemma_find_byte(s@.skip(start as int), c);
                let sk = s@.skip(start as int);
                let f = find_byte(sk, c);
                assert(sk[i - start] == s@[i as int]);
                assert(f != -1);
                if f < i - start {
                    assert(s@[f + start] == sk[f]);
                    assert(false);
                }
                if f > i - start {
                    assert(sk[i - start] != c);
                    assert(false);
                }
            }
            return i;
        }
        i = i + 1;
    }
    proof {
        lemma_find_byte(s@.skip(start as int), c);
        let sk = s@.skip(start as int);
        let f = find_byte(sk, c);
        if f != -1 {
            assert(sk[f] == s@[f + start]);
            assert(false);
        }
    }
    s.len()
}

/// The bytes of `s` from index `a` (inclusive) to `b` (exclusive).
pub fn subvec(s: &Vec<u8>, a: usize, b: usize) -> (r: Vec<u8>)
    requires
        a <= b <= s.len(),
    ensures
        r@ == s@.subrange(a as int, b as int),
{
    let mut r: Vec<u8> = Vec::new();
    let mut i: usize = a;
    while i < b
        invariant
            a <= i <= b <= s.len(),
            r@ == s@.subrange(a as int, i as int),
        decreases b - i,
    {
        r.push(s[i]);
        proof {
            assert(r@ =~= s@.subrange(a as int, i + 1));
        }
        i = i + 1;
    }
    r
}

/// Split one segment at its first `=` and percent-decode both sides.
pub fn parse_pair_vec(seg: &Vec<u8>) -> (r: Option<(Vec<u8>, Vec<u8>)>)
    ensures
        r.deep_view() == parse_pair(seg@),
{
    proof {
        lemma_find_byte(seg@, 61);
        assert(seg@.skip(0) =~= seg@);
    }
    let e = find_from(seg, 0, 61);
    let ghost f = find_byte(seg@, 61);
    let rawk: Vec<u8>;
    let rawv: Vec<u8>;
    if e == seg.len() {
        proof {
            assert(f == -1);
        }
        rawk = copy_bytes(seg);
        rawv = Vec::new();
        proof {
            assert(rawv@ =~= Seq::<u8>::empty());
        }
    } else {
        proof {
            assert(f == e);
        }
        rawk = subvec(seg, 0, e);
        rawv = subvec(seg, e + 1, seg.len());
        proof {
            assert(rawk@ =~= seg@.take(f));
            assert(rawv@ =~= seg@.skip(f + 1));
        }
    }
    match percent_decode(&rawk) {
        None => None,
        Some(k) => match percent_decode(&rawv) {
            None => None,
            Some(v) => {
                proof {
                    assert(k.deep_view() =~= k@);
                    assert(v.deep_view() =~= v@);
                }
                Some((k, v))
            },
        },
    }
}

/// Look up the destination key in the query string: segments are decoded in
/// order, the last occurrence of the key wins, and any decode failure makes
/// the whole lookup yield `None`.
pub fn query_destination(q: &Vec<u8>) -> (r: Option<Vec<u8>>)
    ensures
        r.deep_view() == spec_query_destination(q@),
{
    let mut start: usize = 0;
    let mut found: Option<Vec<u8>> = None;
    proof {
        assert(q@.skip(0) =~= q@);
    }
    loop
        invariant
            start <= q.len(),
            query_lookup(q@) == (match query_lookup(q@.skip(start as int)) {
                Some(rest) => Some(
                    if rest is Some {
                        rest
                    } else {
                        found.deep_view()
                    },
                ),
                None => None::<Option<Seq<u8>>>,
            }),
        decreases q.len() - start,
    {
        let ghost sk = q@.skip(start as int);
        proof {
            lemma_find_byte(sk, 38);
        }
        let end = find_from(q, start, 38);
        let ghost a = find_byte(sk, 38);
        let seg = subvec(q, start, end);
        proof {
            if end == q.len() {
                assert(a == -1);
                assert(seg@ =~= sk);
            } else {
                assert(a == end - start);
                assert(seg@ =~= sk.take(a));
                assert(sk.skip(a + 1) =~= q@.skip(end + 1));
            }
        }
        let pair = parse_pair_vec(&seg);
        match pair {
            None => {
                return None;
            },
            Some((k, v)) => {
                let dk = dest_key_bytes();
                proof {
                    assert(k.deep_view() =~= k@);
                    assert(v.deep_view() =~= v@);
                }
                if bytes_eq(&k, &dk) {
                    found = Some(v);
                } else {
                    // an earlier match, if any, stands
                }
                if end == q.len() {
                    return found;
                }
                start = end + 1;
            },
        }
    }
}

} // verus!
