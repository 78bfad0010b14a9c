//! Where the filter tokens occur in a text, for highlighting them.

use vstd::prelude::*;

use crate::text::{spec_to_lowercase, to_lowercase};
use vstd::string::StringSliceAdditionalSpecFns;
use vstd::utf8::encode_utf8;

verus! {

broadcast use vstd::string::group_string_axioms;

/// `needle` occurs in `hay` at byte `i`.
pub open spec fn occurs_at(hay: Seq<u8>, needle: Seq<u8>, i: int) -> bool {
    0 <= i && i + needle.len() <= hay.len() && hay.subrange(i, i + needle.len()) == needle
}

/// The first byte at or after `from` where `needle` occurs in `hay`.
pub open spec fn first_at(hay: Seq<u8>, needle: Seq<u8>, from: int) -> Option<int>
    decreases hay.len() + 1 - from,
{
    if from < 0 || from + needle.len() > hay.len() {
        None
    } else if occurs_at(hay, needle, from) {
        Some(from)
    } else {
        first_at(hay, needle, from + 1)
    }
}

/// The earliest occurrence at or after `from` of any of `toks`, as a byte
/// range; of tokens occurring at the same byte the first listed wins.
pub open spec fn earliest(hay: Seq<u8>, toks: Seq<Seq<u8>>, from: int) -> Option<(int, int)>
    decreases toks.len(),
{
    if toks.len() == 0 {
        None
    } else {
        let prev = earliest(hay, toks.drop_last(), from);
        match first_at(hay, toks.last(), from) {
            Some(p) => match prev {
                Some(r) => if p < r.0 {
                    Some((p, p + toks.last().len()))
                } else {
                    prev
                },
                None => Some((p, p + toks.last().len())),
            },
            None => prev,
        }
    }
}

/// The byte ranges of `hay` to highlight from `from` on: the earliest
/// occurrence of a token, then the same from its end.
pub open spec fn match_ranges(hay: Seq<u8>, toks: Seq<Seq<u8>>, from: int) -> Seq<(int, int)>
    decreases hay.len() - from,
{
    match earliest(hay, toks, from) {
        Some(r) => if from < r.1 <= hay.len() {
            seq![r] + match_ranges(hay, toks, r.1)
        } else {
            Seq::empty()
        },
        None => Seq::empty(),
    }
}

/// The byte ranges of the lowercase form of `text` to highlight for
/// `tokens`: none when there are no tokens or all are empty.
pub open spec fn spec_highlight_ranges(text: Seq<char>, tokens: Seq<Seq<char>>) -> Seq<(int, int)> {
    if forall|t: int| 0 <= t < tokens.len() ==> (#[trigger] tokens[t]).len() == 0 {
        Seq::empty()
    } else {
        match_ranges(
            encode_utf8(spec_to_lowercase(text)),
            tokens.map_values(|t: Seq<char>| encode_utf8(t)),
            0,
        )
    }
}

fn bytes_at(hay: &[u8], needle: &[u8], at: usize) -> (r: bool)
    requires
        at + needle@.len() <= hay@.len(),
    ensures
        r == occurs_at(hay@, needle@, at as int),
{
    let mut k: usize = 0;
    while k < needle.len()
        invariant
            0 <= k <= needle@.len(),
            at + needle@.len() <= hay@.len(),
            hay@.len() == hay.len(),
            forall|t: int| 0 <= t < k ==> hay@[at + t] == #[trigger] needle@[t],
        decreases needle@.len() - k,
    {
        if hay[at + k] != needle[k] {
            assert(hay@.subrange(at as int, at + needle@.len())[k as int] != needle@[k as int]);
            return false;
        }
        k = k + 1;
    }
    assert(hay@.subrange(at as int, at + needle@.len()) =~= needle@);
    true
}

/// The first byte at or after `from` where `needle` occurs in `hay`.
fn find_from(hay: &[u8], needle: &[u8], from: usize) -> (r: Option<usize>)
    ensures
        match r {
            Some(i) => first_at(hay@, needle@, from as int) == Some(i as int),
            None => first_at(hay@, needle@, from as int) is None,
        },
{
    proof {
        lemma_first_at_bounds(hay@, needle@, from as int);
    }
    if needle.len() > hay.len() || from > hay.len() - needle.len() {
        return None;
    }
    let last = hay.len() - needle.len();
    let mut at: usize = from;
    loop
        invariant
            from <= at <= last,
            last + needle@.len() == hay@.len(),
            first_at(hay@, needle@, from as int) matches Some(p) ==> from <= p && occurs_at(
                hay@,
                needle@,
                p,
            ),
            forall|j: int| from <= j < at ==> !#[trigger] occurs_at(hay@, needle@, j),
        decreases last - at,
    {
        if bytes_at(hay, needle, at) {
            proof {
                lemma_first_at_least(hay@, needle@, from as int, at as int);
            }
            return Some(at);
        }
        if at == last {
            return None;
        }
        at = at + 1;
    }
}

proof fn lemma_first_at_bounds(hay: Seq<u8>, needle: Seq<u8>, from: int)
    requires
        0 <= from,
    ensures
        first_at(hay, needle, from) matches Some(p) ==> from <= p && occurs_at(hay, needle, p),
        first_at(hay, needle, from) matches Some(p) ==> forall|i: int|
            from <= i < p ==> !#[trigger] occurs_at(hay, needle, i),
        first_at(hay, needle, from) is None ==> forall|i: int|
            from <= i ==> !#[trigger] occurs_at(hay, needle, i),
    decreases hay.len() + 1 - from,
{
    if !(from < 0 || from + needle.len() > hay.len()) && !occurs_at(hay, needle, from) {
        lemma_first_at_bounds(hay, needle, from + 1);
    }
}

/// `first_at` is the least occurrence at or after `from`.
proof fn lemma_first_at_least(hay: Seq<u8>, needle: Seq<u8>, from: int, p: int)
    requires
        0 <= from <= p,
        occurs_at(hay, needle, p),
        forall|j: int| from <= j < p ==> !#[trigger] occurs_at(hay, needle, j),
    ensures
        first_at(hay, needle, from) == Some(p),
    decreases p - from,
{
    if from < p {
        lemma_first_at_least(hay, needle, from + 1, p);
    }
}

proof fn lemma_earliest_bounds(hay: Seq<u8>, toks: Seq<Seq<u8>>, from: int)
    requires
        forall|t: int| 0 <= t < toks.len() ==> (#[trigger] toks[t]).len() > 0,
    ensures
        earliest(hay, toks, from) matches Some(r) ==> from <= r.0 && r.0 < r.1 && r.1 <= hay.len(),
    decreases toks.len(),
{
    if toks.len() > 0 {
        lemma_earliest_bounds(hay, toks.drop_last(), from);
        if first_at(hay, toks.last(), from) is Some {
            lemma_first_at_bounds(hay, toks.last(), from);
        }
    }
}

/// What `earliest` finds: an occurrence of one of the tokens, with no
/// occurrence of any token between `from` and it; when it finds none, no
/// token occurs at or after `from`.
proof fn lemma_earliest_occurs(hay: Seq<u8>, toks: Seq<Seq<u8>>, from: int)
    requires
        0 <= from,
    ensures
        earliest(hay, toks, from) matches Some(r) ==> exists|t: int|
            0 <= t < toks.len() && #[trigger] occurs_at(hay, toks[t], r.0) && r.1 == r.0
                + toks[t].len(),
        earliest(hay, toks, from) matches Some(r) ==> forall|t: int, j: int|
            0 <= t < toks.len() && from <= j < r.0 ==> !#[trigger] occurs_at(hay, toks[t], j),
        earliest(hay, toks, from) is None ==> forall|t: int, j: int|
            0 <= t < toks.len() && from <= j ==> !#[trigger] occurs_at(hay, toks[t], j),
    decreases toks.len(),
{
    if toks.len() > 0 {
        let pre = toks.drop_last();
        let n = toks.len() - 1;
        lemma_earliest_occurs(hay, pre, from);
        lemma_first_at_bounds(hay, toks.last(), from);
        assert(forall|t: int| 0 <= t < n ==> #[trigger] pre[t] == toks[t]);
        assert(toks.last() == toks[n]);
        match earliest(hay, toks, from) {
            Some(r) => {
                if first_at(hay, toks.last(), from) == Some(r.0) && r.1 == r.0 + toks.last().len() {
                    assert(occurs_at(hay, toks[n], r.0));
                } else {
                    let pr = earliest(hay, pre, from)->0;
                    assert(pr == r);
                    let t = choose|t: int|
                        0 <= t < pre.len() && #[trigger] occurs_at(hay, pre[t], r.0) && r.1 == r.0
                            + pre[t].len();
                    assert(occurs_at(hay, toks[t], r.0));
                }
                assert forall|t: int, j: int|
                    0 <= t < toks.len() && from <= j < r.0 implies !#[trigger] occurs_at(
                    hay,
                    toks[t],
                    j,
                ) by {
                    if t < n {
                        assert(!occurs_at(hay, pre[t], j));
                    }
                }
            },
            None => {
                assert forall|t: int, j: int|
                    0 <= t < toks.len() && from <= j implies !#[trigger] occurs_at(
                    hay,
                    toks[t],
                    j,
                ) by {
                    if t < n {
                        assert(!occurs_at(hay, pre[t], j));
                    }
                }
            },
        }
    }
}

/// The ranges `rs` from byte `from` on are what highlighting shows: in
/// order and apart, each an occurrence of a token, with no token occurring
/// before a range and after the previous one (or `from`), nor after the
/// last.
pub open spec fn highlights_fit(hay: Seq<u8>, toks: Seq<Seq<u8>>, rs: Seq<(int, int)>, from: int) -> bool {
    &&& forall|i: int|
        0 <= i < rs.len() ==> from <= (#[trigger] rs[i]).0 < rs[i].1 <= hay.len() && exists|t: int|
            0 <= t < toks.len() && #[trigger] occurs_at(hay, toks[t], rs[i].0) && rs[i].1 == rs[i].0
                + toks[t].len()
    &&& forall|i: int, j: int| 0 <= i < j < rs.len() ==> (#[trigger] rs[i]).1 <= (#[trigger] rs[j]).0
    &&& forall|i: int, t: int, p: int|
        0 <= i < rs.len() && 0 <= t < toks.len() && (if i == 0 {
            from
        } else {
            rs[i - 1].1
        }) <= p < (#[trigger] rs[i]).0 ==> !#[trigger] occurs_at(hay, toks[t], p)
    &&& forall|t: int, p: int|
        0 <= t < toks.len() && (if rs.len() == 0 {
            from
        } else {
            rs.last().1
        }) <= p ==> !#[trigger] occurs_at(hay, toks[t], p)
}

proof fn lemma_match_ranges_fit(hay: Seq<u8>, toks: Seq<Seq<u8>>, from: int)
    requires
        0 <= from,
        forall|t: int| 0 <= t < toks.len() ==> (#[trigger] toks[t]).len() > 0,
    ensures
        highlights_fit(hay, toks, match_ranges(hay, toks, from), from),
    decreases hay.len() - from,
{
    lemma_earliest_bounds(hay, toks, from);
    lemma_earliest_occurs(hay, toks, from);
    let rs = match_ranges(hay, toks, from);
    match earliest(hay, toks, from) {
        Some(r) => {
            let rest = match_ranges(hay, toks, r.1);
            lemma_match_ranges_fit(hay, toks, r.1);
            assert(rs == seq![r] + rest);
            assert(forall|i: int| 0 < i < rs.len() ==> #[trigger] rs[i] == rest[i - 1]);
            assert(rs[0] == r);
            assert forall|i: int| 0 <= i < rs.len() implies from <= (#[trigger] rs[i]).0 < rs[i].1
                <= hay.len() && exists|t: int|
                0 <= t < toks.len() && #[trigger] occurs_at(hay, toks[t], rs[i].0) && rs[i].1
                    == rs[i].0 + toks[t].len() by {
                if i > 0 {
                    assert(rs[i] == rest[i - 1]);
                }
            }
            assert forall|i: int, j: int| 0 <= i < j < rs.len() implies (#[trigger] rs[i]).1 <= (
            #[trigger] rs[j]).0 by {
                assert(rs[j] == rest[j - 1]);
                if i > 0 {
                    assert(rs[i] == rest[i - 1]);
                } else {
                    assert(rest[j - 1].0 >= r.1);
                }
            }
            assert forall|i: int, t: int, p: int|
                0 <= i < rs.len() && 0 <= t < toks.len() && (if i == 0 {
                    from
                } else {
                    rs[i - 1].1
                }) <= p < (#[trigger] rs[i]).0 implies !#[trigger] occurs_at(hay, toks[t], p) by {
                if i > 0 {
                    assert(rs[i] == rest[i - 1]);
                    if i > 1 {
                        assert(rs[i - 1] == rest[i - 2]);
                    }
                }
            }
            assert forall|t: int, p: int|
                0 <= t < toks.len() && (if rs.len() == 0 {
                    from
                } else {
                    rs.last().1
                }) <= p implies !#[trigger] occurs_at(hay, toks[t], p) by {
                if rest.len() > 0 {
                    assert(rs.last() == rest.last());
                }
            }
        },
        None => {},
    }
}

/// Highlighting shows, in the lowercase text, each earliest occurrence of
/// a token in turn: the ranges come in order and do not overlap, each is an
/// occurrence of a token, and no token occurs before a range and after the
/// previous one, nor after the last.
pub proof fn law_highlights_are_successive_earliest_occurrences(
    text: Seq<char>,
    tokens: Seq<Seq<char>>,
)
    requires
        forall|t: int| 0 <= t < tokens.len() ==> (#[trigger] tokens[t]).len() > 0,
    ensures
        highlights_fit(
            encode_utf8(spec_to_lowercase(text)),
            tokens.map_values(|t: Seq<char>| encode_utf8(t)),
            spec_highlight_ranges(text, tokens),
            0,
        ),
{
    let hay = encode_utf8(spec_to_lowercase(text));
    let tb = tokens.map_values(|t: Seq<char>| encode_utf8(t));
    if tokens.len() > 0 {
        assert(tokens[0].len() > 0);
        assert forall|t: int| 0 <= t < tb.len() implies (#[trigger] tb[t]).len() > 0 by {
            lemma_encode_nonempty(tokens[t]);
        }
        lemma_match_ranges_fit(hay, tb, 0);
    }
}

/// The earliest occurrence at or after `from` of any of `toks`.
fn earliest_from(hay: &[u8], toks: &Vec<Vec<u8>>, from: usize) -> (r: Option<(usize, usize)>)
    requires
        forall|t: int| 0 <= t < toks@.len() ==> (#[trigger] toks@[t])@.len() > 0,
    ensures
        match r {
            Some((s, e)) => earliest(hay@, toks@.map_values(|t: Vec<u8>| t@), from as int) == Some((s as int, e as int)),
            None => earliest(hay@, toks@.map_values(|t: Vec<u8>| t@), from as int) is None,
        },
{
    let ghost all = toks@.map_values(|t: Vec<u8>| t@);
    let mut best: Option<(usize, usize)> = None;
    let mut t: usize = 0;
    while t < toks.len()
        invariant
            0 <= t <= toks@.len(),
            all == toks@.map_values(|t: Vec<u8>| t@),
            forall|u: int| 0 <= u < toks@.len() ==> (#[trigger] toks@[u])@.len() > 0,
            match best {
                Some((s, e)) => earliest(hay@, all.take(t as int), from as int) == Some((s as int, e as int)),
                None => earliest(hay@, all.take(t as int), from as int) is None,
            },
        decreases toks@.len() - t,
    {
        let ghost pre = all.take(t as int);
        assert(all.take(t + 1).drop_last() == pre);
        assert(all.take(t + 1).last() == toks@[t as int]@);
        let needle = toks[t].as_slice();
        let found = find_from(hay, needle, from);
        match found {
            Some(p) => {
                proof {
                    lemma_first_at_bounds(hay@, needle@, from as int);
                    assert(occurs_at(hay@, needle@, p as int));
                    assert(hay@.len() == hay.len());
                }
                let end = p + needle.len();
                match best {
                    Some((s, _)) => {
                        if p < s {
                            best = Some((p, end));
                        }
                    },
                    None => {
                        best = Some((p, end));
                    },
                }
            },
            None => {},
        }
        t = t + 1;
    }
    assert(all.take(toks@.len() as int) == all);
    best
}

/// The segments a text is drawn in from byte `last` to byte `n`: before
/// each range of `rs` the plain gap since the previous one, then the range
/// itself, highlighted; after the last range the plain rest.
pub open spec fn segments_from(rs: Seq<(int, int)>, last: int, n: int) -> Seq<(int, int, bool)>
    decreases rs.len(),
{
    if rs.len() == 0 {
        if last < n {
            seq![(last, n, false)]
        } else {
            Seq::empty()
        }
    } else {
        let r = rs[0];
        (if r.0 > last {
            seq![(last, r.0, false)]
        } else {
            Seq::empty()
        }) + seq![(r.0, r.1, true)] + segments_from(rs.drop_first(), r.1, n)
    }
}

/// How `text` is drawn for the filter `tokens`, as byte ranges of the
/// text with a highlight flag: the whole text plain when no token has a
/// character, else the gaps and the highlight ranges in turn.
pub open spec fn spec_highlight_segments(text: Seq<char>, tokens: Seq<Seq<char>>) -> Seq<(int, int, bool)> {
    let n = encode_utf8(text).len() as int;
    if forall|t: int| 0 <= t < tokens.len() ==> (#[trigger] tokens[t]).len() == 0 {
        seq![(0, n, false)]
    } else {
        segments_from(spec_highlight_ranges(text, tokens), 0, n)
    }
}

/// The bytes of `b` that the segments `segs` cover, one after another.
pub open spec fn pieces(b: Seq<u8>, segs: Seq<(int, int, bool)>) -> Seq<u8>
    decreases segs.len(),
{
    if segs.len() == 0 {
        Seq::empty()
    } else {
        b.subrange(segs[0].0, segs[0].1) + pieces(b, segs.drop_first())
    }
}

/// The ranges of the highlighted segments of `segs`, in order.
pub open spec fn highlighted(segs: Seq<(int, int, bool)>) -> Seq<(int, int)>
    decreases segs.len(),
{
    if segs.len() == 0 {
        Seq::empty()
    } else {
        (if segs[0].2 {
            seq![(segs[0].0, segs[0].1)]
        } else {
            Seq::empty()
        }) + highlighted(segs.drop_first())
    }
}

proof fn lemma_one_segment(b: Seq<u8>, x: (int, int, bool))
    ensures
        pieces(b, seq![x]) == b.subrange(x.0, x.1),
        highlighted(seq![x]) == if x.2 {
            seq![(x.0, x.1)]
        } else {
            Seq::<(int, int)>::empty()
        },
{
    let s = seq![x];
    let e = Seq::<(int, int, bool)>::empty();
    assert(s.drop_first() =~= e);
    assert(pieces(b, e) == Seq::<u8>::empty());
    assert(highlighted(e) == Seq::<(int, int)>::empty());
    assert(pieces(b, s) =~= b.subrange(x.0, x.1));
    assert(highlighted(s) =~= (if x.2 {
        seq![(x.0, x.1)]
    } else {
        Seq::<(int, int)>::empty()
    }));
}

proof fn lemma_pieces_append(b: Seq<u8>, x: Seq<(int, int, bool)>, y: Seq<(int, int, bool)>)
    ensures
        pieces(b, x + y) == pieces(b, x) + pieces(b, y),
        highlighted(x + y) == highlighted(x) + highlighted(y),
    decreases x.len(),
{
    if x.len() == 0 {
        assert(x + y =~= y);
        assert(pieces(b, x) + pieces(b, y) =~= pieces(b, y));
        assert(highlighted(x) + highlighted(y) =~= highlighted(y));
    } else {
        assert((x + y).drop_first() =~= x.drop_first() + y);
        assert((x + y)[0] == x[0]);
        lemma_pieces_append(b, x.drop_first(), y);
        let h = if x[0].2 {
            seq![(x[0].0, x[0].1)]
        } else {
            Seq::<(int, int)>::empty()
        };
        assert(h + (highlighted(x.drop_first()) + highlighted(y)) =~= (h + highlighted(
            x.drop_first(),
        )) + highlighted(y));
        let p = b.subrange(x[0].0, x[0].1);
        assert(p + (pieces(b, x.drop_first()) + pieces(b, y)) =~= (p + pieces(b, x.drop_first()))
            + pieces(b, y));
    }
}

proof fn lemma_segments_from(b: Seq<u8>, rs: Seq<(int, int)>, last: int, n: int)
    requires
        0 <= last <= n <= b.len(),
        forall|i: int| 0 <= i < rs.len() ==> last <= (#[trigger] rs[i]).0 < rs[i].1 <= n,
        forall|i: int, j: int| 0 <= i < j < rs.len() ==> (#[trigger] rs[i]).1 <= (#[trigger] rs[j]).0,
    ensures
        pieces(b, segments_from(rs, last, n)) == b.subrange(last, n),
        highlighted(segments_from(rs, last, n)) == rs,
    decreases rs.len(),
{
    if rs.len() == 0 {
        if last < n {
            lemma_one_segment(b, (last, n, false));
        } else {
            assert(b.subrange(last, n) =~= Seq::<u8>::empty());
        }
    } else {
        let r = rs[0];
        let rest = rs.drop_first();
        assert forall|i: int| 0 <= i < rest.len() implies r.1 <= (#[trigger] rest[i]).0 < rest[i].1 <= n by {
            assert(rest[i] == rs[i + 1]);
        }
        assert forall|i: int, j: int| 0 <= i < j < rest.len() implies (#[trigger] rest[i]).1 <= (
        #[trigger] rest[j]).0 by {
            assert(rest[i] == rs[i + 1]);
            assert(rest[j] == rs[j + 1]);
        }
        lemma_segments_from(b, rest, r.1, n);
        let gap = if r.0 > last {
            seq![(last, r.0, false)]
        } else {
            Seq::<(int, int, bool)>::empty()
        };
        let mid = seq![(r.0, r.1, true)];
        let tail = segments_from(rest, r.1, n);
        assert(segments_from(rs, last, n) == gap + mid + tail);
        lemma_pieces_append(b, gap + mid, tail);
        lemma_pieces_append(b, gap, mid);
        lemma_one_segment(b, (r.0, r.1, true));
        if r.0 > last {
            lemma_one_segment(b, (last, r.0, false));
        } else {
            assert(b.subrange(last, r.0) =~= Seq::<u8>::empty());
        }
        assert(b.subrange(last, r.0) + b.subrange(r.0, r.1) + b.subrange(r.1, n) =~= b.subrange(
            last,
            n,
        ));
        assert(seq![r] + rest =~= rs);
        assert(highlighted(gap) + highlighted(mid) =~= seq![r]);
    }
}

/// Drawing a text in its highlight segments gives back the text, and the
/// highlighted segments are the highlight ranges, in order, when lowering
/// the text's case keeps its length in bytes (as it does for ASCII).
pub proof fn law_highlight_segments_rebuild_the_text(text: Seq<char>, tokens: Seq<Seq<char>>)
    requires
        (forall|t: int| 0 <= t < tokens.len() ==> (#[trigger] tokens[t]).len() > 0) || (forall|
            t: int,
        | 0 <= t < tokens.len() ==> (#[trigger] tokens[t]).len() == 0),
        encode_utf8(spec_to_lowercase(text)).len() == encode_utf8(text).len(),
    ensures
        pieces(encode_utf8(text), spec_highlight_segments(text, tokens)) == encode_utf8(text),
        highlighted(spec_highlight_segments(text, tokens)) == spec_highlight_ranges(text, tokens),
{
    let b = encode_utf8(text);
    let n = b.len() as int;
    if forall|t: int| 0 <= t < tokens.len() ==> (#[trigger] tokens[t]).len() == 0 {
        lemma_one_segment(b, (0, n, false));
        assert(b.subrange(0, n) =~= b);
        assert(spec_highlight_ranges(text, tokens) =~= Seq::<(int, int)>::empty());
    } else {
        law_highlights_are_successive_earliest_occurrences(text, tokens);
        let rs = spec_highlight_ranges(text, tokens);
        lemma_segments_from(b, rs, 0, n);
        assert(b.subrange(0, n) =~= b);
    }
}

/// The pairs of `s` as pairs of integers.
pub open spec fn as_int_pairs(s: Seq<(usize, usize)>) -> Seq<(int, int)> {
    s.map_values(|p: (usize, usize)| (p.0 as int, p.1 as int))
}

/// The bytes of each token.
fn token_bytes(tokens: &Vec<String>) -> (r: Vec<Vec<u8>>)
    ensures
        r@.len() == tokens@.len(),
        forall|t: int| 0 <= t < tokens@.len() ==> (#[trigger] r@[t])@ == encode_utf8(tokens@[t]@),
{
    let mut toks: Vec<Vec<u8>> = Vec::new();
    let mut i: usize = 0;
    while i < tokens.len()
        invariant
            0 <= i <= tokens@.len(),
            toks@.len() == i,
            forall|t: int| 0 <= t < i ==> (#[trigger] toks@[t])@ == encode_utf8(tokens@[t]@),
        decreases tokens@.len() - i,
    {
        let b = tokens[i].as_str().as_bytes();
        let mut v: Vec<u8> = Vec::new();
        let mut k: usize = 0;
        while k < b.len()
            invariant
                0 <= k <= b@.len(),
                v@ == b@.take(k as int),
            decreases b@.len() - k,
        {
            v.push(b[k]);
            assert(b@.take(k + 1) == b@.take(k as int).push(b@[k as int]));
            k = k + 1;
        }
        assert(b@.take(b@.len() as int) == b@);
        toks.push(v);
        i = i + 1;
    }
    toks
}

proof fn lemma_encode_nonempty(s: Seq<char>)
    requires
        s.len() > 0,
    ensures
        encode_utf8(s).len() > 0,
{
    let c = s[0] as u32;
    assert(encode_utf8(s) == vstd::utf8::encode_scalar(c) + encode_utf8(s.drop_first()));
    assert(vstd::utf8::encode_scalar(c).len() > 0);
}

/// The byte ranges of the lowercase form of `text` where the filter
/// tokens occur, earliest first, each search going on from the end of the
/// previous match. Tokens are all empty or all non-empty: the scan makes no
/// progress on an empty token beside non-empty ones.
pub fn highlight_ranges(text: &str, tokens: &Vec<String>) -> (r: Vec<(usize, usize)>)
    requires
        (forall|t: int| 0 <= t < tokens@.len() ==> (#[trigger] tokens@[t])@.len() > 0) || (forall|
            t: int,
        | 0 <= t < tokens@.len() ==> (#[trigger] tokens@[t])@.len() == 0),
    ensures
        as_int_pairs(r@) == spec_highlight_ranges(text@, tokens@.map_values(|t: String| t@)),
{
    let ghost tv = tokens@.map_values(|t: String| t@);
    if tokens.len() == 0 || tokens[0].as_str().unicode_len() == 0 {
        assert(forall|t: int| 0 <= t < tv.len() ==> (#[trigger] tv[t]).len() == 0) by {
            assert forall|t: int| 0 <= t < tv.len() implies (#[trigger] tv[t]).len() == 0 by {
                assert(tv[t] == tokens@[t]@);
                assert(tokens@[0]@.len() == 0);
            }
        }
        let out: Vec<(usize, usize)> = Vec::new();
        assert(as_int_pairs(out@) =~= Seq::empty());
        return out;
    }
    assert(tv[0] == tokens@[0]@);
    let toks = token_bytes(tokens);
    let ghost tb = tv.map_values(|t: Seq<char>| encode_utf8(t));
    assert(toks@.map_values(|t: Vec<u8>| t@) =~= tb);
    assert forall|t: int| 0 <= t < toks@.len() implies (#[trigger] toks@[t])@.len() > 0 by {
        assert(tokens@[0]@.len() != 0);
        lemma_encode_nonempty(tokens@[t]@);
    }
    let lower = to_lowercase(text);
    let hay = lower.as_str().as_bytes();
    let mut out: Vec<(usize, usize)> = Vec::new();
    let mut last_end: usize = 0;
    assert(as_int_pairs(out@) + match_ranges(hay@, tb, 0) =~= match_ranges(hay@, tb, 0));
    loop
        invariant
            forall|t: int| 0 <= t < toks@.len() ==> (#[trigger] toks@[t])@.len() > 0,
            toks@.map_values(|t: Vec<u8>| t@) == tb,
            hay@ == encode_utf8(spec_to_lowercase(text@)),
            last_end <= hay@.len(),
            as_int_pairs(out@) + match_ranges(hay@, tb, last_end as int) == match_ranges(hay@, tb, 0),
        ensures
            as_int_pairs(out@) == match_ranges(hay@, tb, 0),
        decreases hay@.len() - last_end,
    {
        proof {
            lemma_earliest_bounds(hay@, tb, last_end as int);
        }
        match earliest_from(hay, &toks, last_end) {
            Some((s, e)) => {
                let ghost rest = match_ranges(hay@, tb, e as int);
                let ghost before = as_int_pairs(out@);
                assert(match_ranges(hay@, tb, last_end as int) == seq![(s as int, e as int)] + rest);
                out.push((s, e));
                assert(as_int_pairs(out@) =~= before.push((s as int, e as int)));
                assert(before.push((s as int, e as int)) + rest =~= before + (seq![(s as int, e as int)] + rest));
                last_end = e;
            },
            None => {
                assert(match_ranges(hay@, tb, last_end as int) == Seq::<(int, int)>::empty());
                assert(as_int_pairs(out@) + match_ranges(hay@, tb, last_end as int) =~= as_int_pairs(out@));
                break;
            },
        }
    }
    assert(tv[0].len() > 0);
    out
}

/// The triples of `s` with their bounds as integers.
pub open spec fn as_int_segments(s: Seq<(usize, usize, bool)>) -> Seq<(int, int, bool)> {
    s.map_values(|p: (usize, usize, bool)| (p.0 as int, p.1 as int, p.2))
}

/// How `text` is drawn for the filter `tokens`: byte ranges of the text,
/// each with whether it is highlighted. Tokens are all empty or all
/// non-empty, as for `highlight_ranges`.
pub fn highlight_segments(text: &str, tokens: &Vec<String>) -> (r: Vec<(usize, usize, bool)>)
    requires
        (forall|t: int| 0 <= t < tokens@.len() ==> (#[trigger] tokens@[t])@.len() > 0) || (forall|
            t: int,
        | 0 <= t < tokens@.len() ==> (#[trigger] tokens@[t])@.len() == 0),
    ensures
        as_int_segments(r@) == spec_highlight_segments(text@, tokens@.map_values(|t: String| t@)),
{
    let ghost tv = tokens@.map_values(|t: String| t@);
    let n = text.as_bytes().len();
    if tokens.len() == 0 || tokens[0].as_str().unicode_len() == 0 {
        assert(forall|t: int| 0 <= t < tv.len() ==> (#[trigger] tv[t]).len() == 0) by {
            assert forall|t: int| 0 <= t < tv.len() implies (#[trigger] tv[t]).len() == 0 by {
                assert(tv[t] == tokens@[t]@);
                assert(tokens@[0]@.len() == 0);
            }
        }
        let out = vec![(0, n, false)];
        assert(as_int_segments(out@) =~= seq![(0int, n as int, false)]);
        return out;
    }
    assert(tv[0] == tokens@[0]@);
    assert(tv[0].len() > 0);
    let ranges = highlight_ranges(text, tokens);
    let ghost rs = as_int_pairs(ranges@);
    let mut out: Vec<(usize, usize, bool)> = Vec::new();
    let mut last: usize = 0;
    let mut i: usize = 0;
    assert(rs.skip(0) =~= rs);
    assert(as_int_segments(out@) + segments_from(rs, 0, n as int) =~= segments_from(rs, 0, n as int));
    while i < ranges.len()
        invariant
            0 <= i <= ranges@.len(),
            rs == as_int_pairs(ranges@),
            as_int_segments(out@) + segments_from(rs.skip(i as int), last as int, n as int)
                == segments_from(rs, 0, n as int),
        decreases ranges@.len() - i,
    {
        let (s, e) = ranges[i];
        let ghost before = as_int_segments(out@);
        let ghost cur = rs.skip(i as int);
        assert(cur[0] == (s as int, e as int));
        assert(cur.drop_first() =~= rs.skip(i + 1));
        let ghost gap = if s > last {
            seq![(last as int, s as int, false)]
        } else {
            Seq::<(int, int, bool)>::empty()
        };
        let ghost tail = segments_from(rs.skip(i + 1), e as int, n as int);
        assert(segments_from(cur, last as int, n as int) == gap + seq![(s as int, e as int, true)] + tail);
        if s > last {
            out.push((last, s, false));
        }
        out.push((s, e, true));
        assert(as_int_segments(out@) =~= before + gap + seq![(s as int, e as int, true)]);
        assert(as_int_segments(out@) + tail =~= before + (gap + seq![(s as int, e as int, true)] + tail));
        last = e;
        i = i + 1;
    }
    let ghost before = as_int_segments(out@);
    assert(rs.skip(i as int) =~= Seq::<(int, int)>::empty());
    if last < n {
        out.push((last, n, false));
        assert(as_int_segments(out@) =~= before + seq![(last as int, n as int, false)]);
    } else {
        assert(before + Seq::<(int, int, bool)>::empty() =~= before);
    }
    out
}

} // verus!
