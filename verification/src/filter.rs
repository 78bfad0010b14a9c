//! Per-board row filters: a query's words must each occur, ignoring case,
//! in one of the texts a row offers.

use vstd::prelude::*;

use crate::aa::{spec_display_id, spec_provider, Model, ModelView};
use crate::board::{BoardRow, Data};
use crate::text::{
    chars_of, occurs, occurs_in, spec_to_lowercase, split_words, string_of, to_lowercase, words,
};

verus! {

/// The tokens of a filter query: its words, each in lowercase.
pub open spec fn query_tokens(q: Seq<char>) -> Seq<Seq<char>> {
    words(q).map_values(|w: Seq<char>| spec_to_lowercase(w))
}

/// The lowercase forms of `texts`.
pub open spec fn lowered(texts: Seq<Seq<char>>) -> Seq<Seq<char>> {
    texts.map_values(|s: Seq<char>| spec_to_lowercase(s))
}

/// `tok` occurs in one of `hay`.
pub open spec fn occurs_in_some(tok: Seq<char>, hay: Seq<Seq<char>>) -> bool {
    exists|f: int| 0 <= f < hay.len() && occurs_in(tok, #[trigger] hay[f])
}

/// Every token occurs in the lowercase form of one of `texts`.
pub open spec fn texts_match(texts: Seq<Seq<char>>, tokens: Seq<Seq<char>>) -> bool {
    forall|t: int| 0 <= t < tokens.len() ==> occurs_in_some(#[trigger] tokens[t], lowered(texts))
}

pub open spec fn seqs_of(v: Seq<Vec<char>>) -> Seq<Seq<char>> {
    v.map_values(|t: Vec<char>| t@)
}

/// The texts a filter looks at in an AA model: its name, its provider and
/// its slug (or id).
pub open spec fn model_texts(m: ModelView) -> Seq<Seq<char>> {
    seq![m.name, spec_provider(m), spec_display_id(m)]
}

/// The texts a filter looks at in a row of the other boards.
pub open spec fn row_texts(r: BoardRow) -> Seq<Seq<char>> {
    r.search@.map_values(|s: String| s@)
}

/// The positions `0..n` at which `pred` holds, in increasing order.
pub open spec fn positions_where(n: nat, pred: spec_fn(int) -> bool) -> Seq<usize>
    decreases n,
{
    if n == 0 {
        Seq::empty()
    } else {
        let prev = positions_where((n - 1) as nat, pred);
        if pred(n - 1) {
            prev.push((n - 1) as usize)
        } else {
            prev
        }
    }
}

/// The positions of the rows of `d` that the tokens match.
pub open spec fn matching_rows(d: Data, tokens: Seq<Seq<char>>) -> Seq<usize> {
    match d {
        Data::Aa(v) => positions_where(v@.len(), |i: int| texts_match(model_texts(v@[i]@), tokens)),
        Data::AaAgents(v) => positions_where(v@.len(), |i: int| texts_match(row_texts(v@[i]), tokens)),
        Data::DeepSwe(v) => positions_where(v@.len(), |i: int| texts_match(row_texts(v@[i]), tokens)),
    }
}

pub proof fn lemma_positions_where(n: nat, pred: spec_fn(int) -> bool)
    requires
        n <= usize::MAX + 1,
    ensures
        positions_where(n, pred).len() <= n,
        forall|k: int|
            0 <= k < positions_where(n, pred).len() ==> #[trigger] positions_where(n, pred)[k] < n
                && pred(positions_where(n, pred)[k] as int),
        forall|a: int, b: int|
            0 <= a < b < positions_where(n, pred).len() ==> #[trigger] positions_where(n, pred)[a]
                < #[trigger] positions_where(n, pred)[b],
        forall|i: int| 0 <= i < n && pred(i) ==> #[trigger] positions_where(n, pred).contains(i as usize),
    decreases n,
{
    if n > 0 {
        lemma_positions_where((n - 1) as nat, pred);
        let prev = positions_where((n - 1) as nat, pred);
        let cur = positions_where(n, pred);
        assert forall|k: int| 0 <= k < cur.len() implies #[trigger] cur[k] < n && pred(cur[k] as int) by {
            if k < prev.len() {
                assert(cur[k] == prev[k]);
            }
        }
        assert forall|a: int, b: int| 0 <= a < b < cur.len() implies #[trigger] cur[a] < #[trigger] cur[b] by {
            assert(cur[a] == prev[a]);
            if b < prev.len() {
                assert(cur[b] == prev[b]);
            }
        }
        assert forall|i: int| 0 <= i < n && pred(i) implies #[trigger] positions_where(n, pred).contains(i as usize) by {
            if i < n - 1 {
                assert(prev.contains(i as usize));
                let k = choose|k: int| 0 <= k < prev.len() && prev[k] == i as usize;
                assert(positions_where(n, pred)[k] == i as usize);
            } else {
                assert(positions_where(n, pred)[prev.len() as int] == i as usize);
            }
        }
    }
}

/// When every position qualifies, the positions are `0..n`.
pub proof fn lemma_positions_all(n: nat, pred: spec_fn(int) -> bool)
    requires
        forall|i: int| 0 <= i < n ==> #[trigger] pred(i),
    ensures
        positions_where(n, pred) == Seq::new(n, |i: int| i as usize),
    decreases n,
{
    if n > 0 {
        lemma_positions_all((n - 1) as nat, pred);
        assert(positions_where(n, pred) =~= Seq::new(n, |i: int| i as usize));
    }
}

/// The tokens of a filter query.
pub fn filter_tokens(query: &str) -> (r: Vec<Vec<char>>)
    ensures
        r@.len() == query_tokens(query@).len(),
        forall|i: int| 0 <= i < r@.len() ==> #[trigger] r@[i]@ == query_tokens(query@)[i],
{
    let cs = chars_of(query);
    let ws = split_words(cs.as_slice());
    let mut out: Vec<Vec<char>> = Vec::new();
    let mut i: usize = 0;
    while i < ws.len()
        invariant
            0 <= i <= ws@.len(),
            ws@.len() == words(query@).len(),
            forall|k: int| 0 <= k < ws@.len() ==> #[trigger] ws@[k]@ == words(query@)[k],
            out@.len() == i,
            forall|k: int| 0 <= k < i ==> #[trigger] out@[k]@ == query_tokens(query@)[k],
        decreases ws@.len() - i,
    {
        let w = string_of(ws[i].as_slice());
        out.push(lowered_chars(w.as_str()));
        i = i + 1;
    }
    out
}

/// Whether `tok` occurs in one of `hay`.
fn occurs_in_any(tok: &Vec<char>, hay: &Vec<Vec<char>>) -> (r: bool)
    ensures
        r == occurs_in_some(tok@, seqs_of(hay@)),
{
    let mut f: usize = 0;
    while f < hay.len()
        invariant
            0 <= f <= hay@.len(),
            forall|g: int| 0 <= g < f ==> !occurs_in(tok@, #[trigger] seqs_of(hay@)[g]),
        decreases hay@.len() - f,
    {
        if occurs(tok.as_slice(), hay[f].as_slice()) {
            assert(seqs_of(hay@)[f as int] == hay@[f as int]@);
            return true;
        }
        f = f + 1;
    }
    false
}

/// Whether every token occurs in one of the texts `hay`.
fn tokens_occur(hay: &Vec<Vec<char>>, tokens: &Vec<Vec<char>>) -> (r: bool)
    ensures
        r == (forall|t: int| 0 <= t < tokens@.len() ==> occurs_in_some(#[trigger] seqs_of(tokens@)[t], seqs_of(hay@))),
{
    let mut t: usize = 0;
    while t < tokens.len()
        invariant
            0 <= t <= tokens@.len(),
            forall|u: int| 0 <= u < t ==> occurs_in_some(#[trigger] seqs_of(tokens@)[u], seqs_of(hay@)),
        decreases tokens@.len() - t,
    {
        if !occurs_in_any(&tokens[t], hay) {
            assert(!occurs_in_some(seqs_of(tokens@)[t as int], seqs_of(hay@)));
            return false;
        }
        t = t + 1;
    }
    true
}

fn lowered_chars(s: &str) -> (r: Vec<char>)
    ensures
        r@ == spec_to_lowercase(s@),
{
    let l = to_lowercase(s);
    chars_of(l.as_str())
}

/// Whether the filter tokens match the AA model `m`.
pub fn aa_matches_filter(m: &Model, tokens: &Vec<Vec<char>>) -> (r: bool)
    ensures
        r == texts_match(model_texts(m@), seqs_of(tokens@)),
{
    let mut hay: Vec<Vec<char>> = Vec::new();
    hay.push(lowered_chars(m.name.as_str()));
    hay.push(lowered_chars(m.provider()));
    hay.push(lowered_chars(m.display_id()));
    assert(seqs_of(hay@) =~= lowered(model_texts(m@)));
    tokens_occur(&hay, tokens)
}

/// Whether the filter tokens match the row `row`.
pub fn row_matches_filter(row: &BoardRow, tokens: &Vec<Vec<char>>) -> (r: bool)
    ensures
        r == texts_match(row_texts(*row), seqs_of(tokens@)),
{
    let mut hay: Vec<Vec<char>> = Vec::new();
    let mut i: usize = 0;
    while i < row.search.len()
        invariant
            0 <= i <= row.search@.len(),
            hay@.len() == i,
            forall|f: int| 0 <= f < i ==> #[trigger] hay@[f]@ == spec_to_lowercase(row.search@[f]@),
        decreases row.search@.len() - i,
    {
        hay.push(lowered_chars(row.search[i].as_str()));
        i = i + 1;
    }
    assert(seqs_of(hay@) =~= lowered(row_texts(*row)));
    tokens_occur(&hay, tokens)
}

/// The positions of the rows of `data` that the tokens match.
pub fn filter_indices(data: &Data, tokens: &Vec<Vec<char>>) -> (r: Vec<usize>)
    ensures
        r@ == matching_rows(*data, seqs_of(tokens@)),
{
    let ghost toks = seqs_of(tokens@);
    let mut out: Vec<usize> = Vec::new();
    match data {
        Data::Aa(v) => {
            let ghost pred = |i: int| texts_match(model_texts(v@[i]@), toks);
            let mut i: usize = 0;
            while i < v.len()
                invariant
                    0 <= i <= v@.len(),
                    out@ == positions_where(i as nat, pred),
                    toks == seqs_of(tokens@),
                    pred == (|j: int| texts_match(model_texts(v@[j]@), toks)),
                decreases v@.len() - i,
            {
                let ok = aa_matches_filter(&v[i], tokens);
                assert(positions_where((i + 1) as nat, pred) == if pred(i as int) {
                    positions_where(i as nat, pred).push(i)
                } else {
                    positions_where(i as nat, pred)
                });
                assert(ok == pred(i as int));
                if ok {
                    out.push(i);
                }
                i = i + 1;
            }
        },
        Data::AaAgents(v) => {
            let ghost pred = |i: int| texts_match(row_texts(v@[i]), toks);
            let mut i: usize = 0;
            while i < v.len()
                invariant
                    0 <= i <= v@.len(),
                    out@ == positions_where(i as nat, pred),
                    toks == seqs_of(tokens@),
                    pred == (|j: int| texts_match(row_texts(v@[j]), toks)),
                decreases v@.len() - i,
            {
                let ok = row_matches_filter(&v[i], tokens);
                assert(positions_where((i + 1) as nat, pred) == if pred(i as int) {
                    positions_where(i as nat, pred).push(i)
                } else {
                    positions_where(i as nat, pred)
                });
                assert(ok == pred(i as int));
                if ok {
                    out.push(i);
                }
                i = i + 1;
            }
        },
        Data::DeepSwe(v) => {
            let ghost pred = |i: int| texts_match(row_texts(v@[i]), toks);
            let mut i: usize = 0;
            while i < v.len()
                invariant
                    0 <= i <= v@.len(),
                    out@ == positions_where(i as nat, pred),
                    toks == seqs_of(tokens@),
                    pred == (|j: int| texts_match(row_texts(v@[j]), toks)),
                decreases v@.len() - i,
            {
                let ok = row_matches_filter(&v[i], tokens);
                assert(positions_where((i + 1) as nat, pred) == if pred(i as int) {
                    positions_where(i as nat, pred).push(i)
                } else {
                    positions_where(i as nat, pred)
                });
                assert(ok == pred(i as int));
                if ok {
                    out.push(i);
                }
                i = i + 1;
            }
        },
    }
    out
}

} // verus!
