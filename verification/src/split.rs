//! Cutting a text into the fragments that lie between the occurrences of
//! a delimiter.

use crate::text::rows;
use vstd::prelude::*;

verus! {

/// Whether `s` begins with `d`.
pub open spec fn starts_with(s: Seq<char>, d: Seq<char>) -> bool {
    d.len() <= s.len() && s.subrange(0, d.len() as int) == d
}

/// The fragments of `s` between the occurrences of `d`, found from left
/// to right without overlap. Two occurrences in a row, or one at either
/// end of `s`, leave an empty fragment. An empty `d` occurs before and
/// after every character.
pub open spec fn split(s: Seq<char>, d: Seq<char>) -> Seq<Seq<char>>
    decreases s.len(),
{
    if d.len() == 0 {
        seq![Seq::<char>::empty()] + Seq::new(s.len(), |i: int| seq![s[i]]) + seq![
            Seq::<char>::empty(),
        ]
    } else if s.len() == 0 {
        seq![Seq::<char>::empty()]
    } else if starts_with(s, d) {
        seq![Seq::<char>::empty()] + split(s.skip(d.len() as int), d)
    } else {
        let rest = split(s.skip(1), d);
        seq![seq![s[0]] + rest.first()] + rest.drop_first()
    }
}

/// The fragments found so far, the one being read, and the fragments of
/// what is still unread, as one sequence.
spec fn glue(done: Seq<Seq<char>>, cur: Seq<char>, rest: Seq<Seq<char>>) -> Seq<Seq<char>> {
    done.push(cur + rest.first()) + rest.drop_first()
}

/// Splitting always gives at least one fragment.
pub proof fn lemma_split_len(s: Seq<char>, d: Seq<char>)
    ensures
        split(s, d).len() >= 1,
    decreases s.len(),
{
    if d.len() == 0 || s.len() == 0 {
    } else if starts_with(s, d) {
        lemma_split_len(s.skip(d.len() as int), d);
    } else {
        lemma_split_len(s.skip(1), d);
    }
}

/// Whether `d` stands in `s` at position `pos`.
pub fn matches_at(s: &[char], d: &[char], pos: usize) -> (found: bool)
    requires
        pos <= s.len(),
    ensures
        found == starts_with(s@.skip(pos as int), d@),
{
    if d.len() > s.len() - pos {
        return false;
    }
    let ghost tail = s@.skip(pos as int);
    let mut i: usize = 0;
    while i < d.len()
        invariant
            pos + d.len() <= s.len(),
            i <= d.len(),
            tail == s@.skip(pos as int),
            forall|k: int| 0 <= k < i ==> tail[k] == d@[k],
        decreases d.len() - i,
    {
        if s[pos + i] != d[i] {
            assert(tail.subrange(0, d.len() as int)[i as int] != d@[i as int]);
            return false;
        }
        i += 1;
    }
    assert(tail.subrange(0, d.len() as int) =~= d@);
    true
}

/// Splits `s` at every occurrence of `d`.
pub fn split_chars(s: &[char], d: &[char]) -> (out: Vec<Vec<char>>)
    ensures
        rows(out@) == split(s@, d@),
{
    let mut out: Vec<Vec<char>> = Vec::new();
    if d.len() == 0 {
        out.push(Vec::new());
        let mut i: usize = 0;
        while i < s.len()
            invariant
                i <= s.len(),
                out.len() == i + 1,
                out@[0]@.len() == 0,
                forall|k: int| 1 <= k <= i ==> (#[trigger] out@[k])@ == seq![s@[k - 1]],
            decreases s.len() - i,
        {
            let mut one: Vec<char> = Vec::new();
            one.push(s[i]);
            assert(one@ =~= seq![s@[i as int]]);
            out.push(one);
            i += 1;
        }
        out.push(Vec::new());
        proof {
            let ends = seq![Seq::<char>::empty()];
            let singles = Seq::new(s@.len(), |k: int| seq![s@[k]]);
            assert forall|k: int| 0 <= k < out@.len() implies rows(out@)[k] == (ends + singles
                + ends)[k] by {
                if 1 <= k <= s@.len() {
                    assert((ends + singles)[k] == singles[k - 1]);
                }
            }
            assert(rows(out@) =~= ends + singles + ends);
        }
        return out;
    }
    let mut cur: Vec<char> = Vec::new();
    let mut pos: usize = 0;
    proof {
        lemma_split_len(s@, d@);
        assert(s@.skip(0) =~= s@);
        assert(glue(rows(out@), cur@, split(s@, d@)) =~= split(s@, d@));
    }
    while pos < s.len()
        invariant
            pos <= s.len(),
            d.len() > 0,
            split(s@, d@) == glue(rows(out@), cur@, split(s@.skip(pos as int), d@)),
        decreases s.len() - pos,
    {
        let ghost tail = s@.skip(pos as int);
        let ghost before = glue(rows(out@), cur@, split(tail, d@));
        if matches_at(s, d, pos) {
            proof {
                let rest = split(tail.skip(d.len() as int), d@);
                lemma_split_len(tail.skip(d.len() as int), d@);
                assert(tail.skip(d.len() as int) =~= s@.skip(pos + d.len()));
                assert(glue(rows(out@).push(cur@), Seq::empty(), rest) =~= before);
                assert(rows(out@.push(cur)) =~= rows(out@).push(cur@));
            }
            out.push(cur);
            cur = Vec::new();
            pos += d.len();
        } else {
            proof {
                let rest = split(tail.skip(1), d@);
                lemma_split_len(tail.skip(1), d@);
                assert(tail.skip(1) =~= s@.skip(pos + 1));
                let c = s@[pos as int];
                let head = seq![c] + rest.first();
                assert(split(tail, d@) == seq![head] + rest.drop_first());
                assert((seq![head] + rest.drop_first()).first() == head);
                assert((seq![head] + rest.drop_first()).drop_first() =~= rest.drop_first());
                assert(cur@.push(c) + rest.first() =~= cur@ + head);
                assert(glue(rows(out@), cur@.push(c), rest) =~= before);
            }
            cur.push(s[pos]);
            pos += 1;
        }
    }
    proof {
        assert(rows(out@.push(cur)) =~= rows(out@).push(cur@));
        assert(glue(rows(out@), cur@, split(s@.skip(pos as int), d@)) =~= rows(out@).push(cur@));
    }
    out.push(cur);
    out
}

} // verus!
