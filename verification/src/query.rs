//! Query-string parsing: the string is split on `&`, each pair on its first
//! `=`; a pair without `=` is dropped silently, and when a key repeats, its
//! first occurrence wins.
use crate::scan::{
    find_in, lemma_split_all_found, lemma_split_all_none, lemma_split_first_found,
    lemma_split_first_none, split_all, split_first,
};
use vstd::prelude::*;

verus! {

/// Whether some pair in `ps` carries the key `k`.
pub open spec fn has_key(ps: Seq<(Seq<char>, Seq<char>)>, k: Seq<char>) -> bool {
    exists|i: int| 0 <= i < ps.len() && ps[i].0 == k
}

/// The value bound to `k` in `ps`: the first pair with that key.
pub open spec fn lookup_pairs(ps: Seq<(Seq<char>, Seq<char>)>, k: Seq<char>) -> Option<Seq<char>>
    decreases ps.len(),
{
    if ps.len() == 0 {
        None
    } else if ps[0].0 == k {
        Some(ps[0].1)
    } else {
        lookup_pairs(ps.drop_first(), k)
    }
}

/// Folds one raw segment into the accumulated pairs: a segment without `=`
/// is dropped, and a key already bound keeps its earlier binding.
pub open spec fn add_pair(acc: Seq<(Seq<char>, Seq<char>)>, part: Seq<char>) -> Seq<
    (Seq<char>, Seq<char>),
> {
    match split_first(part, '=') {
        None => acc,
        Some(kv) => if has_key(acc, kv.0) {
            acc
        } else {
            acc.push(kv)
        },
    }
}

/// Folds every raw segment, in order, into the accumulated pairs.
pub open spec fn add_parts(acc: Seq<(Seq<char>, Seq<char>)>, parts: Seq<Seq<char>>) -> Seq<
    (Seq<char>, Seq<char>),
>
    decreases parts.len(),
{
    if parts.len() == 0 {
        acc
    } else {
        add_parts(add_pair(acc, parts[0]), parts.drop_first())
    }
}

/// What a query string parses to: its `&`-separated segments folded in
/// order, each split on its first `=`, malformed segments dropped, first
/// occurrence winning per key.
pub open spec fn spec_parse_query(s: Seq<char>) -> Seq<(Seq<char>, Seq<char>)> {
    add_parts(Seq::empty(), split_all(s, '&'))
}

/// Whether some pair in `acc` carries the key `k`, decided.
fn has_key_exec(acc: &Vec<(String, String)>, k: &str) -> (r: bool)
    ensures
        r == has_key(acc.deep_view(), k@),
{
    let n = acc.len();
    let mut i: usize = 0;
    while i < n
        invariant
            i <= n,
            n == acc@.len(),
            forall|j: int| 0 <= j < i ==> acc.deep_view()[j].0 != k@,
        decreases n - i,
    {
        if crate::scan::str_eq(acc[i].0.as_str(), k) {
            proof {
                assert(acc.deep_view()[i as int].0 == k@);
            }
            return true;
        }
        i = i + 1;
    }
    false
}

/// Parses a query string. The result lists each bound key once, in the
/// order of first occurrence, with the value of its first occurrence.
pub fn parse_query(s: &str) -> (r: Vec<(String, String)>)
    ensures
        r.deep_view() == spec_parse_query(s@),
{
    let ghost target = spec_parse_query(s@);
    let n = s.unicode_len();
    let mut acc: Vec<(String, String)> = Vec::new();
    let mut start: usize = 0;
    proof {
        assert(s@.subrange(0, n as int) =~= s@);
        assert(acc.deep_view() =~= Seq::<(Seq<char>, Seq<char>)>::empty());
    }
    loop
        invariant
            start <= n,
            n == s@.len(),
            target == spec_parse_query(s@),
            add_parts(acc.deep_view(), split_all(s@.subrange(start as int, n as int), '&'))
                == target,
        decreases n - start,
    {
        let amp = find_in(s, start, n, '&');
        let end = match amp {
            Some(i) => i,
            None => n,
        };
        let ghost suffix = s@.subrange(start as int, n as int);
        let ghost part = s@.subrange(start as int, end as int);
        let ghost acc0 = acc.deep_view();
        proof {
            assert(forall|x: int|
                0 <= x < suffix.len() ==> suffix[x] == s@[start as int + x]);
            match amp {
                Some(i) => {
                    lemma_split_all_found(suffix, '&', i - start);
                    assert(suffix.subrange(0, i - start) =~= part);
                    assert(suffix.subrange(i - start + 1, suffix.len() as int) =~= s@.subrange(
                        i + 1,
                        n as int,
                    ));
                },
                None => {
                    lemma_split_all_none(suffix, '&');
                    assert(part =~= suffix);
                },
            }
        }
        match find_in(s, start, end, '=') {
            None => {
                proof {
                    assert(forall|x: int|
                        0 <= x < part.len() ==> part[x] == s@[start as int + x]);
                    lemma_split_first_none(part, '=');
                    assert(add_pair(acc0, part) == acc0);
                }
            },
            Some(j) => {
                proof {
                    assert(forall|x: int|
                        0 <= x < part.len() ==> part[x] == s@[start as int + x]);
                    lemma_split_first_found(part, '=', j - start);
                    assert(part.subrange(0, j - start) =~= s@.subrange(start as int, j as int));
                    assert(part.subrange(j - start + 1, part.len() as int) =~= s@.subrange(
                        j + 1,
                        end as int,
                    ));
                }
                let k = s.substring_char(start, j).to_owned();
                let v = s.substring_char(j + 1, end).to_owned();
                let ghost kv = split_first(part, '=')->Some_0;
                if !has_key_exec(&acc, k.as_str()) {
                    acc.push((k, v));
                    proof {
                        assert(acc.deep_view() =~= acc0.push(kv));
                    }
                }
                proof {
                    assert(acc.deep_view() == add_pair(acc0, part));
                }
            },
        }
        proof {
            match amp {
                Some(i) => {
                    let rest = split_all(s@.subrange(i + 1, n as int), '&');
                    assert(split_all(suffix, '&') == seq![part] + rest);
                    assert((seq![part] + rest)[0] == part);
                    assert((seq![part] + rest).drop_first() =~= rest);
                    assert(add_parts(acc0, seq![part] + rest) == add_parts(
                        add_pair(acc0, part),
                        rest,
                    ));
                },
                None => {
                    assert(split_all(suffix, '&') == seq![part]);
                    assert(seq![part].drop_first() =~= Seq::<Seq<char>>::empty());
                    let acc1 = add_pair(acc0, part);
                    assert(add_parts(acc1, Seq::<Seq<char>>::empty()) == acc1);
                    assert(add_parts(acc0, seq![part]) == add_parts(
                        acc1,
                        seq![part].drop_first(),
                    ));
                    assert(add_parts(acc0, seq![part]) == acc1);
                },
            }
        }
        match amp {
            Some(i) => {
                start = i + 1;
            },
            None => {
                return acc;
            },
        }
    }
}

/// Pairwise-distinct keys of `ps`.
pub open spec fn keys_unique(ps: Seq<(Seq<char>, Seq<char>)>) -> bool {
    forall|p: int, q: int| 0 <= p < q < ps.len() ==> ps[p].0 != ps[q].0
}

proof fn lemma_add_parts_unique(acc: Seq<(Seq<char>, Seq<char>)>, parts: Seq<Seq<char>>)
    requires
        keys_unique(acc),
    ensures
        keys_unique(add_parts(acc, parts)),
    decreases parts.len(),
{
    if parts.len() > 0 {
        let acc2 = add_pair(acc, parts[0]);
        assert(keys_unique(acc2)) by {
            match split_first(parts[0], '=') {
                None => {},
                Some(kv) => {
                    if !has_key(acc, kv.0) {
                        assert(forall|p: int, q: int|
                            0 <= p < q < acc.push(kv).len() ==> acc.push(kv)[p].0 != acc.push(
                                kv,
                            )[q].0);
                    }
                },
            }
        }
        lemma_add_parts_unique(acc2, parts.drop_first());
    }
}

/// A parsed query binds each key at most once.
pub proof fn lemma_parse_query_keys_unique(s: Seq<char>)
    ensures
        keys_unique(spec_parse_query(s)),
{
    lemma_add_parts_unique(Seq::empty(), split_all(s, '&'));
}

proof fn lemma_lookup_push(
    ps: Seq<(Seq<char>, Seq<char>)>,
    kv: (Seq<char>, Seq<char>),
    k: Seq<char>,
)
    requires
        kv.0 != k,
    ensures
        lookup_pairs(ps.push(kv), k) == lookup_pairs(ps, k),
        has_key(ps.push(kv), k) == has_key(ps, k),
    decreases ps.len(),
{
    if ps.len() == 0 {
        assert(ps.push(kv).drop_first() =~= Seq::<(Seq<char>, Seq<char>)>::empty());
        assert(lookup_pairs(Seq::<(Seq<char>, Seq<char>)>::empty(), k) is None);
        assert(!has_key(ps, k));
        if has_key(ps.push(kv), k) {
            let i = choose|i: int| 0 <= i < ps.push(kv).len() && ps.push(kv)[i].0 == k;
            assert(i == 0);
        }
    } else {
        lemma_lookup_push(ps.drop_first(), kv, k);
        assert(ps.push(kv).drop_first() =~= ps.drop_first().push(kv));
        if has_key(ps.push(kv), k) && !has_key(ps, k) {
            let i = choose|i: int| 0 <= i < ps.push(kv).len() && ps.push(kv)[i].0 == k;
            assert(ps.push(kv)[i] == kv);
        }
        if has_key(ps, k) {
            let i = choose|i: int| 0 <= i < ps.len() && ps[i].0 == k;
            assert(ps.push(kv)[i].0 == k);
        }
    }
}

/// Once a key is bound, no later segment of the query changes its value:
/// the first occurrence wins.
pub proof fn lemma_first_occurrence_wins(
    acc: Seq<(Seq<char>, Seq<char>)>,
    parts: Seq<Seq<char>>,
    k: Seq<char>,
)
    requires
        has_key(acc, k),
    ensures
        lookup_pairs(add_parts(acc, parts), k) == lookup_pairs(acc, k),
        has_key(add_parts(acc, parts), k),
    decreases parts.len(),
{
    if parts.len() > 0 {
        let acc2 = add_pair(acc, parts[0]);
        assert(lookup_pairs(acc2, k) == lookup_pairs(acc, k) && has_key(acc2, k)) by {
            match split_first(parts[0], '=') {
                None => {},
                Some(kv) => {
                    if !has_key(acc, kv.0) {
                        lemma_lookup_push(acc, kv, k);
                    }
                },
            }
        }
        lemma_first_occurrence_wins(acc2, parts.drop_first(), k);
    }
}

} // verus!
