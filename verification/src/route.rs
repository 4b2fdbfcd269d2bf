//! Convention-based route derivation: a handler file at
//! `<routes>/<segments…>/<METHOD>.ext` serves the method named by the file's
//! stem, upper-cased, at the path `/` + the segments joined by `/`. A file
//! directly in the routes root serves at `/`.
use crate::scan::{find_in, lemma_split_first_found, lemma_split_first_none, split_first};
use vstd::prelude::*;

verus! {

/// What `str::to_uppercase` returns: a function of the characters alone.
pub uninterp spec fn upper_of(s: Seq<char>) -> Seq<char>;

/// Relies on str::to_uppercase: the upper-case equivalent of `s`, determined
/// by the characters of `s` alone (Unicode derived core property Uppercase).
#[verifier::external_body]
fn to_upper(s: &str) -> (r: String)
    ensures
        r@ == upper_of(s@),
{
    s.to_uppercase()
}

/// The URL path for a file whose directory segments under the routes root
/// are `dirs`: `/` followed by the segments joined with `/`.
pub open spec fn spec_route_path(dirs: Seq<Seq<char>>) -> Seq<char> {
    seq!['/'] + spec_join_slash(dirs)
}

/// The segments joined with `/`; no segments join to the empty string.
pub open spec fn spec_join_slash(dirs: Seq<Seq<char>>) -> Seq<char>
    decreases dirs.len(),
{
    if dirs.len() == 0 {
        Seq::empty()
    } else if dirs.len() == 1 {
        dirs[0]
    } else {
        dirs[0] + seq!['/'] + spec_join_slash(dirs.drop_first())
    }
}

/// A file directly in the routes root registers at the path `/`.
pub proof fn lemma_root_file_path_is_root()
    ensures
        spec_route_path(Seq::<Seq<char>>::empty()) =~= seq!['/'],
{
}

/// The file stem: the part of `name` before its first `.`, or nothing when
/// `name` has no `.` (such a file defines no route).
pub open spec fn spec_stem(name: Seq<char>) -> Option<Seq<char>> {
    match split_first(name, '.') {
        None => None,
        Some(kv) => Some(kv.0),
    }
}

/// The route key a handler file resolves to: the method is the file stem,
/// upper-cased; the path comes from the directory segments alone.
pub open spec fn spec_route_key(dirs: Seq<Seq<char>>, name: Seq<char>) -> Option<
    (Seq<char>, Seq<char>),
> {
    match spec_stem(name) {
        None => None,
        Some(stem) => Some((upper_of(stem), spec_route_path(dirs))),
    }
}

/// Joins the directory segments under the routes root into the URL path.
pub fn route_path(dirs: &Vec<String>) -> (r: String)
    ensures
        r@ == spec_route_path(dirs.deep_view()),
{
    let ghost dv = dirs.deep_view();
    let mut out = String::from_str("/");
    proof {
        reveal_strlit("/");
        assert("/"@ =~= seq!['/']);
    }
    let n = dirs.len();
    let mut i: usize = 0;
    while i < n
        invariant
            i <= n,
            n == dirs@.len(),
            dv == dirs.deep_view(),
            dv.len() == n,
            forall|j: int| 0 <= j < n ==> dv[j] == dirs@[j]@,
            out@ == seq!['/'] + spec_join_slash(dv.take(i as int)) + (
                if 0 < i < n { seq!['/'] } else { Seq::<char>::empty() }
            ),
        decreases n - i,
    {
        out.append(dirs[i].as_str());
        proof {
            lemma_join_slash_step(dv, i as int);
            assert(dv.take(i as int).push(dv[i as int]) =~= dv.take(i as int + 1));
        }
        if i + 1 < n {
            out.append("/");
            proof {
                reveal_strlit("/");
                assert("/"@ =~= seq!['/']);
            }
        }
        i = i + 1;
        proof {
            if i < n {
                assert(out@ =~= seq!['/'] + spec_join_slash(dv.take(i as int)) + seq!['/']);
            } else {
                assert(out@ =~= seq!['/'] + spec_join_slash(dv.take(i as int)));
            }
        }
    }
    proof {
        assert(dv.take(n as int) =~= dv);
        if n == 0 {
            assert(out@ =~= seq!['/'] + spec_join_slash(dv));
        }
    }
    out
}

/// Appending one segment to already-joined segments appends `/` between
/// them exactly when segments were already there.
proof fn lemma_join_slash_step(dirs: Seq<Seq<char>>, i: int)
    requires
        0 <= i < dirs.len(),
    ensures
        spec_join_slash(dirs.take(i).push(dirs[i])) =~= spec_join_slash(dirs.take(i)) + (
            if i > 0 { seq!['/'] } else { Seq::<char>::empty() }
        ) + dirs[i],
    decreases i,
{
    if i == 0 {
        assert(dirs.take(0).push(dirs[0]) =~= seq![dirs[0]]);
    } else {
        lemma_join_slash_step(dirs.drop_first(), i - 1);
        let p = dirs.take(i).push(dirs[i]);
        assert(p.len() >= 2);
        assert(p.drop_first() =~= dirs.drop_first().take(i - 1).push(dirs[i]));
        assert(dirs.take(i).drop_first() =~= dirs.drop_first().take(i - 1));
        assert(dirs.take(i).len() >= 1);
        if i == 1 {
            assert(spec_join_slash(dirs.take(1)) == dirs[0]);
        }
    }
}

/// Derives the (method, path) key for a handler file: `dirs` are the
/// directory segments of the file under the routes root, `name` its final
/// component. A name without a `.` yields no key.
pub fn derive_route(dirs: &Vec<String>, name: &str) -> (r: Option<(String, String)>)
    ensures
        match r {
            Some(mp) => spec_route_key(dirs.deep_view(), name@) == Some((mp.0@, mp.1@)),
            None => spec_route_key(dirs.deep_view(), name@) is None,
        },
{
    let n = name.unicode_len();
    match find_in(name, 0, n, '.') {
        None => {
            proof {
                lemma_split_first_none(name@, '.');
            }
            None
        },
        Some(i) => {
            proof {
                lemma_split_first_found(name@, '.', i as int);
            }
            let stem = name.substring_char(0, i);
            let method = to_upper(stem);
            let path = route_path(dirs);
            Some((method, path))
        },
    }
}

} // verus!
