//! Paths that an installation of the program works out: where it installs
//! to, under which staging root, and where build outputs lie.

use crate::parser::{chars_of, joined, push_char, split_on};
use crate::paths::{install_prefix, join_path, opt_view, path_join, prefix_choice, PrefixVars};
use vstd::prelude::*;

verus! {

/// Why no installation prefix could be worked out.
#[derive(Debug, Clone, Copy, PartialEq, Eq, Structural)]
pub enum PrefixError {
    /// No prefix was given, none is set, and no home directory was found.
    Undetermined,
}

/// The prefix an installation goes to, from the one given or else
/// `prefix_choice` over `vars` and the home directory `home`.
pub open spec fn prefix_outcome(
    maybe_prefix: Option<Seq<char>>,
    vars: PrefixVars,
    home: Option<Seq<char>>,
) -> Result<Seq<char>, PrefixError> {
    match maybe_prefix {
        Some(p) => Ok(p),
        None => match prefix_choice(vars, home) {
            Some(p) => Ok(p),
            None => Err(PrefixError::Undetermined),
        },
    }
}

/// The view of a prefix result.
pub open spec fn result_view(r: Result<String, PrefixError>) -> Result<Seq<char>, PrefixError> {
    match r {
        Ok(s) => Ok(s@),
        Err(e) => Err(e),
    }
}

/// The installation prefix, for the caller to canonicalize: `maybe_prefix`
/// where given, else the one that `vars` or the user's home directory give
/// (see `install_prefix`); `PrefixError::Undetermined` where there is none.
pub fn canonicalize_prefix(maybe_prefix: Option<String>, vars: &PrefixVars) -> (r: Result<
    String,
    PrefixError,
>)
    ensures
        exists|home: Option<Seq<char>>|
            result_view(r) == prefix_outcome(opt_view(maybe_prefix), *vars, home),
{
    match maybe_prefix {
        Some(p) => {
            let ghost home: Option<Seq<char>> = None;
            assert(result_view(Ok(p)) == prefix_outcome(opt_view(maybe_prefix), *vars, home));
            Ok(p)
        },
        None => {
            let found = install_prefix(vars);
            let ghost home = choose|home: Option<Seq<char>>|
                opt_view(found) == prefix_choice(*vars, home);
            let r = match found {
                Some(p) => Ok(p),
                None => Err(PrefixError::Undetermined),
            };
            assert(result_view(r) == prefix_outcome(opt_view(maybe_prefix), *vars, home));
            r
        },
    }
}

/// The staging root, for the caller to canonicalize: `maybe_dest_dir` where
/// given, else `/`.
pub fn canonicalize_dest_dir(maybe_dest_dir: Option<String>) -> (r: String)
    ensures
        r@ == match maybe_dest_dir {
            Some(d) => d@,
            None => "/"@,
        },
{
    match maybe_dest_dir {
        Some(d) => d,
        None => "/".to_owned(),
    }
}

/// Whether piece `k` of a path split at `/` is one of its components other
/// than the root: a non-empty piece that is not `.`, but for a leading `.`
/// of a relative path.
pub open spec fn part_kept(pieces: Seq<Seq<char>>, k: int) -> bool {
    pieces[k].len() > 0 && (pieces[k] != seq!['.'] || k == 0)
}

/// The pieces that `part_kept` keeps, in order.
pub open spec fn kept_parts(pieces: Seq<Seq<char>>) -> Seq<Seq<char>>
    decreases pieces.len(),
{
    if pieces.len() == 0 {
        Seq::empty()
    } else {
        let rest = kept_parts(pieces.drop_last());
        if part_kept(pieces, pieces.len() - 1) {
            rest.push(pieces.last())
        } else {
            rest
        }
    }
}

/// The components of `p` other than its root, joined by `/`.
pub open spec fn unrooted(p: Seq<char>) -> Seq<char> {
    joined(kept_parts(split_on(p, '/')), '/')
}

/// Whether `s` is exactly `.`.
fn is_dot(v: &Vec<char>, from: usize, to: usize) -> (r: bool)
    requires
        from <= to <= v@.len(),
    ensures
        r == (v@.subrange(from as int, to as int) == seq!['.']),
{
    if to - from == 1 && v[from] == '.' {
        assert(v@.subrange(from as int, to as int) =~= seq!['.']);
        true
    } else {
        assert(seq!['.'].len() == 1 && seq!['.'][0] == '.');
        if to - from == 1 {
            assert(v@.subrange(from as int, to as int)[0] == v@[from as int]);
        }
        false
    }
}

/// The path `prefix` placed under the staging root `dest_dir`: the
/// components of `prefix` other than its root, appended to `dest_dir`.
pub fn combine_prefix_and_dest_dir(prefix: &str, dest_dir: &str) -> (r: String)
    ensures
        r@ == path_join(dest_dir@, unrooted(prefix@)),
{
    let chars = chars_of(prefix);
    let n = chars.len();
    let mut rel = String::new();
    let ghost mut done: Seq<Seq<char>> = Seq::empty();
    let mut start: usize = 0;
    let mut i: usize = 0;
    let mut has_parts = false;
    proof {
        assert(chars@.take(0) =~= Seq::<char>::empty());
        assert(done.push(chars@.subrange(0, 0)) =~= seq![Seq::<char>::empty()]);
    }
    let mut finished = false;
    while !finished
        invariant
            start <= i <= n,
            !finished ==> done.push(chars@.subrange(start as int, i as int)) == split_on(
                chars@.take(i as int),
                '/',
            ),
            finished ==> done == split_on(chars@, '/'),
            n == chars@.len(),
            rel@ == joined(kept_parts(done), '/'),
            has_parts == (kept_parts(done).len() > 0),
            !finished ==> ((done.len() == 0) == (start == 0)),
        decreases n - i + (if finished {
            0int
        } else {
            1int
        }),
    {
        if i == n || chars[i] == '/' {
            let ghost piece = chars@.subrange(start as int, i as int);
            let ghost next = done.push(piece);
            assert(next.drop_last() =~= done);
            let dot = is_dot(&chars, start, i);
            if start < i && (!dot || start == 0) {
                let ghost before = kept_parts(done);
                assert(kept_parts(next) == before.push(piece));
                if has_parts {
                    push_char(&mut rel, '/');
                }
                let mut j: usize = start;
                while j < i
                    invariant
                        start <= j <= i <= n == chars@.len(),
                        rel@ == (if before.len() > 0 {
                            joined(before, '/').push('/')
                        } else {
                            joined(before, '/')
                        }) + chars@.subrange(start as int, j as int),
                    decreases i - j,
                {
                    push_char(&mut rel, chars[j]);
                    j = j + 1;
                }
                assert(before.push(piece).drop_last() =~= before);
                if !has_parts {
                    assert(before.push(piece) =~= seq![piece]);
                }
                assert(rel@ =~= joined(before.push(piece), '/'));
                has_parts = true;
            }
            proof {
                if i < n {
                    assert(chars@.take(i + 1).drop_last() =~= chars@.take(i as int));
                    assert(chars@.subrange(i + 1, i + 1) =~= Seq::<char>::empty());
                } else {
                    assert(chars@.take(n as int) =~= chars@);
                }
                done = next;
            }
            if i < n {
                start = i + 1;
                i = i + 1;
            } else {
                finished = true;
            }
        } else {
            proof {
                assert(chars@.take(i + 1).drop_last() =~= chars@.take(i as int));
                assert(chars@.subrange(start as int, i + 1) =~= chars@.subrange(
                    start as int,
                    i as int,
                ).push(chars@[i as int]));
                assert(done.push(chars@.subrange(start as int, i + 1)) =~= split_on(
                    chars@.take(i + 1),
                    '/',
                ));
            }
            i = i + 1;
        }
    }
    join_path(dest_dir, rel.as_str())
}

/// The directory of build outputs: `configured` where set, else `./target`.
pub fn target_dir(configured: Option<String>) -> (r: String)
    ensures
        r@ == match configured {
            Some(d) => d@,
            None => "./target"@,
        },
{
    match configured {
        Some(d) => d,
        None => "./target".to_owned(),
    }
}

} // verus!
