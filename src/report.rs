//! What the program says when it cannot print a proverb.

use crate::parser::{push_char, views};
use vstd::prelude::*;

verus! {

/// Each path on a line of its own, in order.
pub open spec fn lines_of(paths: Seq<Seq<char>>) -> Seq<char>
    decreases paths.len(),
{
    if paths.len() == 0 {
        Seq::empty()
    } else {
        lines_of(paths.drop_last()) + paths.last().push('\n')
    }
}

/// The diagnostic for a search that found no proverb file: a heading line,
/// then each searched directory on a line of its own.
pub open spec fn no_files_text(dirs: Seq<Seq<char>>) -> Seq<char> {
    "No fortune files found in the following directories:\n"@ + lines_of(dirs)
}

/// The diagnostic for a search of `dirs` that found no proverb file.
pub fn no_files_message(dirs: &Vec<String>) -> (r: String)
    ensures
        r@ == no_files_text(views(dirs@)),
{
    let mut r = "No fortune files found in the following directories:\n".to_owned();
    let n = dirs.len();
    let mut i: usize = 0;
    assert(views(dirs@.take(0)) =~= Seq::<Seq<char>>::empty());
    assert(r@ =~= no_files_text(views(dirs@.take(0))));
    while i < n
        invariant
            i <= n == dirs@.len(),
            r@ == no_files_text(views(dirs@.take(i as int))),
        decreases n - i,
    {
        r.append(dirs[i].as_str());
        push_char(&mut r, '\n');
        let ghost prev = views(dirs@.take(i as int));
        assert(views(dirs@.take(i + 1)) =~= prev.push(dirs@[i as int]@));
        assert(views(dirs@.take(i + 1)).drop_last() =~= prev);
        i = i + 1;
    }
    assert(dirs@.take(n as int) =~= dirs@);
    r
}

} // verus!
