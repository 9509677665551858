//! The proverb file format: entries separated by `%`, trimmed, empties dropped.

use vstd::prelude::*;

verus! {

/// Whether `c` has the Unicode `White_Space` property.
pub open spec fn is_space(c: char) -> bool {
    let n = c as u32;
    ||| 0x09 <= n <= 0x0D
    ||| n == 0x20
    ||| n == 0x85
    ||| n == 0xA0
    ||| n == 0x1680
    ||| 0x2000 <= n <= 0x200A
    ||| n == 0x2028
    ||| n == 0x2029
    ||| n == 0x202F
    ||| n == 0x205F
    ||| n == 0x3000
}

/// Relies on `char::is_whitespace`: true exactly for the characters with the
/// Unicode `White_Space` property (`is_space`).
#[verifier::external_body]
fn char_is_whitespace(c: char) -> (r: bool)
    ensures
        r == is_space(c),
{
    c.is_whitespace()
}

/// Relies on `String::push`: appends one character at the end.
#[verifier::external_body]
pub(crate) fn push_char(s: &mut String, c: char)
    ensures
        final(s)@ == old(s)@.push(c),
{
    s.push(c)
}

/// The pieces of `s` between occurrences of `d`, in order. There is always
/// one piece more than there are occurrences of `d`.
pub open spec fn split_on(s: Seq<char>, d: char) -> Seq<Seq<char>>
    decreases s.len(),
{
    if s.len() == 0 {
        seq![Seq::<char>::empty()]
    } else {
        let prev = split_on(s.drop_last(), d);
        if s.last() == d {
            prev.push(Seq::<char>::empty())
        } else {
            prev.update(prev.len() - 1, prev.last().push(s.last()))
        }
    }
}

/// `s` without its leading whitespace.
pub open spec fn trim_start(s: Seq<char>) -> Seq<char>
    decreases s.len(),
{
    if s.len() > 0 && is_space(s[0]) {
        trim_start(s.drop_first())
    } else {
        s
    }
}

/// `s` without its trailing whitespace.
pub open spec fn trim_end(s: Seq<char>) -> Seq<char>
    decreases s.len(),
{
    if s.len() > 0 && is_space(s.last()) {
        trim_end(s.drop_last())
    } else {
        s
    }
}

/// `s` without leading and trailing whitespace.
pub open spec fn trimmed(s: Seq<char>) -> Seq<char> {
    trim_end(trim_start(s))
}

/// The trimmed pieces that are not empty, in order.
pub open spec fn kept_entries(pieces: Seq<Seq<char>>) -> Seq<Seq<char>>
    decreases pieces.len(),
{
    if pieces.len() == 0 {
        Seq::empty()
    } else {
        let rest = kept_entries(pieces.drop_last());
        let t = trimmed(pieces.last());
        if t.len() > 0 {
            rest.push(t)
        } else {
            rest
        }
    }
}

/// The proverbs of a file whose text is `text`.
pub open spec fn proverbs_of(text: Seq<char>) -> Seq<Seq<char>> {
    kept_entries(split_on(text, '%'))
}

/// The entries written one after another with `d` between each two.
pub open spec fn joined(entries: Seq<Seq<char>>, d: char) -> Seq<char>
    decreases entries.len(),
{
    if entries.len() == 0 {
        Seq::empty()
    } else if entries.len() == 1 {
        entries[0]
    } else {
        joined(entries.drop_last(), d).push(d) + entries.last()
    }
}

/// The views of a sequence of strings.
pub open spec fn views(v: Seq<String>) -> Seq<Seq<char>> {
    v.map_values(|e: String| e@)
}

/// The characters of `s`, in order.
pub fn chars_of(s: &str) -> (r: Vec<char>)
    ensures
        r@ == s@,
{
    let mut r: Vec<char> = Vec::new();
    for c in it: s.chars()
        invariant
            r@ == it.seq().take(it.index() as int),
    {
        r.push(c);
        proof {
            assert(r@ =~= it.seq().take(it.index() + 1));
        }
    }
    assert(r@ =~= s@);
    r
}

/// The characters `v[from..to]` as a string.
fn string_from(v: &Vec<char>, from: usize, to: usize) -> (r: String)
    requires
        from <= to <= v@.len(),
    ensures
        r@ == v@.subrange(from as int, to as int),
{
    let mut r = String::new();
    let mut i: usize = from;
    while i < to
        invariant
            from <= i <= to <= v@.len(),
            r@ == v@.subrange(from as int, i as int),
        decreases to - i,
    {
        push_char(&mut r, v[i]);
        proof {
            assert(r@ =~= v@.subrange(from as int, i + 1));
        }
        i = i + 1;
    }
    r
}

/// The bounds, within `v[start..end]`, of that piece with its surrounding
/// whitespace taken off.
fn trimmed_bounds(v: &Vec<char>, start: usize, end: usize) -> (r: (usize, usize))
    requires
        start <= end <= v@.len(),
    ensures
        start <= r.0 <= r.1 <= end,
        v@.subrange(r.0 as int, r.1 as int) == trimmed(v@.subrange(start as int, end as int)),
{
    let mut lo: usize = start;
    while lo < end && char_is_whitespace(v[lo])
        invariant
            start <= lo <= end <= v@.len(),
            trim_start(v@.subrange(start as int, end as int)) == trim_start(
                v@.subrange(lo as int, end as int),
            ),
        decreases end - lo,
    {
        assert(v@.subrange(lo as int, end as int).drop_first() =~= v@.subrange(
            lo + 1,
            end as int,
        ));
        lo = lo + 1;
    }
    assert(trim_start(v@.subrange(lo as int, end as int)) == v@.subrange(lo as int, end as int));
    let mut hi: usize = end;
    while hi > lo && char_is_whitespace(v[hi - 1])
        invariant
            start <= lo <= hi <= end <= v@.len(),
            trim_end(v@.subrange(lo as int, end as int)) == trim_end(
                v@.subrange(lo as int, hi as int),
            ),
        decreases hi - lo,
    {
        assert(v@.subrange(lo as int, hi as int).drop_last() =~= v@.subrange(
            lo as int,
            hi - 1,
        ));
        hi = hi - 1;
    }
    assert(trim_end(v@.subrange(lo as int, hi as int)) == v@.subrange(lo as int, hi as int));
    (lo, hi)
}

/// Splits the text of a proverb file into its proverbs: the pieces between
/// the `%` characters, each with its surrounding whitespace taken off, and
/// with the pieces that are then empty left out.
pub fn parse_proverbs(contents: &str) -> (r: Vec<String>)
    ensures
        views(r@) == proverbs_of(contents@),
{
    let chars = chars_of(contents);
    let n = chars.len();
    let mut out: Vec<String> = Vec::new();
    let ghost mut done: Seq<Seq<char>> = Seq::empty();
    let mut start: usize = 0;
    let mut i: usize = 0;
    proof {
        assert(chars@.take(0) =~= Seq::<char>::empty());
        assert(done.push(chars@.subrange(0, 0)) =~= seq![Seq::<char>::empty()]);
    }
    while i < n
        invariant
            start <= i <= n == chars@.len(),
            chars@ == contents@,
            done.push(chars@.subrange(start as int, i as int)) == split_on(
                chars@.take(i as int),
                '%',
            ),
            views(out@) == kept_entries(done),
        decreases n - i,
    {
        let ghost prev = chars@.take(i as int);
        assert(chars@.take(i + 1).drop_last() =~= prev);
        if chars[i] == '%' {
            let (lo, hi) = trimmed_bounds(&chars, start, i);
            let ghost piece = chars@.subrange(start as int, i as int);
            proof {
                assert(done.push(piece).drop_last() =~= done);
            }
            if lo < hi {
                let e = string_from(&chars, lo, hi);
                out.push(e);
                proof {
                    assert(views(out@) =~= kept_entries(done).push(trimmed(piece)));
                }
            }
            proof {
                done = done.push(piece);
                assert(chars@.subrange(i + 1, i + 1) =~= Seq::<char>::empty());
            }
            start = i + 1;
        } else {
            proof {
                assert(chars@.subrange(start as int, i + 1) =~= chars@.subrange(
                    start as int,
                    i as int,
                ).push(chars@[i as int]));
                assert(done.push(chars@.subrange(start as int, i + 1)) =~= split_on(
                    chars@.take(i + 1),
                    '%',
                ));
            }
        }
        i = i + 1;
    }
    let (lo, hi) = trimmed_bounds(&chars, start, n);
    let ghost piece = chars@.subrange(start as int, n as int);
    proof {
        assert(done.push(piece).drop_last() =~= done);
        assert(chars@.take(n as int) =~= contents@);
    }
    if lo < hi {
        let e = string_from(&chars, lo, hi);
        out.push(e);
        proof {
            assert(views(out@) =~= kept_entries(done).push(trimmed(piece)));
        }
    }
    out
}

/// No character of `s` is `d`.
pub open spec fn free_of(s: Seq<char>, d: char) -> bool {
    forall|i: int| 0 <= i < s.len() ==> s[i] != d
}

/// Every character of `s` is whitespace.
pub open spec fn all_space(s: Seq<char>) -> bool {
    forall|i: int| 0 <= i < s.len() ==> is_space(s[i])
}

/// A trimmed, non-empty entry that holds no `d`: what parsing yields.
pub open spec fn clean_entry(e: Seq<char>, d: char) -> bool {
    e.len() > 0 && trimmed(e) == e && free_of(e, d)
}

proof fn lemma_split_nonempty(s: Seq<char>, d: char)
    ensures
        split_on(s, d).len() >= 1,
    decreases s.len(),
{
    if s.len() > 0 {
        lemma_split_nonempty(s.drop_last(), d);
    }
}

proof fn lemma_split_free(s: Seq<char>, d: char)
    requires
        free_of(s, d),
    ensures
        split_on(s, d) == seq![s],
    decreases s.len(),
{
    if s.len() == 0 {
        assert(s =~= Seq::<char>::empty());
    } else {
        let front = s.drop_last();
        assert(free_of(front, d)) by {
            assert forall|i: int| 0 <= i < front.len() implies front[i] != d by {
                assert(front[i] == s[i]);
            }
        }
        lemma_split_free(front, d);
        assert(s.last() != d) by {
            assert(s.last() == s[s.len() - 1]);
        }
        assert(front.push(s.last()) =~= s);
        let prev = split_on(front, d);
        assert(split_on(s, d) == prev.update(0, front.push(s.last())));
        assert(split_on(s, d) =~= seq![s]);
    }
}

proof fn lemma_split_append(x: Seq<char>, y: Seq<char>, d: char)
    requires
        free_of(y, d),
    ensures
        split_on(x + y, d) == split_on(x, d).update(
            split_on(x, d).len() - 1,
            split_on(x, d).last() + y,
        ),
    decreases y.len(),
{
    lemma_split_nonempty(x, d);
    let px = split_on(x, d);
    if y.len() == 0 {
        assert(x + y =~= x);
        assert(px.last() + y =~= px.last());
        assert(px.update(px.len() - 1, px.last() + y) =~= px);
    } else {
        let y0 = y.drop_last();
        assert(free_of(y0, d)) by {
            assert forall|i: int| 0 <= i < y0.len() implies y0[i] != d by {
                assert(y0[i] == y[i]);
            }
        }
        lemma_split_append(x, y0, d);
        assert(y.last() != d) by {
            assert(y.last() == y[y.len() - 1]);
        }
        let prev = split_on(x + y0, d);
        assert(prev.len() == px.len());
        assert(prev.last() == px.last() + y0);
        assert((px.last() + y0).push(y.last()) =~= px.last() + y);
        assert((x + y).drop_last() =~= x + y0);
        assert((x + y).last() == y.last());
        assert(px.last() + y0 + seq![y.last()] =~= px.last() + y);
        assert(split_on(x + y, d) =~= px.update(px.len() - 1, px.last() + y));
    }
}

proof fn lemma_split_joined(entries: Seq<Seq<char>>, d: char)
    requires
        entries.len() >= 1,
        forall|k: int| 0 <= k < entries.len() ==> free_of(#[trigger] entries[k], d),
    ensures
        split_on(joined(entries, d), d) == entries,
    decreases entries.len(),
{
    if entries.len() == 1 {
        lemma_split_free(entries[0], d);
        assert(entries =~= seq![entries[0]]);
    } else {
        let front = entries.drop_last();
        assert forall|k: int| 0 <= k < front.len() implies free_of(#[trigger] front[k], d) by {
            assert(front[k] == entries[k]);
        }
        lemma_split_joined(front, d);
        let j = joined(front, d);
        assert(j.push(d).drop_last() =~= j);
        assert(split_on(j.push(d), d) == front.push(Seq::<char>::empty()));
        assert(free_of(entries.last(), d));
        lemma_split_append(j.push(d), entries.last(), d);
        assert(Seq::<char>::empty() + entries.last() =~= entries.last());
        assert(split_on(joined(entries, d), d) =~= entries);
    }
}

proof fn lemma_split_pieces_free(s: Seq<char>, d: char)
    ensures
        forall|k: int| 0 <= k < split_on(s, d).len() ==> free_of(#[trigger] split_on(s, d)[k], d),
    decreases s.len(),
{
    if s.len() > 0 {
        lemma_split_pieces_free(s.drop_last(), d);
        lemma_split_nonempty(s.drop_last(), d);
    }
}

proof fn lemma_split_pieces_space(s: Seq<char>, d: char)
    requires
        forall|i: int| 0 <= i < s.len() ==> s[i] == d || is_space(s[i]),
    ensures
        forall|k: int| 0 <= k < split_on(s, d).len() ==> all_space(#[trigger] split_on(s, d)[k]),
    decreases s.len(),
{
    if s.len() > 0 {
        lemma_split_pieces_space(s.drop_last(), d);
        lemma_split_nonempty(s.drop_last(), d);
    }
}

/// Leading whitespace is what `trim_start` takes off, and nothing else.
proof fn lemma_trim_start(s: Seq<char>) -> (k: int)
    ensures
        0 <= k <= s.len(),
        trim_start(s) == s.subrange(k, s.len() as int),
        forall|i: int| 0 <= i < k ==> is_space(s[i]),
        k < s.len() ==> !is_space(s[k]),
    decreases s.len(),
{
    if s.len() > 0 && is_space(s[0]) {
        let k0 = lemma_trim_start(s.drop_first());
        assert(s.drop_first().subrange(k0, s.len() - 1) =~= s.subrange(k0 + 1, s.len() as int));
        assert forall|i: int| 0 <= i < k0 + 1 implies is_space(s[i]) by {
            if i > 0 {
                assert(s[i] == s.drop_first()[i - 1]);
            }
        }
        k0 + 1
    } else {
        assert(s.subrange(0, s.len() as int) =~= s);
        0
    }
}

/// Trailing whitespace is what `trim_end` takes off, and nothing else.
proof fn lemma_trim_end(s: Seq<char>) -> (k: int)
    ensures
        0 <= k <= s.len(),
        trim_end(s) == s.subrange(0, k),
        forall|i: int| k <= i < s.len() ==> is_space(s[i]),
        k > 0 ==> !is_space(s[k - 1]),
    decreases s.len(),
{
    if s.len() > 0 && is_space(s.last()) {
        let k0 = lemma_trim_end(s.drop_last());
        assert(s.drop_last().subrange(0, k0) =~= s.subrange(0, k0));
        assert forall|i: int| k0 <= i < s.len() implies is_space(s[i]) by {
            if i < s.len() - 1 {
                assert(s[i] == s.drop_last()[i]);
            }
        }
        k0
    } else {
        assert(s.subrange(0, s.len() as int) =~= s);
        s.len() as int
    }
}

/// Trimming takes off a run of whitespace at each end and keeps the rest,
/// interior whitespace included, as it stands: the result is a stretch
/// `s[a..b]` of `s` with only whitespace before `a` and from `b` on, which is
/// empty or starts and ends with a character that is not whitespace.
pub proof fn lemma_trim_keeps_interior(s: Seq<char>)
    ensures
        exists|a: int, b: int|
            {
                &&& 0 <= a <= b <= s.len()
                &&& trimmed(s) == s.subrange(a, b)
                &&& forall|i: int| 0 <= i < a ==> is_space(s[i])
                &&& forall|i: int| b <= i < s.len() ==> is_space(s[i])
                &&& a < b ==> !is_space(s[a]) && !is_space(s[b - 1])
            },
{
    let a = lemma_trim_start(s);
    let t = trim_start(s);
    let k = lemma_trim_end(t);
    let b = a + k;
    assert(trimmed(s) =~= s.subrange(a, b));
    assert forall|i: int| b <= i < s.len() implies is_space(s[i]) by {
        assert(s[i] == t[i - a]);
    }
    if a < b {
        assert(s[b - 1] == t[k - 1]);
    }
}

proof fn lemma_trimmed_is_clean(s: Seq<char>, d: char)
    requires
        free_of(s, d),
        trimmed(s).len() > 0,
    ensures
        clean_entry(trimmed(s), d),
{
    lemma_trim_keeps_interior(s);
    let (a, b) = choose|a: int, b: int|
        {
            &&& 0 <= a <= b <= s.len()
            &&& trimmed(s) == s.subrange(a, b)
            &&& forall|i: int| 0 <= i < a ==> is_space(s[i])
            &&& forall|i: int| b <= i < s.len() ==> is_space(s[i])
            &&& a < b ==> !is_space(s[a]) && !is_space(s[b - 1])
        };
    let e = trimmed(s);
    assert(!is_space(e[0]) && !is_space(e.last()));
    assert(trim_start(e) == e);
    assert(trim_end(e) == e);
}

proof fn lemma_all_space_trims_empty(s: Seq<char>)
    requires
        all_space(s),
    ensures
        trimmed(s).len() == 0,
{
    let a = lemma_trim_start(s);
    assert(a == s.len());
    assert(trim_start(s) =~= Seq::<char>::empty());
    assert(trim_end(Seq::<char>::empty()) == Seq::<char>::empty());
}

proof fn lemma_kept_clean(pieces: Seq<Seq<char>>, d: char)
    requires
        forall|k: int| 0 <= k < pieces.len() ==> free_of(#[trigger] pieces[k], d),
    ensures
        forall|k: int|
            0 <= k < kept_entries(pieces).len() ==> clean_entry(#[trigger] kept_entries(pieces)[k], d),
    decreases pieces.len(),
{
    if pieces.len() > 0 {
        let front = pieces.drop_last();
        assert forall|k: int| 0 <= k < front.len() implies free_of(#[trigger] front[k], d) by {
            assert(front[k] == pieces[k]);
        }
        lemma_kept_clean(front, d);
        assert(free_of(pieces.last(), d));
        let rest = kept_entries(front);
        let t = trimmed(pieces.last());
        if t.len() > 0 {
            lemma_trimmed_is_clean(pieces.last(), d);
            assert(kept_entries(pieces) == rest.push(t));
        } else {
            assert(kept_entries(pieces) == rest);
        }
        assert forall|k: int| 0 <= k < kept_entries(pieces).len() implies clean_entry(
            #[trigger] kept_entries(pieces)[k],
            d,
        ) by {
            if k < rest.len() {
                assert(kept_entries(pieces)[k] == rest[k]);
            }
        }
    }
}

proof fn lemma_kept_fixed(entries: Seq<Seq<char>>, d: char)
    requires
        forall|k: int| 0 <= k < entries.len() ==> clean_entry(#[trigger] entries[k], d),
    ensures
        kept_entries(entries) == entries,
    decreases entries.len(),
{
    if entries.len() > 0 {
        let front = entries.drop_last();
        assert forall|k: int| 0 <= k < front.len() implies clean_entry(#[trigger] front[k], d) by {
            assert(front[k] == entries[k]);
        }
        lemma_kept_fixed(front, d);
        assert(clean_entry(entries.last(), d));
        assert(front.push(entries.last()) =~= entries);
    }
}

proof fn lemma_kept_all_space(pieces: Seq<Seq<char>>)
    requires
        forall|k: int| 0 <= k < pieces.len() ==> all_space(#[trigger] pieces[k]),
    ensures
        kept_entries(pieces).len() == 0,
    decreases pieces.len(),
{
    if pieces.len() > 0 {
        let front = pieces.drop_last();
        assert forall|k: int| 0 <= k < front.len() implies all_space(#[trigger] front[k]) by {
            assert(front[k] == pieces[k]);
        }
        lemma_kept_all_space(front);
        assert(all_space(pieces.last()));
        lemma_all_space_trims_empty(pieces.last());
    }
}

/// Every proverb is non-empty, has no whitespace at either end and holds no
/// `%`.
pub proof fn lemma_proverbs_clean(text: Seq<char>)
    ensures
        forall|k: int|
            0 <= k < proverbs_of(text).len() ==> clean_entry(#[trigger] proverbs_of(text)[k], '%'),
{
    lemma_split_pieces_free(text, '%');
    lemma_kept_clean(split_on(text, '%'), '%');
}

/// Parsing is idempotent: joining the proverbs of a text with `%` and parsing
/// that again gives the same proverbs.
pub proof fn lemma_reparse(text: Seq<char>)
    ensures
        proverbs_of(joined(proverbs_of(text), '%')) == proverbs_of(text),
{
    let e = proverbs_of(text);
    lemma_proverbs_clean(text);
    if e.len() == 0 {
        let j = joined(e, '%');
        assert(j =~= Seq::<char>::empty());
        assert(split_on(j, '%') == seq![Seq::<char>::empty()]);
        lemma_all_space_trims_empty(Seq::<char>::empty());
        assert(seq![Seq::<char>::empty()].drop_last() =~= Seq::<Seq<char>>::empty());
        assert(kept_entries(Seq::<Seq<char>>::empty()) == Seq::<Seq<char>>::empty());
        assert(seq![Seq::<char>::empty()].last() == Seq::<char>::empty());
        assert(kept_entries(seq![Seq::<char>::empty()]) == Seq::<Seq<char>>::empty());
        assert(e =~= Seq::<Seq<char>>::empty());
    } else {
        assert forall|k: int| 0 <= k < e.len() implies free_of(#[trigger] e[k], '%') by {
            assert(clean_entry(e[k], '%'));
        }
        lemma_split_joined(e, '%');
        lemma_kept_fixed(e, '%');
    }
}

/// A text without `%` that is not all whitespace is one proverb: the whole
/// text, trimmed.
pub proof fn lemma_no_delimiter(text: Seq<char>)
    requires
        free_of(text, '%'),
        exists|i: int| 0 <= i < text.len() && !is_space(text[i]),
    ensures
        proverbs_of(text) == seq![trimmed(text)],
        trimmed(text).len() > 0,
{
    lemma_split_free(text, '%');
    lemma_trim_keeps_interior(text);
    let i = choose|i: int| 0 <= i < text.len() && !is_space(text[i]);
    let (a, b) = choose|a: int, b: int|
        {
            &&& 0 <= a <= b <= text.len()
            &&& trimmed(text) == text.subrange(a, b)
            &&& forall|i: int| 0 <= i < a ==> is_space(text[i])
            &&& forall|i: int| b <= i < text.len() ==> is_space(text[i])
            &&& a < b ==> !is_space(text[a]) && !is_space(text[b - 1])
        };
    assert(a <= i < b);
    assert(seq![text].drop_last() =~= Seq::<Seq<char>>::empty());
    assert(Seq::<Seq<char>>::empty().push(trimmed(text)) =~= seq![trimmed(text)]);
    assert(kept_entries(seq![text]) == kept_entries(Seq::<Seq<char>>::empty()).push(
        trimmed(text),
    ));
}

/// A text made of `%` and whitespace alone holds no proverb.
pub proof fn lemma_only_delimiters(text: Seq<char>)
    requires
        forall|i: int| 0 <= i < text.len() ==> text[i] == '%' || is_space(text[i]),
    ensures
        proverbs_of(text).len() == 0,
{
    lemma_split_pieces_space(text, '%');
    lemma_kept_all_space(split_on(text, '%'));
}

} // verus!
