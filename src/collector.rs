//! Gathering proverb files out of the listings of the search directories.

use vstd::prelude::*;

verus! {

/// What listing a directory showed of one of its entries, with the entry's
/// path of type `P`.
pub enum ListedEntry<P> {
    /// The listing could not produce this entry.
    Failed,
    /// An entry at `path`. `is_file` is what the entry's metadata says of it
    /// (links followed), or `None` where the metadata could not be read.
    Found { path: P, is_file: Option<bool> },
}

/// What came of listing one search directory.
pub enum Listing<P> {
    /// The directory does not exist or could not be read.
    Unreadable,
    /// The entries of the directory, in the order the listing gave them.
    Entries(Vec<ListedEntry<P>>),
}

/// Whether the entry is known to be a regular file.
pub open spec fn is_regular<P>(e: ListedEntry<P>) -> bool {
    e matches ListedEntry::Found { is_file: Some(true), .. }
}

/// The paths of the regular files among `entries`, in order.
pub open spec fn files_in<P>(entries: Seq<ListedEntry<P>>) -> Seq<P>
    decreases entries.len(),
{
    if entries.len() == 0 {
        Seq::empty()
    } else {
        let rest = files_in(entries.drop_first());
        match entries[0] {
            ListedEntry::Found { path, is_file: Some(true) } => seq![path] + rest,
            _ => rest,
        }
    }
}

/// The paths of the regular files that a listing shows.
pub open spec fn listing_files<P>(l: Listing<P>) -> Seq<P> {
    match l {
        Listing::Unreadable => Seq::empty(),
        Listing::Entries(v) => files_in(v@),
    }
}

/// The regular files of all listings: those of the first directory, then
/// those of the second, and so on.
pub open spec fn collected<P>(ls: Seq<Listing<P>>) -> Seq<P>
    decreases ls.len(),
{
    if ls.len() == 0 {
        Seq::empty()
    } else {
        listing_files(ls[0]) + collected(ls.drop_first())
    }
}

/// How many of `entries` are regular files.
pub open spec fn regular_count<P>(entries: Seq<ListedEntry<P>>) -> nat
    decreases entries.len(),
{
    if entries.len() == 0 {
        0
    } else {
        (if is_regular(entries[0]) {
            1nat
        } else {
            0nat
        }) + regular_count(entries.drop_first())
    }
}

/// How many regular files a listing shows; none for an unreadable directory.
pub open spec fn listing_count<P>(l: Listing<P>) -> nat {
    match l {
        Listing::Unreadable => 0,
        Listing::Entries(v) => regular_count(v@),
    }
}

/// The sum of the regular-file counts of the listings.
pub open spec fn total_count<P>(ls: Seq<Listing<P>>) -> nat
    decreases ls.len(),
{
    if ls.len() == 0 {
        0
    } else {
        listing_count(ls[0]) + total_count(ls.drop_first())
    }
}

/// The paths of the regular files of all listings, in the order of the
/// directories and, within one directory, in the order of its listing.
/// Unreadable directories, entries that could not be listed and entries whose
/// metadata could not be read are passed over.
pub fn collect_files<P>(listings: Vec<Listing<P>>) -> (r: Vec<P>)
    ensures
        r@ == collected(listings@),
{
    let ghost all = listings@;
    let mut rest = listings;
    let mut r: Vec<P> = Vec::new();
    while rest.len() > 0
        invariant
            r@ + collected(rest@) == collected(all),
        decreases rest@.len(),
    {
        let ghost before = rest@;
        let listing = rest.remove(0);
        assert(rest@ =~= before.drop_first());
        match listing {
            Listing::Unreadable => {
                assert(r@ + collected(rest@) =~= collected(all));
            },
            Listing::Entries(entries) => {
                let mut entries = entries;
                assert(r@ + files_in(entries@) + collected(rest@) =~= collected(all));
                while entries.len() > 0
                    invariant
                        r@ + files_in(entries@) + collected(rest@) == collected(all),
                    decreases entries@.len(),
                {
                    let ghost es = entries@;
                    let entry = entries.remove(0);
                    assert(entries@ =~= es.drop_first());
                    match entry {
                        ListedEntry::Found { path, is_file: Some(true) } => {
                            let ghost r0 = r@;
                            r.push(path);
                            assert(r0 + files_in(es) =~= r@ + files_in(entries@));
                        },
                        _ => {
                            assert(files_in(es) == files_in(entries@));
                        },
                    }
                }
                assert(r@ + collected(rest@) =~= collected(all));
            },
        }
    }
    assert(r@ =~= collected(all));
    r
}

proof fn lemma_files_in_count<P>(entries: Seq<ListedEntry<P>>)
    ensures
        files_in(entries).len() == regular_count(entries),
    decreases entries.len(),
{
    if entries.len() > 0 {
        lemma_files_in_count(entries.drop_first());
    }
}

/// The collected files number exactly the sum, over the listings, of the
/// regular files each one shows; they come listing by listing, the files of
/// the first listing ahead of those of the others.
pub proof fn lemma_collected_count<P>(ls: Seq<Listing<P>>)
    ensures
        collected(ls).len() == total_count(ls),
        ls.len() > 0 ==> collected(ls) == listing_files(ls[0]) + collected(ls.drop_first()),
    decreases ls.len(),
{
    if ls.len() > 0 {
        lemma_collected_count(ls.drop_first());
        match ls[0] {
            Listing::Unreadable => {},
            Listing::Entries(v) => {
                lemma_files_in_count(v@);
            },
        }
    }
}

} // verus!
