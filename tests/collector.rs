use proverb::collector::{collect_files, ListedEntry, Listing};
use proverb::parser::parse_proverbs;
use proverb::report::no_files_message;
use proverb::selector::random_from;
use rand::rngs::StdRng;
use rand::SeedableRng;

fn file(path: &str) -> ListedEntry<String> {
    ListedEntry::Found { path: path.to_string(), is_file: Some(true) }
}

#[test]
fn regular_files_in_directory_order() {
    let listings = vec![
        Listing::Entries(vec![file("/a/1"), file("/a/2")]),
        Listing::Unreadable,
        Listing::Entries(vec![
            ListedEntry::Found { path: "/c/sub".to_string(), is_file: Some(false) },
            file("/c/3"),
            ListedEntry::Failed,
            ListedEntry::Found { path: "/c/broken".to_string(), is_file: None },
        ]),
    ];
    assert_eq!(
        collect_files(listings),
        vec!["/a/1".to_string(), "/a/2".to_string(), "/c/3".to_string()]
    );
}

#[test]
fn count_is_sum_of_regular_files() {
    let listings = vec![
        Listing::Entries(vec![file("x"), file("y"), ListedEntry::Failed]),
        Listing::Entries(vec![]),
        Listing::Entries(vec![file("z")]),
    ];
    assert_eq!(collect_files(listings).len(), 3);
}

#[test]
fn nothing_readable_gives_nothing() {
    let listings: Vec<Listing<String>> = vec![Listing::Unreadable, Listing::Entries(vec![])];
    assert!(collect_files(listings).is_empty());
    assert!(collect_files(Vec::<Listing<String>>::new()).is_empty());
}

#[test]
fn end_to_end_picks_one_of_the_proverbs() {
    // testA holds one file of two proverbs; testB does not exist.
    let listings = vec![
        Listing::Entries(vec![file("/tmp/testA/sayings")]),
        Listing::Unreadable,
    ];
    let files = collect_files(listings);
    assert_eq!(files, vec!["/tmp/testA/sayings".to_string()]);
    let mut rng = StdRng::seed_from_u64(3);
    let chosen = random_from(&mut rng, &files).unwrap();
    assert_eq!(chosen, "/tmp/testA/sayings");
    let proverbs = parse_proverbs("First proverb.\n%\nSecond proverb.\n");
    let proverb = random_from(&mut rng, &proverbs).unwrap();
    assert!(proverb == "First proverb." || proverb == "Second proverb.");
}

#[test]
fn end_to_end_empty_directory_finds_no_file() {
    let listings: Vec<Listing<String>> = vec![Listing::Entries(vec![])];
    let files = collect_files(listings);
    let mut rng = StdRng::seed_from_u64(3);
    assert_eq!(random_from(&mut rng, &files), None);
}

#[test]
fn no_files_message_lists_each_directory() {
    assert_eq!(
        no_files_message(&vec!["/tmp/empty".to_string()]),
        "No fortune files found in the following directories:\n/tmp/empty\n"
    );
    assert_eq!(
        no_files_message(&vec!["/a".to_string(), "./b".to_string()]),
        "No fortune files found in the following directories:\n/a\n./b\n"
    );
}
