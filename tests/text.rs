use ifengine::sim::run_name;
use ifengine::sim::widest;
use ifengine::text::{find_hash_match, first_match, linguate, split_braced, trim_lines};

#[test]
fn linguate_refines_typography() {
    assert_eq!(linguate("wait -- what..."), "wait \u{2014} what\u{2026}");
    assert_eq!(linguate("\"hi\" she said, \"it's me\""), "\u{201C}hi\u{201D} she said, \u{201C}it\u{2019}s me\u{201D}");
    assert_eq!(linguate("---"), "\u{2014}-");
    assert_eq!(linguate("...."), "\u{2026}.");
    assert_eq!(linguate(""), "");
}

#[test]
fn split_braced_pieces() {
    assert_eq!(split_braced("go [[north]] or [[south]]"), vec!["go ", "north", " or ", "south"]);
    assert_eq!(split_braced("[[a]]"), vec!["", "a"]);
    assert_eq!(split_braced("plain"), vec!["plain"]);
    assert_eq!(split_braced(""), Vec::<String>::new());
    assert_eq!(split_braced("a [ b ]] c"), vec!["a [ b ]] c"]);
}

#[test]
fn trim_lines_strips_edges() {
    assert_eq!(trim_lines("\n  first  \n\n  second\t\n  \n"), "first\n\nsecond");
    assert_eq!(trim_lines("   "), "");
    assert_eq!(trim_lines("x"), "x");
    assert_eq!(trim_lines("a\r\nb"), "a\nb");
}

#[test]
fn hash_match_finds_first() {
    let strings = vec!["north".to_string(), "south".to_string(), "south".to_string()];
    let h = const_fnv1a_hash::fnv1a_hash_str_64("south");
    let found = find_hash_match(&strings, h).unwrap();
    assert!(std::ptr::eq(found, &strings[1]));
    assert!(find_hash_match(&strings, 12345).is_none());
    assert_eq!(const_fnv1a_hash::fnv1a_hash_str_64("foobar"), 0x85944171f73967e8);
}

#[test]
fn run_names_are_basenames() {
    assert_eq!(run_name("story::chap1::p1"), "p1");
    assert_eq!(run_name("p2"), "p2");
    assert_eq!(run_name("a::"), "");
    assert_eq!(run_name(""), "");
}

#[test]
fn first_match_positions() {
    assert_eq!(first_match(&vec![3, 5, 5], 5), Some(1));
    assert_eq!(first_match(&vec![3, 5], 4), None);
    assert_eq!(first_match(&vec![], 4), None);
}

#[test]
fn widest_has_a_floor() {
    assert_eq!(widest(&vec![], &vec![]), 6);
    assert_eq!(widest(&vec![2, 9], &vec![4]), 9);
    assert_eq!(widest(&vec![1], &vec![12, 3]), 12);
}
