use mlzlog::filter::parent_of;
use mlzlog::{parse_filter_config, FilterResponse, TargetFilter};

fn filter(cfg: &str) -> TargetFilter {
    parse_filter_config(cfg.to_string())
}

#[test]
fn blacklist_alone_rejects_the_entry_and_what_lies_below() {
    let f = filter("-a::b");
    assert_eq!(f.decide("a::b"), FilterResponse::Reject);
    assert_eq!(f.decide("a::b::c"), FilterResponse::Reject);
    assert_eq!(f.decide("x"), FilterResponse::Neutral);
}

#[test]
fn blacklist_alone_lets_the_parent_of_an_entry_pass() {
    let f = filter("-a::b");
    assert_eq!(f.decide("a"), FilterResponse::Neutral);
    assert_eq!(f.decide("a::c"), FilterResponse::Neutral);
    assert_eq!(f.decide("a::bc"), FilterResponse::Neutral);
}

#[test]
fn whitelist_alone_admits_the_entry_and_what_lies_below() {
    let f = filter("a");
    assert_eq!(f.decide("a"), FilterResponse::Neutral);
    assert_eq!(f.decide("a::b"), FilterResponse::Neutral);
    assert_eq!(f.decide("z"), FilterResponse::Reject);
}

#[test]
fn whitelist_with_plus_is_the_same_as_without() {
    let f = filter("+a");
    assert_eq!(f.decide("a"), FilterResponse::Neutral);
    assert_eq!(f.decide("a::b"), FilterResponse::Neutral);
    assert_eq!(f.decide("z"), FilterResponse::Reject);
    assert_eq!(f.decide("+a"), FilterResponse::Reject);
}

#[test]
fn blacklist_is_asked_before_the_whitelist_of_the_parent() {
    let f = filter("-a::b,a");
    assert_eq!(f.decide("a::b"), FilterResponse::Reject);
    assert_eq!(f.decide("a::c"), FilterResponse::Neutral);
}

#[test]
fn blacklist_wins_where_a_name_is_on_both_lists() {
    let f = filter("a,-a");
    assert_eq!(f.decide("a"), FilterResponse::Reject);
    assert_eq!(f.decide("a::b"), FilterResponse::Reject);
}

#[test]
fn nearest_ancestor_wins() {
    let f = filter("-a,a::b");
    assert_eq!(f.decide("a::b::c"), FilterResponse::Neutral);
    assert_eq!(f.decide("a::b"), FilterResponse::Neutral);
    assert_eq!(f.decide("a::c"), FilterResponse::Reject);
    assert_eq!(f.decide("a"), FilterResponse::Reject);
}

#[test]
fn decide_gives_the_same_answer_each_time() {
    let f = filter("-a::b,a,c::d");
    let g = f.clone();
    for ns in ["a", "a::b", "a::b::c", "c", "c::d::e", "", "::", "zz"] {
        let first = f.decide(ns);
        assert_eq!(f.decide(ns), first);
        assert_eq!(g.decide(ns), first);
        assert_ne!(first, FilterResponse::Accept);
    }
}

#[test]
fn order_and_repetition_of_entries_do_not_matter() {
    let f = filter("-a::b,a,c");
    let g = filter("c,a,-a::b,a,c,-a::b");
    for ns in ["a", "a::b", "a::b::c", "a::c", "c", "c::x", "d", ""] {
        assert_eq!(f.decide(ns), g.decide(ns));
    }
}

#[test]
fn empty_text_whitelists_the_empty_name() {
    let f = filter("");
    assert_eq!(f.decide(""), FilterResponse::Neutral);
    assert_eq!(f.decide("a"), FilterResponse::Reject);
    assert_eq!(f.decide("::a"), FilterResponse::Neutral);
}

#[test]
fn lone_minus_blacklists_the_empty_name() {
    let f = filter("-");
    assert_eq!(f.decide(""), FilterResponse::Reject);
    assert_eq!(f.decide("a"), FilterResponse::Neutral);
    assert_eq!(f.decide("::a"), FilterResponse::Reject);
}

#[test]
fn empty_entries_between_commas_are_entries() {
    let f = filter("-a,,-b");
    assert_eq!(f.decide(""), FilterResponse::Neutral);
    assert_eq!(f.decide("a"), FilterResponse::Reject);
    assert_eq!(f.decide("b::c"), FilterResponse::Reject);
    assert_eq!(f.decide("c"), FilterResponse::Reject);
}

#[test]
fn only_the_first_sign_of_an_entry_is_taken_off() {
    let f = filter("--a,+-b,-+c");
    assert_eq!(f.decide("-a"), FilterResponse::Reject);
    assert_eq!(f.decide("a"), FilterResponse::Reject);
    assert_eq!(f.decide("-b"), FilterResponse::Neutral);
    assert_eq!(f.decide("+c"), FilterResponse::Reject);
}

#[test]
fn entries_are_not_trimmed() {
    let f = filter(" a,b ");
    assert_eq!(f.decide("a"), FilterResponse::Reject);
    assert_eq!(f.decide(" a"), FilterResponse::Neutral);
    assert_eq!(f.decide("b "), FilterResponse::Neutral);
}

#[test]
fn names_beyond_ascii_are_kept() {
    let f = filter("-größe::ß,ö");
    assert_eq!(f.decide("größe::ß::x"), FilterResponse::Reject);
    assert_eq!(f.decide("ö::größe"), FilterResponse::Neutral);
    assert_eq!(f.decide("größe"), FilterResponse::Reject);
}

#[test]
fn parent_is_cut_at_the_last_separator() {
    assert_eq!(parent_of("a::b::c"), Some("a::b"));
    assert_eq!(parent_of("a::b"), Some("a"));
    assert_eq!(parent_of("a"), None);
    assert_eq!(parent_of(""), None);
    assert_eq!(parent_of("a:b"), None);
    assert_eq!(parent_of("::"), Some(""));
    assert_eq!(parent_of("a::"), Some("a"));
    assert_eq!(parent_of("::a"), Some(""));
}

#[test]
fn parent_of_three_colons_keeps_one() {
    assert_eq!(parent_of("a:::b"), Some("a:"));
    assert_eq!("a:::b".rsplit_once("::").map(|(up, _)| up), Some("a:"));
    assert_eq!(parent_of(":::"), Some(":"));
    assert_eq!(parent_of("ä::ö:::ü"), Some("ä::ö:"));
}

#[test]
fn long_namespaces_are_walked_to_the_root() {
    let mut ns = String::from("root");
    for i in 0..2000 {
        ns.push_str("::");
        ns.push_str(&i.to_string());
    }
    assert_eq!(filter("-root").decide(&ns), FilterResponse::Reject);
    assert_eq!(filter("root").decide(&ns), FilterResponse::Neutral);
    assert_eq!(filter("-other").decide(&ns), FilterResponse::Neutral);
    assert_eq!(filter("other").decide(&ns), FilterResponse::Reject);
}
