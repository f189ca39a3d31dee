use std::collections::VecDeque;

use arcane::catalog::AssetList;
use arcane::order::{asset_before, sort_assets};
use arcane::parser::parser::{Asset, AssetFetcher};
use arcane::ranking::{rank, scorable, similarity, THRESHOLD};
use arcane::revision_checker::Revision;
use arcane::session::{Action, App, Event};
use arcane::text::{str_eq, str_le};

fn asset(filename: &str, size: i64) -> Asset {
    Asset {
        filename: filename.to_string(),
        size,
        header_size: 0,
        compressed_header_size: 0,
        crc: 0,
        header_crc: 0,
        already_fetched: false,
    }
}

fn list(names: &[&str]) -> AssetList {
    AssetList::with_items(names.iter().enumerate().map(|(i, name)| asset(name, i as i64)).collect())
}

fn names(assets: &[Asset]) -> Vec<&str> {
    assets.iter().map(|asset| asset.filename.as_str()).collect()
}

fn fetched(assets: &[Asset]) -> Vec<&str> {
    assets.iter().filter(|asset| asset.already_fetched).map(|asset| asset.filename.as_str()).collect()
}

fn app(names: &[&str]) -> App {
    let revision = Revision {
        list_file_url: "http://host/V_7/LatestFileList.bin".to_string(),
        url_prefix: "http://host/V_7".to_string(),
        revision: "V_7".to_string(),
    };
    App::new(list(names), AssetFetcher::new(revision))
}

#[test]
fn texts_are_ordered_by_their_bytes() {
    assert!(str_le("", ""));
    assert!(str_le("", "a"));
    assert!(!str_le("a", ""));
    assert!(str_le("a", "a"));
    assert!(str_le("a", "ab"));
    assert!(!str_le("ab", "a"));
    assert!(str_le("Z", "a"));
    assert!(!str_le("a", "Z"));
    assert!(str_le("a.bin", "b.bin"));
    assert!(str_le("z", "\u{e9}"));
    assert!(str_le("\u{e9}", "\u{4e2d}"));
    assert!(!str_le("\u{1f600}", "\u{ffff}"));
    assert!(str_eq("a.bin", "a.bin"));
    assert!(!str_eq("a.bin", "a.biN"));
    assert!(!str_eq("a", "ab"));
    assert!(str_eq("", ""));
}

#[test]
fn the_order_of_texts_is_that_of_std() {
    let texts = ["", "a", "A", "ab", "b", "\u{e9}", "z\u{e9}", "\u{4e2d}", "\u{1f600}", "~", "a.bin", "a/bin"];
    for left in texts {
        for right in texts {
            assert_eq!(str_le(left, right), left <= right, "{:?} {:?}", left, right);
            assert_eq!(str_eq(left, right), left == right);
        }
    }
}

#[test]
fn the_order_of_assets_is_the_derived_one() {
    let mut assets = vec![asset("a", 1), asset("a", 2), asset("b", 0), asset("", 9), asset("a", 1)];
    assets[4].already_fetched = true;
    let mut more = asset("a", 1);
    more.header_crc = -5;
    assets.push(more);
    let mut other = asset("a", 1);
    other.crc = 1;
    other.header_size = -1;
    assets.push(other);
    for left in &assets {
        for right in &assets {
            assert_eq!(asset_before(left, right), left <= right, "{:?} {:?}", left, right);
        }
    }
}

#[test]
fn assets_are_sorted_as_std_sorts_them() {
    let given: Vec<Asset> = ["m", "b", "z", "a", "b", "", "a/b", "a.b", "B"]
        .iter()
        .enumerate()
        .map(|(i, name)| asset(name, (7 * i as i64) % 4))
        .collect();
    let mut expected = given.clone();
    expected.sort();
    assert_eq!(sort_assets(VecDeque::from(given)), expected);
    assert_eq!(sort_assets(VecDeque::new()), Vec::<Asset>::new());
}

#[test]
fn a_new_list_shows_every_asset_by_file_name() {
    let list = list(&["c.bin", "a.bin", "b.bin"]);
    assert_eq!(names(&list.items), ["a.bin", "b.bin", "c.bin"]);
    assert_eq!(list.filtered_items, list.items);
    assert_eq!(list.selected, None);
    assert_eq!(list.last_selected, None);
    assert_eq!(list.selected_assets, None);
    assert_eq!(list.asset_len(), 3);
    assert_eq!(self::list(&[]).asset_len(), 0);
}

#[test]
fn the_empty_query_shows_every_asset_by_file_name() {
    let mut list = list(&["c.bin", "a.bin", "b.bin", "Root.wad"]);
    list.filter_and_sort("wad");
    assert_ne!(list.filtered_items, list.items);
    list.filter_and_sort("");
    assert_eq!(names(&list.filtered_items), ["Root.wad", "a.bin", "b.bin", "c.bin"]);
    assert_eq!(list.filtered_items, list.items);
}

#[test]
fn similarity_is_the_ratio_of_the_matcher() {
    assert_eq!(similarity("hello test", "hello world"), Some(57));
    assert_eq!(similarity("hello test", "hello worlasdfasd"), Some(52));
    assert_eq!(similarity("a.bin", "a.bin"), Some(100));
    assert_eq!(similarity("a.bin", "b.bin"), Some(80));
    assert_eq!(similarity("zzz", "a.bin"), Some(0));
    assert_eq!(similarity("", ""), Some(100));
    assert_eq!(similarity("abc", "ABC"), Some(0));
}

#[test]
fn texts_are_scored_where_the_shorter_one_is_ascii() {
    assert!(scorable("abc", "abcd"));
    assert!(scorable("abc", "\u{e9}t\u{e9}"));
    assert!(scorable("", "\u{e9}"));
    assert!(!scorable("\u{e9}", "abc"));
    assert!(!scorable("\u{e9}", "\u{e9}"));
    assert!(!scorable("abcd", "\u{e9}"));
    assert!(scorable("ab", "\u{e9}"));
    assert_eq!(similarity("\u{e9}", "abc"), None);
    assert_eq!(similarity("ab", "a\u{e9}b"), Some(67));
}

#[test]
fn a_query_ranks_the_similar_assets_first() {
    let mut list = list(&["b.bin", "a.bin", "Data/Root.wad", "zzzz"]);
    list.filter_and_sort("a.bin");
    assert_eq!(names(&list.filtered_items)[..2], ["a.bin", "b.bin"]);
    assert_eq!(names(&list.items), ["Data/Root.wad", "a.bin", "b.bin", "zzzz"]);
    for shown in &list.filtered_items {
        assert!(similarity("a.bin", &shown.filename).unwrap() >= THRESHOLD);
    }
    for pair in list.filtered_items.windows(2) {
        assert!(similarity("a.bin", &pair[0].filename) >= similarity("a.bin", &pair[1].filename));
    }
    for hidden in list.items.iter().filter(|item| !list.filtered_items.contains(item)) {
        assert!(similarity("a.bin", &hidden.filename).unwrap() < THRESHOLD);
    }
}

#[test]
fn a_query_that_matches_nothing_shows_nothing() {
    let mut list = list(&["a.bin", "b.bin"]);
    list.filter_and_sort("zzz");
    assert!(list.filtered_items.is_empty());
    assert_eq!(list.asset_len(), 2);
}

#[test]
fn ranking_keeps_ties_in_order_and_drops_low_scores() {
    let candidates = vec![
        (18, asset("at the threshold", 0)),
        (17, asset("below", 1)),
        (100, asset("best", 2)),
        (18, asset("second at the threshold", 3)),
        (0, asset("nothing", 4)),
        (100, asset("second best", 5)),
        (50, asset("middle", 6)),
    ];
    assert_eq!(
        names(&rank(&candidates)),
        ["best", "second best", "middle", "at the threshold", "second at the threshold"]
    );
    assert!(rank(&vec![]).is_empty());
    assert!(rank(&vec![(17, asset("a", 0))]).is_empty());
}

#[test]
fn assets_of_one_score_keep_the_order_of_the_index() {
    let mut list = list(&["xb", "xa", "xd", "xc"]);
    list.filter_and_sort("x");
    assert_eq!(names(&list.filtered_items), ["xa", "xb", "xc", "xd"]);
}

#[test]
fn a_query_that_cannot_be_scored_changes_nothing() {
    let mut list = list(&["a.bin", "b.bin"]);
    list.filter_and_sort("bin");
    let before = list.filtered_items.clone();
    assert!(!list.can_filter("\u{e9}"));
    assert!(!list.try_filter_and_sort("\u{e9}"));
    assert_eq!(list.filtered_items, before);
    assert!(list.can_filter("a"));
    assert!(list.can_filter(""));
    assert!(list.try_filter_and_sort("a.bin"));
    assert_eq!(names(&list.filtered_items), ["a.bin", "b.bin"]);
}

#[test]
fn marking_reaches_the_index_and_the_working_view() {
    let mut list = list(&["a.bin", "b.bin", "c.bin"]);
    list.filter_and_sort("b.bin");
    assert!(names(&list.filtered_items).contains(&"b.bin"));
    list.mark_fetched("b.bin");
    assert_eq!(fetched(&list.items), ["b.bin"]);
    assert_eq!(fetched(&list.filtered_items), ["b.bin"]);
    list.mark_fetched("b.bin");
    list.mark_fetched("a.bin");
    assert_eq!(fetched(&list.items), ["a.bin", "b.bin"]);
    list.filter_and_sort("");
    assert_eq!(fetched(&list.filtered_items), ["a.bin", "b.bin"]);
}

#[test]
fn marking_an_unknown_file_changes_nothing() {
    let mut list = list(&["a.bin", "b.bin"]);
    let before = list.clone();
    list.mark_fetched("c.bin");
    list.mark_fetched("");
    list.mark_fetched("A.BIN");
    assert_eq!(list.items, before.items);
    assert_eq!(list.filtered_items, before.filtered_items);
}

#[test]
fn marking_reaches_an_asset_that_the_working_view_hides() {
    let mut list = list(&["a.bin", "zzzz"]);
    list.filter_and_sort("a.bin");
    assert_eq!(names(&list.filtered_items), ["a.bin"]);
    list.mark_fetched("zzzz");
    assert_eq!(fetched(&list.items), ["zzzz"]);
    assert!(fetched(&list.filtered_items).is_empty());
}

#[test]
fn the_selection_steps_forward_and_wraps() {
    let mut list = list(&["a", "b", "c"]);
    assert!(list.can_next());
    list.next();
    assert_eq!(list.selected, Some(0));
    assert_eq!(list.selected_assets, None);
    list.next();
    assert_eq!(list.selected, Some(1));
    assert_eq!(list.selected_assets.as_ref().map(|a| a.filename.as_str()), Some("b"));
    list.next();
    assert_eq!(list.selected, Some(2));
    list.next();
    assert_eq!(list.selected, Some(0));
    assert_eq!(list.selected_assets.as_ref().map(|a| a.filename.as_str()), Some("a"));
}

#[test]
fn the_selection_steps_back_and_wraps() {
    let mut list = list(&["a", "b", "c"]);
    assert!(list.can_previous());
    list.previous();
    assert_eq!(list.selected, Some(0));
    assert_eq!(list.selected_assets, None);
    list.previous();
    assert_eq!(list.selected, Some(2));
    assert_eq!(list.selected_assets.as_ref().map(|a| a.filename.as_str()), Some("c"));
    list.previous();
    assert_eq!(list.selected, Some(1));
    assert_eq!(list.selected_assets.as_ref().map(|a| a.filename.as_str()), Some("b"));
}

#[test]
fn a_selection_starts_where_it_was_left() {
    let mut list = list(&["a", "b", "c"]);
    list.last_selected = Some(2);
    list.next();
    assert_eq!(list.selected, Some(2));
    list.selected = None;
    list.previous();
    assert_eq!(list.selected, Some(2));
}

#[test]
fn a_selection_beyond_the_working_view_steps_to_its_ends() {
    let mut list = list(&["a", "b", "c"]);
    list.selected = Some(7);
    list.next();
    assert_eq!(list.selected, Some(0));
    list.selected = Some(7);
    list.previous();
    assert_eq!(list.selected, Some(6));
    assert_eq!(list.selected_assets, None);
}

#[test]
fn an_empty_working_view_cannot_be_stepped_through() {
    let mut list = list(&["a", "b"]);
    list.next();
    list.filter_and_sort("zzzz");
    assert!(list.filtered_items.is_empty());
    assert!(!list.can_next());
    assert!(!list.can_previous());
    list.selected = Some(1);
    assert!(!list.can_next());
    assert!(list.can_previous());
    list.previous();
    assert_eq!(list.selected, Some(0));
    assert_eq!(list.selected_assets, None);
    list.selected = None;
    assert!(list.can_next() && list.can_previous());
}

#[test]
fn changing_the_status_marks_and_hands_out_the_selected_asset() {
    let mut list = list(&["a.bin", "b.bin"]);
    assert_eq!(list.change_status(), None);
    list.next();
    list.next();
    let mut expected = asset("b.bin", 1);
    expected.already_fetched = true;
    assert_eq!(list.change_status(), Some(expected));
    assert_eq!(fetched(&list.items), ["b.bin"]);
    assert_eq!(fetched(&list.filtered_items), ["b.bin"]);
    list.selected = Some(5);
    assert_eq!(list.change_status(), None);
    assert_eq!(fetched(&list.items), ["b.bin"]);
}

#[test]
fn a_session_answers_its_events() {
    let mut app = app(&["a.bin", "b.bin", "Root.wad"]);
    assert!(!app.extended_info);
    assert!(matches!(app.handle(Event::Space), Action::Redraw));
    assert!(!app.extended_info);
    assert!(matches!(app.handle(Event::Enter), Action::Redraw));
    assert!(matches!(app.handle(Event::Down), Action::Redraw));
    assert_eq!(app.assets.selected, Some(0));
    assert!(matches!(app.handle(Event::Space), Action::Redraw));
    assert!(app.extended_info);
    assert!(matches!(app.handle(Event::Space), Action::Redraw));
    assert!(!app.extended_info);
    assert!(matches!(app.handle(Event::Up), Action::Redraw));
    assert_eq!(app.assets.selected, Some(2));
    let Action::Fetch(request) = app.handle(Event::Enter) else { panic!("no download") };
    assert_eq!(request.url, "http://host/V_7/b.bin");
    assert_eq!(request.save_path, "assets/V_7/b.bin");
    assert_eq!(fetched(&app.assets.items), ["b.bin"]);
    assert!(matches!(app.handle(Event::Input("Root.wad".to_string())), Action::Redraw));
    assert_eq!(names(&app.assets.filtered_items), ["Root.wad"]);
    assert!(matches!(app.handle(Event::Input("\u{e9}".to_string())), Action::Fault));
    assert_eq!(names(&app.assets.filtered_items), ["Root.wad"]);
    assert!(matches!(app.handle(Event::Input("qqqqqqqq".to_string())), Action::Redraw));
    assert!(app.assets.filtered_items.is_empty());
    assert!(matches!(app.handle(Event::Down), Action::Fault));
    assert!(matches!(app.handle(Event::Up), Action::Redraw));
    assert_eq!(app.assets.selected, Some(1));
    assert!(matches!(app.handle(Event::Enter), Action::Redraw));
    assert!(matches!(app.handle(Event::Input(String::new())), Action::Redraw));
    assert_eq!(names(&app.assets.filtered_items), ["Root.wad", "a.bin", "b.bin"]);
    assert!(matches!(app.handle(Event::Escape), Action::Quit));
    assert_eq!(fetched(&app.assets.items), ["b.bin"]);
}

#[test]
fn changing_the_status_of_a_session_gives_the_download() {
    let mut app = app(&["a.bin"]);
    assert!(app.change_status().is_none());
    app.assets.next();
    let request = app.change_status().unwrap();
    assert_eq!(request.url, "http://host/V_7/a.bin");
    assert_eq!(request.save_path, "assets/V_7/a.bin");
    assert_eq!(fetched(&app.assets.filtered_items), ["a.bin"]);
    app.toggle_info();
    assert!(app.extended_info);
    app.assets.selected = None;
    app.toggle_info();
    assert!(!app.extended_info);
}

fn pseudo_random(state: &mut u64) -> usize {
    *state = state.wrapping_mul(6364136223846793005).wrapping_add(1442695040888963407);
    (*state >> 33) as usize
}

fn pseudo_text(state: &mut u64, alphabet: &[char], longest: usize) -> String {
    let length = pseudo_random(state) % (longest + 1);
    (0..length).map(|_| alphabet[pseudo_random(state) % alphabet.len()]).collect()
}

#[test]
fn texts_that_can_be_scored_are_scored() {
    let plain = ['a', 'b', '.', '/', 'A', '_'];
    let mixed = ['a', 'b', '.', '\u{e9}', '\u{4e2d}', '\u{1f600}', '/'];
    let mut state = 7u64;
    let mut scored = 0;
    for _ in 0..3000 {
        let first = pseudo_text(&mut state, &plain, 6);
        let second = pseudo_text(&mut state, &mixed, 9);
        for (left, right) in [(&first, &second), (&second, &first)] {
            match similarity(left, right) {
                Some(score) => {
                    assert!(scorable(left, right));
                    assert_eq!(similarity(left, right), Some(score));
                    scored += 1;
                }
                None => assert!(!scorable(left, right)),
            }
        }
    }
    assert!(scored > 3000);
}
