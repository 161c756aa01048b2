use rufi::commands::{ItemType, LaunchItem};
use rufi::fuzzy::{fuzzy_match_score, fuzzy_score, fuzzy_search, order_by_score, score_folded};

fn item(display: &str, command: &str, description: Option<&str>, kind: ItemType) -> LaunchItem {
    LaunchItem {
        name: display.to_string(),
        display_name: display.to_string(),
        command: command.to_string(),
        description: description.map(|d| d.to_string()),
        icon: None,
        item_type: kind,
    }
}

fn cmd(name: &str) -> LaunchItem {
    item(name, name, None, ItemType::Command)
}

#[test]
fn prefix_tier_scores_firefox() {
    let r = fuzzy_search("fire", &[cmd("firefox")], usize::MAX);
    assert_eq!(r.len(), 1);
    assert_eq!(r[0].1, 1496);
    assert_eq!(r[0].0.name, "firefox");
}

#[test]
fn each_tier_value() {
    let c = ItemType::Command;
    assert_eq!(fuzzy_score("vim", &cmd("vim")), Some(2000));
    assert_eq!(fuzzy_score("vi", &cmd("vim")), Some(1498));
    assert_eq!(fuzzy_score("ter", &item("Terminal", "xterm", None, c)), Some(1497));
    assert_eq!(fuzzy_score("gno", &item("Files", "gnome-files", None, c)), Some(1397));
    assert_eq!(fuzzy_score("fox", &cmd("firefox")), Some(997));
    assert_eq!(fuzzy_score("cal", &item("Tools", "gnome-calc", None, c)), Some(897));
    assert_eq!(fuzzy_score("web", &item("Firefox", "ff", Some("A web browser"), c)), Some(597));
    assert_eq!(fuzzy_score("fx", &cmd("firefox")), Some(194));
    assert_eq!(fuzzy_score("zz", &cmd("firefox")), None);
}

#[test]
fn cascade_takes_first_tier_not_sum() {
    // "code" is an exact match, a prefix and a substring of "code": only the exact tier counts.
    assert_eq!(fuzzy_score("code", &cmd("code")), Some(2000));
    // A prefix of the name is also a substring and a subsequence of it.
    assert_eq!(fuzzy_score("co", &cmd("code")), Some(1498));
    // A substring is also a subsequence.
    assert_eq!(fuzzy_score("od", &cmd("code")), Some(998));
}

#[test]
fn exact_beats_prefix_beats_substring_beats_fuzzy() {
    let items = vec![cmd("xcodex"), cmd("c-o-d-e"), cmd("codeium"), cmd("code")];
    let r = fuzzy_search("code", &items, 10);
    let names: Vec<&str> = r.iter().map(|(i, _)| i.name.as_str()).collect();
    assert_eq!(names, vec!["code", "codeium", "xcodex", "c-o-d-e"]);
    assert_eq!(r[0].1, 2000);
    assert_eq!(r[1].1, 1496);
    assert_eq!(r[2].1, 996);
}

#[test]
fn ranking_is_deterministic_and_stable() {
    let items = vec![cmd("alpha"), cmd("beta"), cmd("gamma"), cmd("delta")];
    let a = fuzzy_search("a", &items, 10);
    let b = fuzzy_search("a", &items, 10);
    let na: Vec<(String, i32)> = a.iter().map(|(i, s)| (i.name.clone(), *s)).collect();
    let nb: Vec<(String, i32)> = b.iter().map(|(i, s)| (i.name.clone(), *s)).collect();
    assert_eq!(na, nb);
    // "alpha" is a prefix match; the other three tie on substring and keep input order.
    assert_eq!(
        na,
        vec![
            ("alpha".to_string(), 1499),
            ("beta".to_string(), 999),
            ("gamma".to_string(), 999),
            ("delta".to_string(), 999),
        ]
    );
}

#[test]
fn equal_scores_keep_input_order() {
    let items = vec![cmd("zeta"), cmd("beta")];
    let r = fuzzy_search("et", &items, 10);
    assert_eq!(r[0].0.name, "zeta");
    assert_eq!(r[1].0.name, "beta");
    let swapped = vec![cmd("beta"), cmd("zeta")];
    let r2 = fuzzy_search("et", &swapped, 10);
    assert_eq!(r2[0].0.name, "beta");
    assert_eq!(r2[1].0.name, "zeta");
}

#[test]
fn empty_query_lists_everything_in_order() {
    let items = vec![cmd("c"), cmd("a"), cmd("b")];
    let r = fuzzy_search("", &items, 10);
    let got: Vec<(String, i32)> = r.iter().map(|(i, s)| (i.name.clone(), *s)).collect();
    assert_eq!(got, vec![("c".to_string(), 0), ("a".to_string(), 0), ("b".to_string(), 0)]);
    let cut = fuzzy_search("", &items, 2);
    assert_eq!(cut.len(), 2);
    assert_eq!(cut[1].0.name, "a");
}

#[test]
fn empty_item_list_gives_no_results() {
    assert!(fuzzy_search("x", &[], 10).is_empty());
    assert!(fuzzy_search("", &[], 10).is_empty());
}

#[test]
fn max_results_zero_gives_nothing() {
    assert!(fuzzy_search("", &[cmd("a")], 0).is_empty());
}

#[test]
fn application_gets_fifty_more() {
    let app = item("code", "code", None, ItemType::Application);
    let c = cmd("code");
    assert_eq!(fuzzy_score("code", &app), Some(2050));
    assert_eq!(fuzzy_score("code", &c), Some(2000));
    let r = fuzzy_search("code", &[c, app], 10);
    assert_eq!(r[0].0.item_type, ItemType::Application);
    assert_eq!(r[0].1, 2050);
    assert_eq!(r[1].1, 2000);
    assert_eq!(fuzzy_score("cd", &item("code", "code", None, ItemType::Application)), Some(248));
}

#[test]
fn fuzzy_subsequence_match() {
    assert_eq!(fuzzy_match_score("fx", "firefox"), Some(194));
    assert_eq!(fuzzy_match_score("fx", "chrome"), None);
    assert_eq!(fuzzy_match_score("", "chrome"), None);
    // 'i' at 1 (gap 1: run 1, +10), 'r' at 2 (run 2, +20).
    assert_eq!(fuzzy_match_score("ir", "firefox"), Some(230));
    // 'f' at 0 (gap 0), 'i' at 1 (run 1, +10), then 'f' at 4 (gap 3).
    assert_eq!(fuzzy_match_score("fif", "firefox"), Some(207));
}

#[test]
fn matching_ignores_case() {
    assert_eq!(fuzzy_score("FIRE", &cmd("firefox")), Some(1496));
    assert_eq!(fuzzy_score("fire", &cmd("FireFox")), Some(1496));
    let r = fuzzy_search("FX", &[cmd("Firefox")], 5);
    assert_eq!(r[0].1, 194);
}

#[test]
fn query_length_counts_bytes() {
    // "é" takes two bytes.
    assert_eq!(fuzzy_score("é", &cmd("éa")), Some(1498));
}

#[test]
fn folded_scoring_takes_lowercase_text() {
    let d = Some("a web browser".to_string());
    assert_eq!(score_folded("fire", "firefox", "firefox", &None, ItemType::Command), Some(1496));
    assert_eq!(score_folded("web", "firefox", "ff", &d, ItemType::Application), Some(647));
    assert_eq!(score_folded("FIRE", "firefox", "firefox", &None, ItemType::Command), None);
}

#[test]
fn order_by_score_sorts_and_cuts() {
    let items = vec![cmd("a"), cmd("b"), cmd("c"), cmd("d")];
    let scores = vec![Some(5), None, Some(9), Some(5)];
    let r = order_by_score(&items, &scores, 10);
    let got: Vec<(String, i32)> = r.iter().map(|(i, s)| (i.name.clone(), *s)).collect();
    assert_eq!(got, vec![("c".to_string(), 9), ("a".to_string(), 5), ("d".to_string(), 5)]);
    let cut = order_by_score(&items, &scores, 1);
    assert_eq!(cut.len(), 1);
    assert_eq!(cut[0].0.name, "c");
}

#[test]
fn long_queries_keep_exact_prefix_and_substring_tiers() {
    let q = "a".repeat(25000);
    assert_eq!(fuzzy_score(&q, &cmd(&q)), Some(2000));
    assert_eq!(fuzzy_score(&q, &item(&q, &q, None, ItemType::Application)), Some(2050));
    let longer = format!("{}b", q);
    assert_eq!(fuzzy_score(&q, &cmd(&longer)), Some(1500 - 25000));
    let inner = format!("x{}", q);
    assert_eq!(fuzzy_score(&q, &cmd(&inner)), Some(1000 - 25000));
    let r = fuzzy_search(&q, &[cmd("zz"), cmd(&q)], 10);
    assert_eq!(r.len(), 1);
    assert_eq!(r[0].1, 2000);
}

#[test]
fn subsequence_scores_up_to_the_i32_limit() {
    let q = "a".repeat(20000);
    // First match at 0 (gap 0), then 19999 consecutive matches: 10 * (1 + ... + 19999).
    assert_eq!(fuzzy_match_score(&q, &q), Some(200 + 5 * 19999 * 20000));
    let spread = "a-".repeat(20000);
    assert_eq!(fuzzy_match_score(&q, &spread), Some(200 - 2 * 19999));
}

#[test]
fn reranking_a_ranking_reproduces_it() {
    let items = vec![cmd("xfire"), cmd("fire"), cmd("firefox"), cmd("f-i-r-e")];
    let r1 = fuzzy_search("fire", &items, 10);
    let again: Vec<LaunchItem> = r1.iter().map(|(i, _)| i.clone()).collect();
    let r2 = fuzzy_search("fire", &again, 10);
    let a: Vec<(String, i32)> = r1.iter().map(|(i, s)| (i.name.clone(), *s)).collect();
    let b: Vec<(String, i32)> = r2.iter().map(|(i, s)| (i.name.clone(), *s)).collect();
    assert_eq!(a, b);
}

#[test]
fn permuted_items_give_the_same_scores_in_order() {
    let a = vec![cmd("beta"), cmd("alpha"), cmd("zeta"), cmd("b-e-t-a")];
    let b = vec![cmd("zeta"), cmd("b-e-t-a"), cmd("alpha"), cmd("beta")];
    let ra = fuzzy_search("eta", &a, 10);
    let rb = fuzzy_search("eta", &b, 10);
    let sa: Vec<i32> = ra.iter().map(|(_, s)| *s).collect();
    let sb: Vec<i32> = rb.iter().map(|(_, s)| *s).collect();
    assert_eq!(sa, sb);
    // "zeta" and "beta" tie on the substring tier and follow each input's order.
    assert_eq!(ra[0].0.name, "beta");
    assert_eq!(ra[1].0.name, "zeta");
    assert_eq!(rb[0].0.name, "zeta");
    assert_eq!(rb[1].0.name, "beta");
}
