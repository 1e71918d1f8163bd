use baras::boss_search::search_bosses;
use baras::types::BossListItem;

fn boss(id: &str, name: &str, area: &str, category: &str) -> BossListItem {
    BossListItem {
        id: id.to_string(),
        name: name.to_string(),
        area_name: area.to_string(),
        category: category.to_string(),
        file_path: format!("{}.toml", id),
    }
}

fn ids(found: Vec<&BossListItem>) -> Vec<String> {
    found.iter().map(|b| b.id.clone()).collect()
}

fn sample() -> Vec<BossListItem> {
    vec![
        boss("a", "Red", "Dxun", "operations"),
        boss("b", "Apex Vanguard", "Dxun", "operations"),
        boss("c", "Apex", "Gods from the Machine", "operations"),
        boss("d", "Tyth", "Gods from the Machine", "operations"),
        boss("e", "Nahut", "Dxun", "flashpoints"),
    ]
}

#[test]
fn empty_query_sorts_by_area_then_name() {
    let bosses = sample();
    assert_eq!(ids(search_bosses(&bosses, "")), vec!["b", "e", "a", "c", "d"]);
}

#[test]
fn exact_then_prefix_then_area() {
    let bosses = sample();
    // "apex" is exact for c, a prefix for b.
    assert_eq!(ids(search_bosses(&bosses, "APEX")), vec!["c", "b"]);
}

#[test]
fn matches_area_and_category() {
    let bosses = sample();
    assert_eq!(ids(search_bosses(&bosses, "flash")), vec!["e"]);
    assert_eq!(ids(search_bosses(&bosses, "machine")), vec!["c", "d"]);
    assert!(search_bosses(&bosses, "zzz").is_empty());
}

#[test]
fn equally_relevant_bosses_keep_their_order() {
    let bosses = vec![boss("x", "Same", "Area", "c"), boss("y", "Same", "Area", "c")];
    assert_eq!(ids(search_bosses(&bosses, "")), vec!["x", "y"]);
}
