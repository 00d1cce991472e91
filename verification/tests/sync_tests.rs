use rusttv::certainty::Certainty;
use rusttv::episode::Episode;
use rusttv::inventory::RemoteInventory;
use rusttv::sync::{build_sync_set, diff_eps, ep_le_x, shows_to_query, sort_eps};

fn ep(show: &str, season: u32, episode: u32, ext: &str) -> Episode {
    Episode {
        local_path: format!("local/{}/S{:02}E{:02}.{}", show, season, episode, ext),
        show_name: String::from(show),
        show_certainty: Certainty::one(),
        season_num: season,
        episode_num: episode,
        ext: String::from(ext),
    }
}

fn strings(v: Vec<&str>) -> Vec<String> {
    v.into_iter().map(String::from).collect()
}

#[test]
fn diff_scenario_one_episode_missing() {
    // Local has S1E1 and S1E2 of one show; remote already has S01E01.
    let local = vec![ep("Show A", 1, 1, "mkv"), ep("Show A", 1, 2, "mkv")];
    let mut remote = RemoteInventory::new();
    remote.insert(String::from("Show A"), strings(vec!["S01E01.mkv"]));

    let sync_set = diff_eps(local, &remote);
    assert_eq!(sync_set.len(), 1);
    assert_eq!(sync_set[0], ep("Show A", 1, 2, "mkv"));
}

#[test]
fn diff_excludes_episode_already_present() {
    let local = vec![ep("Show A", 1, 1, "mkv")];
    let mut remote = RemoteInventory::new();
    remote.insert(String::from("Show A"), strings(vec!["S01E01.mkv"]));
    assert!(diff_eps(local, &remote).is_empty());
}

#[test]
fn diff_excludes_show_without_inventory_entry() {
    // A show entirely absent remotely receives nothing, even though no
    // filename collides.
    let local = vec![ep("Show B", 1, 1, "mkv")];
    let mut remote = RemoteInventory::new();
    remote.insert(String::from("Show A"), strings(vec![]));
    assert!(diff_eps(local, &remote).is_empty());
}

#[test]
fn diff_keeps_episode_for_empty_remote_show() {
    // A show present remotely but empty receives everything.
    let local = vec![ep("Show A", 2, 3, "mkv")];
    let mut remote = RemoteInventory::new();
    remote.insert(String::from("Show A"), strings(vec![]));
    let r = diff_eps(local, &remote);
    assert_eq!(r.len(), 1);
    assert_eq!(r[0], ep("Show A", 2, 3, "mkv"));
}

#[test]
fn sort_orders_by_show_season_episode_ext() {
    let unsorted = vec![
        ep("B Show", 1, 1, "mkv"),
        ep("A Show", 2, 1, "mkv"),
        ep("A Show", 1, 2, "mkv"),
        ep("A Show", 1, 2, "avi"),
        ep("A Show", 1, 1, "mkv"),
    ];
    let sorted = sort_eps(unsorted);
    let expected = vec![
        ep("A Show", 1, 1, "mkv"),
        ep("A Show", 1, 2, "avi"),
        ep("A Show", 1, 2, "mkv"),
        ep("A Show", 2, 1, "mkv"),
        ep("B Show", 1, 1, "mkv"),
    ];
    assert_eq!(sorted, expected);
}

#[test]
fn sync_set_is_deterministic_sorted_difference() {
    let local = vec![
        ep("Zeta", 1, 1, "mkv"),
        ep("Alpha", 1, 2, "mkv"),
        ep("Alpha", 1, 1, "mkv"),
    ];
    let mut remote = RemoteInventory::new();
    remote.insert(String::from("Alpha"), strings(vec!["S01E01.mkv"]));
    remote.insert(String::from("Zeta"), strings(vec![]));

    let sync_set = build_sync_set(local, &remote);
    let expected = vec![ep("Alpha", 1, 2, "mkv"), ep("Zeta", 1, 1, "mkv")];
    assert_eq!(sync_set, expected);
}

#[test]
fn order_comparison_ignores_path_and_certainty() {
    let mut a = ep("Same", 1, 1, "mkv");
    a.local_path = String::from("somewhere else");
    a.show_certainty = Certainty::tenth();
    let b = ep("Same", 1, 1, "mkv");
    assert!(ep_le_x(&a, &b));
    assert!(ep_le_x(&b, &a));
}

#[test]
fn shows_to_query_unique_in_first_appearance_order() {
    let local = vec![
        ep("B", 1, 1, "mkv"),
        ep("A", 1, 1, "mkv"),
        ep("B", 1, 2, "mkv"),
        ep("C", 1, 1, "mkv"),
    ];
    let shows = shows_to_query(&local);
    assert_eq!(shows, strings(vec!["B", "A", "C"]));
}

#[test]
fn inventory_lookup_by_show_and_filename() {
    let mut remote = RemoteInventory::new();
    remote.insert(String::from("Show A"), strings(vec!["S01E01.mkv", "S01E02.mkv"]));
    remote.insert(String::from("Show B"), strings(vec![]));

    assert!(remote.contains_show(&String::from("Show A")));
    assert!(remote.contains_show(&String::from("Show B")));
    assert!(!remote.contains_show(&String::from("Show C")));
    assert!(remote.has_episode(&String::from("Show A"), &String::from("S01E02.mkv")));
    assert!(!remote.has_episode(&String::from("Show A"), &String::from("S01E03.mkv")));
    assert!(!remote.has_episode(&String::from("Show B"), &String::from("S01E01.mkv")));
}
