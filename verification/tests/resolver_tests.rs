use rusttv::certainty::Certainty;
use rusttv::strsim::StrsimResolver;
use rusttv::tmdb::{sanitise_name, strip_year};

fn get_resolver() -> StrsimResolver {
    let known_shows: Vec<String> = vec![
        "All My Circuits",
        "Everybody Loves Hypnotoad",
        "Calculon (2010)",
        "Calculon: A Calculon Story",
    ]
    .into_iter()
    .map(String::from)
    .collect();
    StrsimResolver::new(&known_shows)
}

#[test]
fn resolve_exact() {
    let resolver = get_resolver();

    for show in vec![
        "All My Circuits",
        "Everybody Loves Hypnotoad",
        "Calculon (2010)",
        "Calculon: A Calculon Story",
    ] {
        let (actual, certainty) = resolver.resolve(show).unwrap();

        assert_eq!(actual, show);
        assert_eq!(certainty, Certainty::one());
    }
}

#[test]
fn resolve_fuzzy() {
    let resolver = get_resolver();

    for (fuzzy, expected) in vec![
        ("all my circuits", "All My Circuits"),
        ("All My Circuits (2011)", "All My Circuits"),
        ("calculon", "Calculon (2010)"),
        ("Calculon a Calculon Story", "Calculon: A Calculon Story"),
        (
            "calculon a calculon story (2011)",
            "Calculon: A Calculon Story",
        ),
    ] {
        let (actual, _) = resolver.resolve(fuzzy).unwrap();
        assert_eq!(actual, expected);
    }
}

// Two 20-character strings sharing their first `m` characters in order,
// with the remaining characters matching nothing, score exactly
// (2 * m/20 + 1) / 3.
fn prefix_pair(m: usize) -> (String, String) {
    let a = "abcdefghijklmnopqrst";
    let tails = "0123456789";
    let mut b: String = a.chars().take(m).collect();
    b.push_str(&tails[..20 - m]);
    (a.to_string(), b)
}

#[test]
fn fuzzy_boundary_exactly_perfect_threshold() {
    // m = 17 of 20 gives exactly 9/10: the perfect branch takes it.
    let (candidate, known) = prefix_pair(17);
    let resolver = StrsimResolver::new(&vec![known.clone()]);
    let (actual, certainty) = resolver.resolve(&candidate).unwrap();
    assert_eq!(actual, known);
    // Exactly 0.9: num * 10 == den * 9.
    assert_eq!(certainty.num as u128 * 10, certainty.den as u128 * 9);
}

#[test]
fn fuzzy_boundary_exactly_good_threshold() {
    // m = 11 of 20 gives exactly 7/10: the best-match branch keeps it.
    let (candidate, known) = prefix_pair(11);
    let resolver = StrsimResolver::new(&vec![known.clone()]);
    let (actual, certainty) = resolver.resolve(&candidate).unwrap();
    assert_eq!(actual, known);
    assert_eq!(certainty.num as u128 * 10, certainty.den as u128 * 7);
}

#[test]
fn fuzzy_below_good_threshold_returns_nothing() {
    // m = 10 of 20 gives 2/3 < 7/10.
    let (candidate, known) = prefix_pair(10);
    let resolver = StrsimResolver::new(&vec![known]);
    assert!(resolver.resolve(&candidate).is_none());
}

#[test]
fn fuzzy_unrelated_returns_nothing() {
    let resolver = get_resolver();
    assert!(resolver.resolve("Totally non-existent show").is_none());
}

#[test]
fn jaro_agrees_with_float_reference() {
    let pairs = vec![
        ("all my circuits", "All My Circuits"),
        ("calculon", "Calculon (2010)"),
        ("Friedrich Nietzsche", "Jean-Paul Sartre"),
        ("abc", "abc"),
        ("", "abc"),
        ("a", "b"),
        ("a", "a"),
        ("martha", "marhta"),
        ("dwayne", "duane"),
    ];
    for (a, b) in pairs {
        let av: Vec<char> = a.chars().collect();
        let bv: Vec<char> = b.chars().collect();
        let exact = rusttv::strsim::jaro(&av, &bv);
        let ours = exact.num as f64 / exact.den as f64;
        let reference = strsim::jaro(a, b);
        assert!(
            (ours - reference).abs() < 1e-9,
            "jaro mismatch for {:?}/{:?}: {} vs {}",
            a,
            b,
            ours,
            reference
        );
    }
}

#[test]
fn strip_year_removes_trailing_parenthesised_digits() {
    assert_eq!(strip_year("Calculon (2010)"), "Calculon ");
    assert_eq!(strip_year("Calculon"), "Calculon");
    assert_eq!(strip_year("Calculon (old)"), "Calculon (old)");
    assert_eq!(strip_year("(1999)"), "");
}

#[test]
fn sanitise_name_replaces_path_separators() {
    assert_eq!(sanitise_name("a/b\\c"), "a b c");
    assert_eq!(sanitise_name("plain"), "plain");
}

#[test]
fn certainty_threshold_comparisons_are_exact() {
    let c = Certainty { num: 9, den: 10 };
    assert!(c.at_least(9, 10));
    assert!(!c.at_least(91, 100));
    let d = Certainty { num: 89, den: 100 };
    assert!(!d.at_least(9, 10));
    assert!(d.at_least(7, 10));
    assert!(c.gt(&d));
    assert!(!d.gt(&c));
}
