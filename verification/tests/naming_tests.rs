use spotiamp::naming::{
    candidate_id, destination_candidate, display_name_from_id, slugify, unique_destination,
    DestinationSearch,
};

fn is_slug_shaped(s: &str) -> bool {
    !s.is_empty()
        && s.chars().all(|c| c.is_ascii_alphanumeric() || c == '-')
        && !s.starts_with('-')
        && !s.ends_with('-')
        && !s.contains("--")
}

#[test]
fn display_name_of_the_bundled_id() {
    assert_eq!(display_name_from_id("base-2.91"), "Base 2.91");
}

#[test]
fn display_name_splits_at_dashes_and_underscores() {
    assert_eq!(display_name_from_id("my_cool-skin"), "My Cool Skin");
}

#[test]
fn display_name_collapses_separators_and_trims() {
    assert_eq!(display_name_from_id("  --green__machine  "), "Green Machine");
    assert_eq!(display_name_from_id("a\t\nb"), "A B");
}

#[test]
fn display_name_of_empty_and_separator_only_ids() {
    assert_eq!(display_name_from_id(""), "");
    assert_eq!(display_name_from_id("-_- "), "");
}

#[test]
fn display_name_keeps_the_rest_of_each_word() {
    assert_eq!(display_name_from_id("mIxEd-CASE"), "MIxEd CASE");
}

#[test]
fn display_name_uses_unicode_uppercase() {
    // 'ß' uppercases to "SS", 'é' to 'É'.
    assert_eq!(display_name_from_id("ßtraße-éclair"), "SStraße Éclair");
}

#[test]
fn display_name_splits_at_unicode_whitespace() {
    assert_eq!(display_name_from_id("one\u{3000}two"), "One Two");
}

#[test]
fn slug_of_a_plain_name() {
    assert_eq!(slugify("My Cool Skin!"), "my-cool-skin");
}

#[test]
fn slug_collapses_runs_and_trims_dashes() {
    assert_eq!(slugify("  ***Hello,   World***  "), "hello-world");
    assert_eq!(slugify("a--b__c"), "a-b-c");
}

#[test]
fn slug_falls_back_to_skin() {
    assert_eq!(slugify(""), "skin");
    assert_eq!(slugify("---"), "skin");
    assert_eq!(slugify("!!! ???"), "skin");
}

#[test]
fn slug_lowercases_with_unicode_rules() {
    assert_eq!(slugify("ABC"), "abc");
    // 'Ü' lowercases to 'ü', which is not ASCII and becomes a dash.
    assert_eq!(slugify("Ünïcode Skin"), "n-code-skin");
    // 'İ' lowercases to "i\u{307}": an ASCII letter and a combining mark.
    assert_eq!(slugify("İx"), "i-x");
}

#[test]
fn slugs_are_slug_shaped() {
    for name in ["My Skin", "", "--", "Ä-Ö-Ü", "x", "Winamp 2.91 (classic)", "a  b", "İİ"] {
        let s = slugify(name);
        assert!(is_slug_shaped(&s), "{name:?} gave {s:?}");
    }
}

#[test]
fn slug_of_a_slug_is_itself() {
    for name in ["green-machine", "skin", "a-1-b", "x9"] {
        assert_eq!(slugify(name), name);
    }
}

/// Runs the search for a free folder the way the application does, with
/// `exists` standing for the file system.
fn search(base_dir: &str, base_id: &str, exists: impl Fn(&str) -> bool) -> (String, String) {
    let mut attempt: u64 = 1;
    loop {
        let candidate = destination_candidate(base_dir, base_id, attempt);
        match unique_destination(base_dir, base_id, attempt, exists(&candidate)) {
            DestinationSearch::Free { skin_id, destination } => return (skin_id, destination),
            DestinationSearch::Taken { next_attempt } => attempt = next_attempt,
        }
    }
}

fn in_folder(existing: &[&str]) -> impl Fn(&str) -> bool {
    let existing: Vec<String> = existing.iter().map(|n| format!("/skins/{n}")).collect();
    move |path: &str| existing.iter().any(|e| e == path)
}

#[test]
fn candidate_ids_count_from_two() {
    assert_eq!(candidate_id("skin", 0), "skin");
    assert_eq!(candidate_id("skin", 1), "skin");
    assert_eq!(candidate_id("skin", 2), "skin-2");
    assert_eq!(candidate_id("skin", 12), "skin-12");
    assert_eq!(candidate_id("a", 1234567890), "a-1234567890");
}

#[test]
fn destination_candidates_are_in_the_folder() {
    assert_eq!(destination_candidate("/data/skins", "retro", 1), "/data/skins/retro");
    assert_eq!(destination_candidate("/data/skins", "retro", 3), "/data/skins/retro-3");
}

#[test]
fn a_free_candidate_ends_the_search() {
    assert_eq!(
        unique_destination("/data/skins", "retro", 2, false),
        DestinationSearch::Free {
            skin_id: "retro-2".to_string(),
            destination: "/data/skins/retro-2".to_string()
        }
    );
}

#[test]
fn a_taken_candidate_moves_to_the_next_attempt() {
    assert_eq!(
        unique_destination("/data/skins", "retro", 1, true),
        DestinationSearch::Taken { next_attempt: 2 }
    );
}

#[test]
fn search_keeps_the_base_when_free() {
    assert_eq!(search("/skins", "skin", in_folder(&[])).0, "skin");
    assert_eq!(search("/skins", "skin", in_folder(&["skin-2", "other"])).0, "skin");
}

#[test]
fn search_counts_from_two() {
    assert_eq!(search("/skins", "skin", in_folder(&["skin"])), ("skin-2".to_string(), "/skins/skin-2".to_string()));
    assert_eq!(search("/skins", "skin", in_folder(&["skin-2", "skin", "skin-3"])).0, "skin-4");
    assert_eq!(search("/skins", "a", in_folder(&["a", "a-3"])).0, "a-2");
}

#[test]
fn search_with_many_taken_uses_several_digits() {
    let mut existing = vec!["k".to_string()];
    for n in 2..=11 {
        existing.push(format!("k-{n}"));
    }
    let refs: Vec<&str> = existing.iter().map(|s| s.as_str()).collect();
    assert_eq!(search("/skins", "k", in_folder(&refs)).0, "k-12");
}

#[test]
fn search_asks_the_file_system_as_it_answers() {
    // A file system that ignores case: `Dark-Theme` makes `dark-theme` taken.
    let existing = ["/skins/Dark-Theme".to_string()];
    let exists = |p: &str| existing.iter().any(|e| e.eq_ignore_ascii_case(p));
    assert_eq!(search("/skins", "dark-theme", exists).0, "dark-theme-2");
}

#[test]
fn importing_the_same_folder_twice() {
    let base = slugify("Dark Theme!");
    assert_eq!(base, "dark-theme");
    let first = search("/skins", &base, in_folder(&[]));
    assert_eq!(first, ("dark-theme".to_string(), "/skins/dark-theme".to_string()));
    let second = search("/skins", &base, in_folder(&["dark-theme"]));
    assert_eq!(second, ("dark-theme-2".to_string(), "/skins/dark-theme-2".to_string()));
}

#[test]
fn slugify_is_idempotent() {
    for name in ["My Cool Skin!", "", "ÄÖÜ classic", "İx", "K\u{212a}", "--Retro--", "a b  c"] {
        let once = slugify(name);
        assert_eq!(slugify(&once), once, "{name:?}");
        assert!(once.chars().all(|c| c.is_ascii_lowercase() || c.is_ascii_digit() || c == '-'));
    }
}

#[test]
fn slugify_ignores_ascii_case() {
    for name in ["My Cool Skin!", "ÀbC-dÉf", "winamp_2.91", "MiXeD"] {
        assert_eq!(slugify(&name.to_ascii_uppercase()), slugify(name));
        assert_eq!(slugify(&name.to_ascii_lowercase()), slugify(name));
    }
}

#[test]
fn slug_survives_the_display_name() {
    for name in ["green-machine-v2", "skin", "base-2-91", "a-b-c-d"] {
        let s = slugify(name);
        assert_eq!(slugify(&display_name_from_id(&s)), s);
    }
    assert_eq!(display_name_from_id("green-machine-v2"), "Green Machine V2");
}

#[test]
fn display_name_is_empty_only_for_separator_ids() {
    assert_eq!(display_name_from_id("__--  "), "");
    assert_ne!(display_name_from_id("_x_"), "");
    assert_eq!(display_name_from_id("_x_"), "X");
}
