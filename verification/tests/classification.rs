use text_repository::text::same_text;
use text_repository::{Permissions, TextRepository};

#[test]
fn builtin_names_have_their_documented_levels() {
    let repo = TextRepository::new("library");
    for name in ["divine_texts", "holy_writings", "apocrypha"] {
        assert_eq!(repo.classify(name), Some(Permissions::Divine), "{}", name);
    }
    for name in ["royal_archives", "kings_chronicles", "pseudepigrapha"] {
        assert_eq!(repo.classify(name), Some(Permissions::Royal), "{}", name);
    }
    for name in ["common_records", "census", "targumim", "mishnah", "gemara"] {
        assert_eq!(repo.classify(name), Some(Permissions::Common), "{}", name);
    }
}

#[test]
fn builtin_lookup_needs_no_repository() {
    assert_eq!(TextRepository::builtin("census"), Some(Permissions::Common));
    assert_eq!(TextRepository::builtin("kings_chronicles"), Some(Permissions::Royal));
    assert_eq!(TextRepository::builtin("holy_writings"), Some(Permissions::Divine));
    assert_eq!(TextRepository::builtin("scrolls"), None);
}

#[test]
fn unknown_name_has_no_level() {
    let repo = TextRepository::new("library");
    assert_eq!(repo.classify("scrolls"), None);
    assert_eq!(repo.classify("library"), None);
}

#[test]
fn empty_name_has_no_level() {
    let repo = TextRepository::new("library");
    assert_eq!(repo.classify(""), None);
}

#[test]
fn matching_is_exact_and_case_sensitive() {
    let repo = TextRepository::new("library");
    assert_eq!(repo.classify("Divine_Texts"), None);
    assert_eq!(repo.classify("CENSUS"), None);
    assert_eq!(repo.classify("census "), None);
    assert_eq!(repo.classify(" census"), None);
    assert_eq!(repo.classify("divine_text"), None);
    assert_eq!(repo.classify("divine_textss"), None);
    assert_eq!(repo.classify("divine*"), None);
}

#[test]
fn override_gives_its_level_to_a_name_outside_the_table() {
    let mut repo = TextRepository::new("library");
    repo.set_override("scrolls", Permissions::Royal);
    repo.set_override("tablets", Permissions::Divine);
    assert_eq!(repo.classify("scrolls"), Some(Permissions::Royal));
    assert_eq!(repo.classify("tablets"), Some(Permissions::Divine));
    assert_eq!(repo.classify("papyri"), None);
}

#[test]
fn later_override_replaces_earlier_one() {
    let mut repo = TextRepository::new("library");
    repo.set_override("scrolls", Permissions::Royal);
    repo.set_override("scrolls", Permissions::Common);
    assert_eq!(repo.classify("scrolls"), Some(Permissions::Common));
}

#[test]
fn override_does_not_shadow_builtin_entry() {
    let mut repo = TextRepository::new("library");
    repo.set_override("divine_texts", Permissions::Common);
    assert_eq!(repo.classify("divine_texts"), Some(Permissions::Divine));
    repo.set_override("census", Permissions::Divine);
    assert_eq!(repo.classify("census"), Some(Permissions::Common));
    repo.set_override("pseudepigrapha", Permissions::Common);
    assert_eq!(repo.classify("pseudepigrapha"), Some(Permissions::Royal));
}

#[test]
fn override_leaves_other_names_alone() {
    let mut repo = TextRepository::new("library");
    repo.set_override("scrolls", Permissions::Royal);
    assert_eq!(repo.classify("gemara"), Some(Permissions::Common));
    assert_eq!(repo.classify("scroll"), None);
    assert_eq!(repo.base_path(), "library");
}

#[test]
fn new_repository_keeps_its_base_path() {
    assert_eq!(TextRepository::new("nephilim_wars_data").base_path(), "nephilim_wars_data");
    assert_eq!(TextRepository::new("").base_path(), "");
    assert_eq!(TextRepository::new("a/b/c").base_path(), "a/b/c");
}

#[test]
fn directory_is_classified_by_its_last_component() {
    let repo = TextRepository::new("root");
    assert_eq!(repo.classify_directory("root/divine_texts"), Some(Permissions::Divine));
    assert_eq!(
        repo.classify_directory("root/divine_texts/common_records"),
        Some(Permissions::Common)
    );
    assert_eq!(repo.classify_directory("royal_archives"), Some(Permissions::Royal));
    assert_eq!(repo.classify_directory("root"), None);
    assert_eq!(repo.classify_directory("divine_texts/notes"), None);
}

#[test]
fn trailing_separator_does_not_hide_the_name() {
    let repo = TextRepository::new("root");
    assert_eq!(repo.classify_directory("root/census/"), Some(Permissions::Common));
}

#[test]
fn path_without_a_name_is_classified_by_the_empty_name() {
    let mut repo = TextRepository::new("root");
    assert_eq!(repo.classify_directory(""), None);
    assert_eq!(repo.classify_directory("/"), None);
    assert_eq!(repo.classify_directory("root/divine_texts/.."), None);
    repo.set_override("", Permissions::Common);
    assert_eq!(repo.classify(""), Some(Permissions::Common));
    assert_eq!(repo.classify_directory(""), Some(Permissions::Common));
    assert_eq!(repo.classify_directory("/"), Some(Permissions::Common));
    assert_eq!(repo.classify_directory("root/divine_texts/.."), Some(Permissions::Common));
    assert_eq!(repo.classify_directory("root/divine_texts"), Some(Permissions::Divine));
}

#[test]
fn levels_have_their_words() {
    assert_eq!(Permissions::Divine.to_str(), "divine");
    assert_eq!(Permissions::Royal.to_str(), "royal");
    assert_eq!(Permissions::Common.to_str(), "common");
}

#[test]
fn levels_compare_by_identity() {
    assert_eq!(Permissions::Divine, Permissions::Divine);
    assert_ne!(Permissions::Divine, Permissions::Royal);
    assert_ne!(Permissions::Royal, Permissions::Common);
    let copy = Permissions::Common;
    assert_eq!(copy, Permissions::Common);
}

#[test]
fn same_text_compares_character_by_character() {
    assert!(same_text("", ""));
    assert!(same_text("gemara", "gemara"));
    assert!(!same_text("gemara", "gemarah"));
    assert!(!same_text("gemara", "gemarA"));
    assert!(!same_text("gemara", ""));
    assert!(same_text("\u{5d2}\u{5de}\u{5e8}\u{5d0}", "\u{5d2}\u{5de}\u{5e8}\u{5d0}"));
    assert!(!same_text("\u{5d2}\u{5de}\u{5e8}\u{5d0}", "\u{5d2}\u{5de}\u{5e8}\u{5d1}"));
}
