use lessons::naming::{markdown_stem, push_decimal, split_ordinal, split_prefix};
use lessons::ordering::sort_by_key;
use lessons::outline::{
    lesson_from_entry, populate_section, populate_sections, FileEntry, OutlineError,
    SectionListing, Subsection,
};

fn entry(dir: &str, file_name: &str) -> FileEntry {
    FileEntry {
        file_name: file_name.to_string(),
        path: format!("src/sections/{}/{}", dir, file_name),
    }
}

fn listing(dir: &str, files: &[&str]) -> SectionListing {
    SectionListing {
        dir_name: dir.to_string(),
        files: files.iter().map(|f| entry(dir, f)).collect(),
    }
}

fn decimal(n: u64) -> String {
    let mut buf = String::new();
    push_decimal(&mut buf, n);
    buf
}

#[test]
fn splits_numbered_names() {
    assert_eq!(split_ordinal("1_basics"), Some((1, "basics".to_string())));
    assert_eq!(split_ordinal("12_my_first_lesson"), Some((12, "my_first_lesson".to_string())));
    assert_eq!(split_ordinal("007_bond"), Some((7, "bond".to_string())));
    assert_eq!(split_ordinal("3_"), Some((3, String::new())));
    assert_eq!(split_ordinal("65535_max"), Some((65535, "max".to_string())));
}

#[test]
fn rejects_unnumbered_names() {
    assert_eq!(split_ordinal("intro"), None);
    assert_eq!(split_ordinal("_intro"), None);
    assert_eq!(split_ordinal("3"), None);
    assert_eq!(split_ordinal("12ab_x"), None);
    assert_eq!(split_ordinal("65536_too_big"), None);
    assert_eq!(split_ordinal(""), None);
}

#[test]
fn finds_markdown_stems() {
    assert_eq!(markdown_stem("1_intro.md"), Some("1_intro".to_string()));
    assert_eq!(markdown_stem("a.b.md"), Some("a.b".to_string()));
    assert_eq!(markdown_stem(".md"), None);
    assert_eq!(markdown_stem("notes.txt"), None);
    assert_eq!(markdown_stem("readme.mdx"), None);
    assert_eq!(markdown_stem("md"), None);
}

#[test]
fn writes_decimals() {
    assert_eq!(decimal(0), "0");
    assert_eq!(decimal(7), "7");
    assert_eq!(decimal(120), "120");
    assert_eq!(decimal(u64::MAX), "18446744073709551615");
}

#[test]
fn reads_a_lesson_entry() {
    let e = entry("1_basics", "2_vars_and_types.md");
    let lesson = lesson_from_entry(&e).unwrap().unwrap();
    assert_eq!(lesson.index, 2);
    assert_eq!(lesson.name, "vars_and_types");
    assert_eq!(lesson.path, "src/sections/1_basics/2_vars_and_types.md");
    assert_eq!(lesson_from_entry(&entry("1_basics", "logo.svg")), Ok(None));
}

#[test]
fn section_display_name_drops_prefix() {
    let section = populate_section(&listing("1_basics", &[])).unwrap();
    assert_eq!(section.name, "basics");
    assert_eq!(section.ordinal, Some(1));
    let section = populate_section(&listing("42_more_advanced_things", &[])).unwrap();
    assert_eq!(section.name, "more_advanced_things");
    assert_eq!(section.ordinal, Some(42));
}

#[test]
fn lessons_ordered_by_index_whatever_the_listing_order() {
    let forward = listing("1_basics", &["1_intro.md", "2_vars.md", "10_loops.md", "3_fns.md"]);
    let backward = listing("1_basics", &["3_fns.md", "10_loops.md", "2_vars.md", "1_intro.md"]);
    let a = populate_section(&forward).unwrap();
    let b = populate_section(&backward).unwrap();
    let names: Vec<&str> = a.subsections.iter().map(|s| s.name.as_str()).collect();
    assert_eq!(names, vec!["intro", "vars", "fns", "loops"]);
    assert_eq!(a, b);
}

#[test]
fn sorts_lessons_by_index() {
    let lesson = |index: u16, name: &str| Subsection {
        index,
        name: name.to_string(),
        path: format!("{}.md", name),
    };
    let sorted = sort_by_key(vec![lesson(5, "e"), lesson(1, "a"), lesson(3, "c"), lesson(2, "b")]);
    let indices: Vec<u16> = sorted.iter().map(|s| s.index).collect();
    assert_eq!(indices, vec![1, 2, 3, 5]);
    assert!(sort_by_key(Vec::<Subsection>::new()).is_empty());
}

#[test]
fn skips_files_that_are_not_markdown() {
    let section = populate_section(&listing("1_basics", &["1_intro.md", "image.png", "notes.txt"])).unwrap();
    assert_eq!(section.subsections.len(), 1);
    assert_eq!(section.subsections[0].name, "intro");
}

#[test]
fn empty_section_has_no_lessons() {
    let sections = populate_sections(&vec![listing("1_empty", &[])]).unwrap();
    assert_eq!(sections.len(), 1);
    assert_eq!(sections[0].name, "empty");
    assert!(sections[0].subsections.is_empty());
}

#[test]
fn unnumbered_lesson_fails() {
    let result = populate_sections(&vec![listing("1_basics", &["1_ok.md", "intro.md"])]);
    assert_eq!(
        result,
        Err(OutlineError::UnnumberedLesson { file_name: "intro.md".to_string() })
    );
}

#[test]
fn unnumbered_section_keeps_its_name_and_sorts_last() {
    let listings = vec![
        listing("intro", &[]),
        listing("2_two", &["1_a.md"]),
        listing("extras", &["1_b.md"]),
        listing("1_one", &[]),
    ];
    let sections = populate_sections(&listings).unwrap();
    let names: Vec<&str> = sections.iter().map(|s| s.name.as_str()).collect();
    assert_eq!(names, vec!["one", "two", "intro", "extras"]);
    assert_eq!(sections[2].ordinal, None);
    assert_eq!(sections[3].subsections[0].name, "b");
}

#[test]
fn equal_keys_keep_listing_order() {
    let section = populate_section(&listing("1_basics", &["2_b.md", "1_x.md", "2_a.md", "1_y.md"])).unwrap();
    let names: Vec<&str> = section.subsections.iter().map(|s| s.name.as_str()).collect();
    assert_eq!(names, vec!["x", "y", "b", "a"]);
    let sections = populate_sections(&vec![listing("1_b", &[]), listing("1_a", &[])]).unwrap();
    let names: Vec<&str> = sections.iter().map(|s| s.name.as_str()).collect();
    assert_eq!(names, vec!["b", "a"]);
}

#[test]
fn sections_ordered_by_ordinal() {
    let listings = vec![listing("10_ten", &[]), listing("1_one", &[]), listing("2_two", &[])];
    let sections = populate_sections(&listings).unwrap();
    let names: Vec<&str> = sections.iter().map(|s| s.name.as_str()).collect();
    assert_eq!(names, vec!["one", "two", "ten"]);
}

#[test]
fn splits_prefixes_of_any_size() {
    assert_eq!(split_prefix("70000_x"), Some((Some(70000), "x".to_string())));
    assert_eq!(
        split_prefix("18446744073709551615_max"),
        Some((Some(u64::MAX), "max".to_string()))
    );
    assert_eq!(
        split_prefix("99999999999999999999_huge_name"),
        Some((None, "huge_name".to_string()))
    );
    assert_eq!(split_prefix("intro"), None);
    assert_eq!(split_prefix("12ab_x"), None);
}

#[test]
fn large_section_numbers_are_stripped_and_ordered() {
    let listings = vec![
        listing("70000_x", &[]),
        listing("99999999999999999999_huge", &[]),
        listing("intro", &[]),
        listing("65536_y", &[]),
        listing("3_small", &[]),
    ];
    let sections = populate_sections(&listings).unwrap();
    let names: Vec<&str> = sections.iter().map(|s| s.name.as_str()).collect();
    assert_eq!(names, vec!["small", "y", "x", "huge", "intro"]);
    assert_eq!(sections[2].ordinal, Some(70000));
    assert_eq!(sections[3].ordinal, None);
}
