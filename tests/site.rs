use lessons::nav::build_sidebar;
use lessons::outline::{populate_sections, FileEntry, SectionListing};
use lessons::page::{
    assemble_page, lesson_dir_name, lesson_pages, lesson_title, md_to_html, BASE_TITLE,
};

fn listing(dir: &str, files: &[&str]) -> SectionListing {
    SectionListing {
        dir_name: dir.to_string(),
        files: files
            .iter()
            .map(|f| FileEntry {
                file_name: f.to_string(),
                path: format!("src/sections/{}/{}", dir, f),
            })
            .collect(),
    }
}

fn sample() -> Vec<SectionListing> {
    vec![
        listing("2_advanced", &["1_traits.md"]),
        listing("1_basics", &["2_vars.md", "1_intro.md"]),
    ]
}

#[test]
fn sample_site_paths_and_sidebar() {
    let sections = populate_sections(&sample()).unwrap();
    let pages = lesson_pages(&sections);
    let dirs: Vec<&str> = pages.iter().map(|p| p.dir_name.as_str()).collect();
    assert_eq!(dirs, vec!["1.1", "1.2", "2.1"]);
    let sources: Vec<&str> = pages.iter().map(|p| p.source.as_str()).collect();
    assert_eq!(
        sources,
        vec![
            "src/sections/1_basics/1_intro.md",
            "src/sections/1_basics/2_vars.md",
            "src/sections/2_advanced/1_traits.md"
        ]
    );
    assert_eq!(pages[0].title, "intro - Introduction to Rust");
    let sidebar = build_sidebar(&sections);
    assert_eq!(
        sidebar,
        "<nav id=\"sidebar-nav\">\n<ol class=\"lesson-links\">\
         <li>\n<h4>basics</h4>\n\
         \t<a class=\"subsection\" href=\"/1.1\">intro</a>\n\
         \t<a class=\"subsection\" href=\"/1.2\">vars</a>\n\
         </li>\n\
         <li>\n<h4>advanced</h4>\n\
         \t<a class=\"subsection\" href=\"/2.1\">traits</a>\n\
         </li>\n\
         </ol>\n</nav>\n"
    );
    assert_eq!(sidebar.matches("<h4>").count(), 2);
    assert_eq!(sidebar.matches("<a ").count(), 3);
}

#[test]
fn empty_section_in_sidebar_without_links() {
    let sections = populate_sections(&vec![listing("1_empty", &[])]).unwrap();
    assert!(lesson_pages(&sections).is_empty());
    let sidebar = build_sidebar(&sections);
    assert!(sidebar.contains("<li>\n<h4>empty</h4>\n</li>\n"));
    assert!(!sidebar.contains("<a "));
}

#[test]
fn sidebar_same_for_same_outline() {
    let first = build_sidebar(&populate_sections(&sample()).unwrap());
    let second = build_sidebar(&populate_sections(&sample()).unwrap());
    assert_eq!(first, second);
}

#[test]
fn rebuild_gives_identical_pages() {
    let run = || {
        let sections = populate_sections(&sample()).unwrap();
        let sidebar = build_sidebar(&sections);
        let mut out = vec![md_to_html(BASE_TITLE, "# Welcome", &sidebar)];
        for page in lesson_pages(&sections) {
            out.push(page.dir_name.clone());
            out.push(md_to_html(&page.title, "Some *text*.", &sidebar));
        }
        out
    };
    assert_eq!(run(), run());
}

#[test]
fn converts_markdown_with_strikethrough() {
    let page = md_to_html("T", "# Hi\n\n~~old~~ new", "<nav></nav>");
    assert!(page.contains("<h1>Hi</h1>"));
    assert!(page.contains("<del>old</del>"));
    assert!(!page.contains("# Hi"));
    assert!(page.contains("<nav></nav>\n<main>"));
}

#[test]
fn assembles_page_in_order() {
    let page = assemble_page("My title", "SIDEBAR", "BODY");
    let title = page.find("<title>My title</title>").unwrap();
    let sidebar = page.find("SIDEBAR").unwrap();
    let body = page.find("\n<main>BODY</main>\n").unwrap();
    assert!(title < sidebar && sidebar < body);
    assert!(page.starts_with("<!DOCTYPE html>"));
    assert!(page.ends_with("</html>\n"));
}

#[test]
fn titles_and_directory_names() {
    assert_eq!(lesson_title("vars"), "vars - Introduction to Rust");
    assert_eq!(lesson_dir_name(1, 1), "1.1");
    assert_eq!(lesson_dir_name(12, 30), "12.30");
}
