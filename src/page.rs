//! Pages of the site: the fixed frame around each page, markdown converted
//! to HTML, page titles, and the plan of lesson pages.
use vstd::prelude::*;
use vstd::string::StringExecFns;
use crate::naming::{decimal, markdown_stem_spec, push_decimal};
use crate::nav::{links_html, section_html, sidebar_html};
use crate::ordering::{lemma_stable_unique, with_key};
use crate::outline::{
    FileEntry, LessonView, Section, SectionListing, SectionView, arranges, built_from, lesson_key, lessons_of,
    outline_of, section_built, section_key, section_views,
};

verus! {

/// The title of the site, and of its welcome page.
pub const BASE_TITLE: &'static str = "Introduction to Rust";

/// What separates a lesson's name from the site title in its page title.
pub const TITLE_SEPARATOR: &'static str = " - ";

pub const BEFORE_TITLE_HTML: &'static str = "<!DOCTYPE html>\n<html lang=\"en\">\n<head>\n<meta charset=\"utf-8\">\n<title>";

pub const BEFORE_BODY_HTML: &'static str = "</title>\n<link rel=\"stylesheet\" href=\"/styles.css\">\n<link rel=\"icon\" href=\"/favicon.svg\">\n</head>\n<body>\n";

pub const HEADER_HTML: &'static str = "<header><a href=\"/\">Introduction to Rust</a></header>\n";

pub const MAIN_OPEN_HTML: &'static str = "\n<main>";

pub const MAIN_CLOSE_HTML: &'static str = "</main>\n";

pub const FOOTER_HTML: &'static str = "<footer>Lessons are numbered section by section.</footer>\n";

pub const AFTER_BODY_HTML: &'static str = "</body>\n</html>\n";

/// The HTML that the markdown converter gives for a markdown text, with the
/// strikethrough extension on.
pub uninterp spec fn markdown_html(md: Seq<char>) -> Seq<char>;

/// Relies on pulldown_cmark::Parser::new_ext, with only
/// Options::ENABLE_STRIKETHROUGH set, and pulldown_cmark::html::push_html
/// into an empty buffer: the HTML depends on the markdown text alone.
#[verifier::external_body]
fn markdown_to_html(md: &str) -> (r: String)
    ensures
        r@ == markdown_html(md@),
{
    let mut options = pulldown_cmark::Options::empty();
    options.insert(pulldown_cmark::Options::ENABLE_STRIKETHROUGH);
    let mut out = String::new();
    pulldown_cmark::html::push_html(&mut out, pulldown_cmark::Parser::new_ext(md, options));
    out
}

/// A complete page: the fixed frame with the title, the sidebar and the body
/// in their places.
pub open spec fn page_html(title: Seq<char>, sidebar: Seq<char>, body: Seq<char>) -> Seq<char> {
    BEFORE_TITLE_HTML@ + title + BEFORE_BODY_HTML@ + HEADER_HTML@ + sidebar + MAIN_OPEN_HTML@ + body
        + MAIN_CLOSE_HTML@ + FOOTER_HTML@ + AFTER_BODY_HTML@
}

/// Puts a page together from its title, the sidebar and the HTML of its body.
pub fn assemble_page(title: &str, sidebar: &str, body_html: &str) -> (r: String)
    ensures
        r@ == page_html(title@, sidebar@, body_html@),
{
    let mut buf = String::from_str(BEFORE_TITLE_HTML);
    buf.append(title);
    buf.append(BEFORE_BODY_HTML);
    buf.append(HEADER_HTML);
    buf.append(sidebar);
    buf.append(MAIN_OPEN_HTML);
    buf.append(body_html);
    buf.append(MAIN_CLOSE_HTML);
    buf.append(FOOTER_HTML);
    buf.append(AFTER_BODY_HTML);
    buf
}

/// Renders the page of one markdown text: its HTML inside the page frame.
pub fn md_to_html(title: &str, markdown: &str, sidebar: &str) -> (r: String)
    ensures
        r@ == page_html(title@, sidebar@, markdown_html(markdown@)),
{
    let body = markdown_to_html(markdown);
    assemble_page(title, sidebar, body.as_str())
}

/// The title of a lesson's page.
pub open spec fn lesson_title_spec(name: Seq<char>) -> Seq<char> {
    name + TITLE_SEPARATOR@ + BASE_TITLE@
}

/// The name of the directory of lesson `m` of section `n`: `"<n>.<m>"`.
pub open spec fn lesson_dir_spec(n: nat, m: nat) -> Seq<char> {
    decimal(n) + "."@ + decimal(m)
}

/// Gives the title of the page of the lesson named `name`.
pub fn lesson_title(name: &str) -> (r: String)
    ensures
        r@ == lesson_title_spec(name@),
{
    let mut buf = String::from_str(name);
    buf.append(TITLE_SEPARATOR);
    buf.append(BASE_TITLE);
    buf
}

/// Gives the directory name of lesson `lesson_number` of section
/// `section_number`.
pub fn lesson_dir_name(section_number: u64, lesson_number: u64) -> (r: String)
    ensures
        r@ == lesson_dir_spec(section_number as nat, lesson_number as nat),
{
    let mut buf = String::new();
    push_decimal(&mut buf, section_number);
    buf.append(".");
    push_decimal(&mut buf, lesson_number);
    buf
}

/// A lesson page to write: the directory it goes in, its title, and the path
/// of its markdown source.
#[derive(Debug, Clone, PartialEq, Eq)]
pub struct LessonPage {
    pub dir_name: String,
    pub title: String,
    pub source: String,
}

pub type PageView = (Seq<char>, Seq<char>, Seq<char>);

impl View for LessonPage {
    type V = PageView;

    open spec fn view(&self) -> PageView {
        (self.dir_name@, self.title@, self.source@)
    }
}

pub open spec fn page_views(s: Seq<LessonPage>) -> Seq<PageView> {
    s.map_values(|p: LessonPage| p@)
}

/// The pages of the lessons of section `n`, in order.
pub open spec fn section_pages(n: nat, lessons: Seq<LessonView>) -> Seq<PageView>
    decreases lessons.len(),
{
    if lessons.len() == 0 {
        Seq::empty()
    } else {
        section_pages(n, lessons.drop_last()).push(
            (
                lesson_dir_spec(n, lessons.len()),
                lesson_title_spec(lessons.last().1),
                lessons.last().2,
            ),
        )
    }
}

/// The pages of all lessons of an outline, section by section.
pub open spec fn site_pages(sections: Seq<SectionView>) -> Seq<PageView>
    decreases sections.len(),
{
    if sections.len() == 0 {
        Seq::empty()
    } else {
        site_pages(sections.drop_last()) + section_pages(sections.len(), sections.last().2)
    }
}

/// Lists the lesson pages of an outline, section by section.
pub fn lesson_pages(sections: &Vec<Section>) -> (r: Vec<LessonPage>)
    ensures
        page_views(r@) == site_pages(section_views(sections@)),
{
    let ghost views = section_views(sections@);
    let mut pages: Vec<LessonPage> = Vec::new();
    let n = sections.len();
    let mut i: usize = 0;
    assert(page_views(pages@) =~= Seq::empty());
    while i < n
        invariant
            n == sections@.len(),
            i <= n,
            views == section_views(sections@),
            page_views(pages@) == site_pages(views.subrange(0, i as int)),
        decreases n - i,
    {
        let section = &sections[i];
        let ghost start = page_views(pages@);
        let ghost lessons = views[i as int].2;
        let m = section.subsections.len();
        let mut j: usize = 0;
        while j < m
            invariant
                i < n,
                n == sections@.len(),
                section == &sections@[i as int],
                views == section_views(sections@),
                lessons == views[i as int].2,
                m == lessons.len(),
                j <= m,
                page_views(pages@) == start + section_pages((i + 1) as nat, lessons.subrange(0, j as int)),
            decreases m - j,
        {
            let lesson = &section.subsections[j];
            let page = LessonPage {
                dir_name: lesson_dir_name((i + 1) as u64, (j + 1) as u64),
                title: lesson_title(lesson.name.as_str()),
                source: lesson.path.clone(),
            };
            let ghost before = pages@;
            pages.push(page);
            assert(page_views(pages@) =~= page_views(before).push(page@));
            assert(lessons.subrange(0, j + 1).drop_last() =~= lessons.subrange(0, j as int));
            assert(lessons[j as int] == lesson@);
            j = j + 1;
        }
        assert(lessons.subrange(0, j as int) =~= lessons);
        assert(views.subrange(0, i + 1).drop_last() =~= views.subrange(0, i as int));
        assert(page_views(pages@) =~= site_pages(views.subrange(0, i + 1)));
        i = i + 1;
    }
    assert(views.subrange(0, i as int) =~= views);
    pages
}

/// Building the site twice from the same listings and the same markdown
/// texts gives the same outline, the same sidebar, the same lesson pages and
/// the same page text.
pub proof fn lemma_rebuild_identical(
    listings: Seq<SectionListing>,
    first: Seq<SectionView>,
    second: Seq<SectionView>,
    title: Seq<char>,
    markdown: Seq<char>,
)
    requires
        outline_of(listings, first),
        outline_of(listings, second),
    ensures
        first == second,
        sidebar_html(first) == sidebar_html(second),
        site_pages(first) == site_pages(second),
        page_html(title, sidebar_html(first), markdown_html(markdown))
            == page_html(title, sidebar_html(second), markdown_html(markdown)),
{
    let b1 = choose|b: Seq<SectionView>| #[trigger] built_from(listings, b) && arranges(b, first);
    let b2 = choose|b: Seq<SectionView>| #[trigger] built_from(listings, b) && arranges(b, second);
    assert forall|k: int| 0 <= k < b1.len() implies b1[k] == b2[k] by {
        let l = listings[k];
        assert(section_built(l, b1[k]));
        assert(section_built(l, b2[k]));
        let lessons = lessons_of(l.files@);
        assert forall|i: int| #[trigger] with_key(b1[k].2, lesson_key(), i) == with_key(b2[k].2, lesson_key(), i) by {
            assert(with_key(b1[k].2, lesson_key(), i) == with_key(lessons, lesson_key(), i));
            assert(with_key(b2[k].2, lesson_key(), i) == with_key(lessons, lesson_key(), i));
        }
        lemma_stable_unique(b1[k].2, b2[k].2, lesson_key());
    }
    assert(b1 =~= b2);
    assert forall|i: int| #[trigger] with_key(first, section_key(), i) == with_key(second, section_key(), i) by {
        assert(with_key(first, section_key(), i) == with_key(b1, section_key(), i));
        assert(with_key(second, section_key(), i) == with_key(b2, section_key(), i));
    }
    lemma_stable_unique(first, second, section_key());
}

/// A section directory with no markdown file gives a section with no
/// lessons and no lesson pages, which still has its list item, with no
/// links, in the sidebar.
pub proof fn lemma_empty_section(listing: SectionListing, section: SectionView, n: nat)
    requires
        forall|k: int| 0 <= k < listing.files@.len() ==> (#[trigger] markdown_stem_spec(listing.files@[k].file_name@)) is None,
        section_built(listing, section),
    ensures
        section.2.len() == 0,
        section_pages(n, section.2) == Seq::<PageView>::empty(),
        section_html(n, section) == "<li>\n"@ + "<h4>"@ + section.1 + "</h4>\n"@ + "</li>\n"@,
{
    lemma_no_lessons(listing.files@);
    vstd::seq_lib::to_multiset_len(section.2);
    vstd::seq_lib::to_multiset_len(lessons_of(listing.files@));
    assert(links_html(n, section.2) == Seq::<char>::empty());
    assert(section_html(n, section) =~= "<li>\n"@ + "<h4>"@ + section.1 + "</h4>\n"@ + "</li>\n"@);
}

proof fn lemma_no_lessons(files: Seq<FileEntry>)
    requires
        forall|k: int| 0 <= k < files.len() ==> (#[trigger] markdown_stem_spec(files[k].file_name@)) is None,
    ensures
        lessons_of(files) == Seq::<LessonView>::empty(),
    decreases files.len(),
{
    if files.len() > 0 {
        assert(markdown_stem_spec(files[files.len() - 1].file_name@) is None);
        lemma_no_lessons(files.drop_last());
    }
}

} // verus!
