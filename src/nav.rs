//! The sidebar shared by every page: one list item per section, one link per
//! lesson, numbered from one in outline order.
use vstd::prelude::*;
use vstd::string::StringExecFns;
use crate::naming::{decimal, push_decimal};
use crate::outline::{LessonView, Section, SectionView, lesson_views, section_views};

verus! {

pub const NAV_OPEN: &'static str = "<nav id=\"sidebar-nav\">\n<ol class=\"lesson-links\">";

pub const NAV_CLOSE: &'static str = "</ol>\n</nav>\n";

/// The link to lesson `m` of section `n`, labelled with the lesson's name.
pub open spec fn link_html(n: nat, m: nat, name: Seq<char>) -> Seq<char> {
    "\t<a class=\"subsection\" href=\"/"@ + decimal(n) + "."@ + decimal(m) + "\">"@ + name
        + "</a>\n"@
}

/// The links to the lessons of section `n`, numbered from one.
pub open spec fn links_html(n: nat, lessons: Seq<LessonView>) -> Seq<char>
    decreases lessons.len(),
{
    if lessons.len() == 0 {
        Seq::empty()
    } else {
        links_html(n, lessons.drop_last()) + link_html(n, lessons.len(), lessons.last().1)
    }
}

/// The list item of section `n`: a heading with its name, then its links.
pub open spec fn section_html(n: nat, section: SectionView) -> Seq<char> {
    "<li>\n"@ + "<h4>"@ + section.1 + "</h4>\n"@ + links_html(n, section.2) + "</li>\n"@
}

/// The list items of all sections, numbered from one.
pub open spec fn sections_html(sections: Seq<SectionView>) -> Seq<char>
    decreases sections.len(),
{
    if sections.len() == 0 {
        Seq::empty()
    } else {
        sections_html(sections.drop_last()) + section_html(sections.len(), sections.last())
    }
}

/// The sidebar of an outline.
pub open spec fn sidebar_html(sections: Seq<SectionView>) -> Seq<char> {
    NAV_OPEN@ + sections_html(sections) + NAV_CLOSE@
}

/// Renders the sidebar of an outline.
pub fn build_sidebar(sections: &Vec<Section>) -> (r: String)
    ensures
        r@ == sidebar_html(section_views(sections@)),
{
    let ghost views = section_views(sections@);
    let mut buf = String::from_str(NAV_OPEN);
    let n = sections.len();
    let mut i: usize = 0;
    while i < n
        invariant
            n == sections@.len(),
            i <= sections@.len(),
            views == section_views(sections@),
            buf@ == NAV_OPEN@ + sections_html(views.subrange(0, i as int)),
        decreases sections@.len() - i,
    {
        let section = &sections[i];
        let ghost start = buf@;
        let ghost lessons = lesson_views(section.subsections@);
        buf.append("<li>\n");
        buf.append("<h4>");
        buf.append(section.name.as_str());
        buf.append("</h4>\n");
        let mut j: usize = 0;
        while j < section.subsections.len()
            invariant
                i < n,
                n == sections@.len(),
                section == &sections@[i as int],
                lessons == lesson_views(section.subsections@),
                j <= lessons.len(),
                buf@ == start + "<li>\n"@ + "<h4>"@ + section.name@ + "</h4>\n"@ + links_html(
                    (i + 1) as nat,
                    lessons.subrange(0, j as int),
                ),
            decreases lessons.len() - j,
        {
            let lesson = &section.subsections[j];
            buf.append("\t<a class=\"subsection\" href=\"/");
            push_decimal(&mut buf, (i + 1) as u64);
            buf.append(".");
            push_decimal(&mut buf, (j + 1) as u64);
            buf.append("\">");
            buf.append(lesson.name.as_str());
            buf.append("</a>\n");
            assert(lessons.subrange(0, j + 1).drop_last() =~= lessons.subrange(0, j as int));
            assert(buf@ =~= start + "<li>\n"@ + "<h4>"@ + section.name@ + "</h4>\n"@ + links_html(
                (i + 1) as nat,
                lessons.subrange(0, j + 1),
            ));
            j = j + 1;
        }
        buf.append("</li>\n");
        assert(lessons.subrange(0, j as int) =~= lessons);
        assert(views.subrange(0, i + 1).drop_last() =~= views.subrange(0, i as int));
        assert(buf@ =~= NAV_OPEN@ + sections_html(views.subrange(0, i + 1)));
        i = i + 1;
    }
    buf.append(NAV_CLOSE);
    assert(views.subrange(0, i as int) =~= views);
    buf
}

/// The names of a section's lessons, in order.
pub open spec fn lesson_names(lessons: Seq<LessonView>) -> Seq<Seq<char>> {
    lessons.map_values(|l: LessonView| l.1)
}

/// Each section's display name with the names of its lessons, in order.
pub open spec fn outline_names(sections: Seq<SectionView>) -> Seq<(Seq<char>, Seq<Seq<char>>)> {
    sections.map_values(|s: SectionView| (s.1, lesson_names(s.2)))
}

proof fn lemma_links_by_names(n: nat, a: Seq<LessonView>, b: Seq<LessonView>)
    requires
        lesson_names(a) == lesson_names(b),
    ensures
        links_html(n, a) == links_html(n, b),
    decreases a.len(),
{
    assert(a.len() == lesson_names(a).len());
    if a.len() > 0 {
        assert(lesson_names(a.drop_last()) =~= lesson_names(a).drop_last());
        assert(lesson_names(b.drop_last()) =~= lesson_names(b).drop_last());
        assert(lesson_names(a)[a.len() - 1] == a.last().1);
        assert(lesson_names(b)[b.len() - 1] == b.last().1);
        lemma_links_by_names(n, a.drop_last(), b.drop_last());
    }
}

proof fn lemma_sections_by_names(a: Seq<SectionView>, b: Seq<SectionView>)
    requires
        outline_names(a) == outline_names(b),
    ensures
        sections_html(a) == sections_html(b),
    decreases a.len(),
{
    assert(a.len() == outline_names(a).len());
    if a.len() > 0 {
        assert(outline_names(a.drop_last()) =~= outline_names(a).drop_last());
        assert(outline_names(b.drop_last()) =~= outline_names(b).drop_last());
        assert(outline_names(a)[a.len() - 1] == (a.last().1, lesson_names(a.last().2)));
        assert(outline_names(b)[b.len() - 1] == (b.last().1, lesson_names(b.last().2)));
        lemma_links_by_names(a.len(), a.last().2, b.last().2);
        lemma_sections_by_names(a.drop_last(), b.drop_last());
    }
}

/// The sidebar depends only on the section names and lesson names, in
/// order: two outlines that agree on those get the same sidebar, character
/// for character.
pub proof fn lemma_sidebar_deterministic(first: Seq<SectionView>, second: Seq<SectionView>)
    requires
        outline_names(first) == outline_names(second),
    ensures
        sidebar_html(first) == sidebar_html(second),
{
    lemma_sections_by_names(first, second);
}

} // verus!
