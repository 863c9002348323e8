//! The outline of a lesson site: sections, each holding numbered lessons,
//! built from what the sections' directories list.
use vstd::prelude::*;
use vstd::multiset::*;
use crate::naming::{
    MARKDOWN_SUFFIX, MAX_ORDINAL, digits_value, is_digit, lemma_split_numbered, markdown_stem,
    markdown_stem_spec, split_ordinal, split_ordinal_spec, split_prefix, split_prefix_spec,
    fitting_u64, lemma_split_prefixed,
};
use crate::ordering::{
    Keyed, key_determines_item, key_fn, lemma_sorted_unique, lemma_stable_unique, sort_by_key, sorted_by, views, with_key,
};

verus! {

broadcast use {vstd::seq_lib::group_to_multiset_ensures, group_multiset_axioms};

/// One file entry of a section directory: its file name and its path.
#[derive(Debug, Clone, PartialEq, Eq)]
pub struct FileEntry {
    pub file_name: String,
    pub path: String,
}

/// A section directory as listed: its name and its file entries.
#[derive(Debug, Clone, PartialEq, Eq)]
pub struct SectionListing {
    pub dir_name: String,
    pub files: Vec<FileEntry>,
}

/// One lesson: the ordinal and the name read from its file name, and the
/// path of its markdown source.
#[derive(Debug, Clone, PartialEq, Eq)]
pub struct Subsection {
    pub index: u16,
    pub name: String,
    pub path: String,
}

/// A section: the ordinal read from its directory name, if it has one that
/// fits in a `u64`, its display name (the directory name without a numeric
/// prefix), and its lessons in ascending order of index.
#[derive(Debug, Clone, PartialEq, Eq)]
pub struct Section {
    pub ordinal: Option<u64>,
    pub name: String,
    pub subsections: Vec<Subsection>,
}

/// A lesson file name that does not carry the `<ordinal>_<name>` form.
#[derive(Debug, Clone, PartialEq, Eq)]
pub enum OutlineError {
    /// A markdown file whose stem has no numeric prefix.
    UnnumberedLesson { file_name: String },
}

/// A lesson as index, name and path.
pub type LessonView = (u16, Seq<char>, Seq<char>);

/// A section as ordinal, display name and lessons.
pub type SectionView = (Option<u64>, Seq<char>, Seq<LessonView>);

/// Where a section sorts: by its ordinal; a section without one (no numeric
/// prefix, or a number past `u64::MAX`) after all others.
pub open spec fn section_rank(ordinal: Option<u64>) -> int {
    match ordinal {
        Some(o) => o as int,
        None => u64::MAX as int + 1,
    }
}

impl View for Subsection {
    type V = LessonView;

    open spec fn view(&self) -> LessonView {
        (self.index, self.name@, self.path@)
    }
}

impl View for Section {
    type V = SectionView;

    open spec fn view(&self) -> SectionView {
        (self.ordinal, self.name@, lesson_views(self.subsections@))
    }
}

impl Keyed for Subsection {
    open spec fn key_of(v: LessonView) -> int {
        v.0 as int
    }

    fn key(&self) -> (r: u128) {
        self.index as u128
    }
}

impl Keyed for Section {
    open spec fn key_of(v: SectionView) -> int {
        section_rank(v.0)
    }

    fn key(&self) -> (r: u128) {
        match self.ordinal {
            Some(o) => o as u128,
            None => u64::MAX as u128 + 1,
        }
    }
}

/// The views of a list of lessons.
pub open spec fn lesson_views(s: Seq<Subsection>) -> Seq<LessonView> {
    views(s)
}

/// The views of a list of sections.
pub open spec fn section_views(s: Seq<Section>) -> Seq<SectionView> {
    views(s)
}

/// A file name that is either not markdown or a numbered markdown name.
pub open spec fn lesson_name_ok(file_name: Seq<char>) -> bool {
    match markdown_stem_spec(file_name) {
        Some(stem) => split_ordinal_spec(stem) is Some,
        None => true,
    }
}

/// The lesson that one entry gives, if it is a well-named markdown file.
pub open spec fn entry_lesson(e: FileEntry) -> Option<LessonView> {
    match markdown_stem_spec(e.file_name@) {
        Some(stem) => match split_ordinal_spec(stem) {
            Some((index, name)) => Some((index, name, e.path@)),
            None => None,
        },
        None => None,
    }
}

/// The lessons that a list of entries gives, in the entries' order.
pub open spec fn lessons_of(entries: Seq<FileEntry>) -> Seq<LessonView>
    decreases entries.len(),
{
    if entries.len() == 0 {
        Seq::empty()
    } else {
        let prev = lessons_of(entries.drop_last());
        match entry_lesson(entries.last()) {
            Some(l) => prev.push(l),
            None => prev,
        }
    }
}

/// A listing whose markdown files are all numbered.
pub open spec fn listing_ok(l: SectionListing) -> bool {
    forall|k: int| 0 <= k < l.files@.len() ==> lesson_name_ok(#[trigger] l.files@[k].file_name@)
}

/// The lessons of a list ordered by index, lessons of equal index in the
/// list's order.
pub open spec fn lessons_ordered(lessons: Seq<LessonView>, listed: Seq<LessonView>) -> bool {
    &&& sorted_by(lessons, lesson_key())
    &&& lessons.to_multiset() == listed.to_multiset()
    &&& forall|k: int| #[trigger] with_key(lessons, lesson_key(), k) == with_key(listed, lesson_key(), k)
}

/// `v` is the section that listing `l` describes: a directory named
/// `<digits>_<name>` gives `<name>`, and the number `<digits>` writes as the
/// ordinal where it fits in a `u64`; any other directory name is the display
/// name as it stands, with no ordinal. Its lessons are those of the entries,
/// ordered by index.
pub open spec fn section_built(l: SectionListing, v: SectionView) -> bool {
    &&& match split_prefix_spec(l.dir_name@) {
        Some((number, name)) => v.0 == fitting_u64(number) && v.1 == name,
        None => v.0 is None && v.1 == l.dir_name@,
    }
    &&& lessons_ordered(v.2, lessons_of(l.files@))
}

/// `built` holds, listing by listing, the section that each describes.
pub open spec fn built_from(listings: Seq<SectionListing>, built: Seq<SectionView>) -> bool {
    &&& built.len() == listings.len()
    &&& forall|k: int| 0 <= k < listings.len() ==> section_built(#[trigger] listings[k], built[k])
}

/// `sections` is an outline of `listings`: the section of each listing once,
/// in ascending order of ordinal, unnumbered sections last; sections of equal
/// rank in the listings' order.
pub open spec fn outline_of(listings: Seq<SectionListing>, sections: Seq<SectionView>) -> bool {
    &&& sorted_by(sections, section_key())
    &&& exists|built: Seq<SectionView>| #[trigger] built_from(listings, built) && arranges(built, sections)
}

/// `sections` holds the sections of `built`, each as often, and those of
/// equal rank in the same order.
pub open spec fn arranges(built: Seq<SectionView>, sections: Seq<SectionView>) -> bool {
    &&& built.to_multiset() == sections.to_multiset()
    &&& forall|k: int| #[trigger] with_key(sections, section_key(), k) == with_key(built, section_key(), k)
}

/// `e` names a part of listing `l` that is not numbered.
pub open spec fn error_of(l: SectionListing, e: OutlineError) -> bool {
    match e {
        OutlineError::UnnumberedLesson { file_name } => {
            &&& !lesson_name_ok(file_name@)
            &&& exists|k: int| 0 <= k < l.files@.len() && #[trigger] l.files@[k].file_name@ == file_name@
        },
    }
}

/// The lesson that one directory entry gives: `Ok(None)` for a file that is
/// not markdown, an error for a markdown file without a numeric prefix.
pub fn lesson_from_entry(entry: &FileEntry) -> (r: Result<Option<Subsection>, OutlineError>)
    ensures
        r is Ok <==> lesson_name_ok(entry.file_name@),
        r matches Ok(o) ==> match o {
            Some(s) => entry_lesson(*entry) == Some(s@),
            None => entry_lesson(*entry) is None,
        },
        r matches Err(e) ==> e matches OutlineError::UnnumberedLesson { file_name }
            && file_name@ == entry.file_name@,
{
    match markdown_stem(&entry.file_name) {
        None => Ok(None),
        Some(stem) => match split_ordinal(stem.as_str()) {
            Some((index, name)) => Ok(Some(Subsection { index, name, path: entry.path.clone() })),
            None => Err(OutlineError::UnnumberedLesson { file_name: entry.file_name.clone() }),
        },
    }
}

/// Builds the section that one listing describes, or names a markdown file
/// of it that is not numbered.
pub fn populate_section(listing: &SectionListing) -> (r: Result<Section, OutlineError>)
    ensures
        r is Ok <==> listing_ok(*listing),
        r matches Ok(s) ==> section_built(*listing, s@),
        r matches Err(e) ==> error_of(*listing, e),
{
    let (ordinal, name) = match split_prefix(listing.dir_name.as_str()) {
        Some((ordinal, name)) => (ordinal, name),
        None => (None, listing.dir_name.clone()),
    };
    let files = &listing.files;
    let mut kept: Vec<Subsection> = Vec::new();
    let mut k: usize = 0;
    while k < files.len()
        invariant
            k <= files@.len(),
            files == &listing.files,
            match split_prefix_spec(listing.dir_name@) {
                Some((v, n)) => ordinal == fitting_u64(v) && name@ == n,
                None => ordinal is None && name@ == listing.dir_name@,
            },
            lesson_views(kept@) == lessons_of(files@.subrange(0, k as int)),
            forall|j: int| 0 <= j < k ==> lesson_name_ok(#[trigger] files@[j].file_name@),
        decreases files@.len() - k,
    {
        assert(files@.subrange(0, k + 1).drop_last() =~= files@.subrange(0, k as int));
        match lesson_from_entry(&files[k]) {
            Err(e) => {
                assert(lesson_name_ok(listing.files@[k as int].file_name@) == false);
                return Err(e);
            },
            Ok(None) => {},
            Ok(Some(sub)) => {
                let ghost before = kept@;
                kept.push(sub);
                assert(lesson_views(kept@) =~= lesson_views(before).push(sub@));
            },
        }
        k = k + 1;
    }
    assert(files@.subrange(0, k as int) =~= files@);
    let subsections = sort_by_key(kept);
    Ok(Section { ordinal, name, subsections })
}

/// Builds the outline: one section per listing, in ascending order of
/// ordinal with unnumbered sections last, or names a markdown file that is
/// not numbered.
pub fn populate_sections(listings: &Vec<SectionListing>) -> (r: Result<Vec<Section>, OutlineError>)
    ensures
        r is Ok <==> forall|k: int| 0 <= k < listings@.len() ==> listing_ok(#[trigger] listings@[k]),
        r matches Ok(sections) ==> outline_of(listings@, section_views(sections@)),
        r matches Err(e) ==> exists|k: int| 0 <= k < listings@.len() && error_of(#[trigger] listings@[k], e),
{
    let mut built: Vec<Section> = Vec::new();
    let mut k: usize = 0;
    while k < listings.len()
        invariant
            k <= listings@.len(),
            built@.len() == k,
            forall|j: int| 0 <= j < k ==> listing_ok(#[trigger] listings@[j]),
            forall|j: int| 0 <= j < k ==> section_built(#[trigger] listings@[j], built@[j]@),
        decreases listings@.len() - k,
    {
        match populate_section(&listings[k]) {
            Ok(section) => {
                built.push(section);
            },
            Err(e) => {
                assert(error_of(listings@[k as int], e));
                return Err(e);
            },
        }
        k = k + 1;
    }
    let ghost unsorted = section_views(built@);
    let sections = sort_by_key(built);
    assert(built_from(listings@, unsorted));
    assert(arranges(unsorted, section_views(sections@)));
    Ok(sections)
}

/// A section directory named `<digits>_<name>` has `<name>` as its display
/// name, unchanged, whatever the size of the number; the number is its
/// ordinal where it fits in a `u64`.
pub proof fn lemma_section_display_name(
    listing: SectionListing,
    section: SectionView,
    digits: Seq<char>,
    name: Seq<char>,
)
    requires
        listing.dir_name@ == digits + seq!['_'] + name,
        digits.len() > 0,
        forall|i: int| 0 <= i < digits.len() ==> is_digit(#[trigger] digits[i]),
        section_built(listing, section),
    ensures
        section.1 == name,
        section.0 == fitting_u64(digits_value(digits)),
{
    lemma_split_prefixed(digits, name);
}

/// A section directory whose name has no numeric prefix keeps its name as
/// it stands and has no ordinal.
pub proof fn lemma_unnumbered_section_name(listing: SectionListing, section: SectionView)
    requires
        split_prefix_spec(listing.dir_name@) is None,
        section_built(listing, section),
    ensures
        section.1 == listing.dir_name@,
        section.0 is None,
{
}

/// A lesson file named `<digits>_<name>.md` is kept, with the number that
/// `<digits>` writes as its index and `<name>` as its name.
pub proof fn lemma_lesson_file_name(entry: FileEntry, digits: Seq<char>, name: Seq<char>)
    requires
        entry.file_name@ == digits + seq!['_'] + name + seq!['.', 'm', 'd'],
        digits.len() > 0,
        forall|i: int| 0 <= i < digits.len() ==> is_digit(#[trigger] digits[i]),
        digits_value(digits) <= MAX_ORDINAL,
    ensures
        lesson_name_ok(entry.file_name@),
        entry_lesson(entry) == Some((digits_value(digits) as u16, name, entry.path@)),
{
    let stem = digits + seq!['_'] + name;
    let f = entry.file_name@;
    reveal_strlit(".md");
    assert(f.subrange(f.len() - 3, f.len() as int) =~= MARKDOWN_SUFFIX@);
    assert(f.subrange(0, f.len() - 3) =~= stem);
    lemma_split_numbered(digits, name);
}

/// The lesson key: its index.
pub open spec fn lesson_key() -> spec_fn(LessonView) -> int {
    key_fn::<Subsection>()
}

/// The section key: its rank.
pub open spec fn section_key() -> spec_fn(SectionView) -> int {
    key_fn::<Section>()
}

/// No two lessons of `s` share an index.
pub open spec fn distinct_indices(s: Seq<LessonView>) -> bool {
    forall|i: int, j: int| 0 <= i < s.len() && 0 <= j < s.len() && i != j ==> #[trigger] s[i].0 != #[trigger] s[j].0
}

/// Ordering lessons by index gives one sequence whatever order they were
/// listed in, when no two of them share an index.
pub proof fn lemma_lesson_order_independent(
    listed: Seq<LessonView>,
    relisted: Seq<LessonView>,
    ordered: Seq<LessonView>,
    reordered: Seq<LessonView>,
)
    requires
        relisted.to_multiset() == listed.to_multiset(),
        distinct_indices(listed),
        sorted_by(ordered, lesson_key()),
        ordered.to_multiset() == listed.to_multiset(),
        sorted_by(reordered, lesson_key()),
        reordered.to_multiset() == relisted.to_multiset(),
    ensures
        ordered == reordered,
{
    assert(key_determines_item(listed, lesson_key()));
    crate::ordering::lemma_key_determines_item_permuted(ordered, listed, lesson_key());
    lemma_sorted_unique(ordered, reordered, lesson_key());
}


/// The lessons that one entry gives: none, or one.
pub open spec fn entry_lessons(e: FileEntry) -> Seq<LessonView> {
    match entry_lesson(e) {
        Some(l) => seq![l],
        None => Seq::empty(),
    }
}

proof fn lemma_lessons_of_concat(a: Seq<FileEntry>, b: Seq<FileEntry>)
    ensures
        lessons_of(a + b) == lessons_of(a) + lessons_of(b),
    decreases b.len(),
{
    if b.len() == 0 {
        assert(a + b =~= a);
        assert(lessons_of(a) + lessons_of(b) =~= lessons_of(a));
    } else {
        lemma_lessons_of_concat(a, b.drop_last());
        assert((a + b).drop_last() =~= a + b.drop_last());
        assert((a + b).last() == b.last());
        match entry_lesson(b.last()) {
            Some(l) => {
                assert((lessons_of(a) + lessons_of(b.drop_last())).push(l) =~= lessons_of(a)
                    + lessons_of(b.drop_last()).push(l));
            },
            None => {},
        }
    }
}

proof fn lemma_lessons_of_one(e: FileEntry)
    ensures
        lessons_of(seq![e]) == entry_lessons(e),
{
    let one = seq![e];
    assert(one.drop_last() =~= Seq::<FileEntry>::empty());
    assert(one.last() == e);
    assert(lessons_of(one.drop_last()) == Seq::<LessonView>::empty());
    match entry_lesson(e) {
        Some(l) => {
            assert(Seq::<LessonView>::empty().push(l) =~= seq![l]);
        },
        None => {},
    }
}

/// Entries listed in another order give the same lessons, counted with
/// their multiplicity.
proof fn lemma_lessons_of_permuted(first: Seq<FileEntry>, second: Seq<FileEntry>)
    requires
        first.to_multiset() == second.to_multiset(),
    ensures
        lessons_of(first).to_multiset() == lessons_of(second).to_multiset(),
    decreases first.len(),
{
    vstd::seq_lib::to_multiset_len(first);
    vstd::seq_lib::to_multiset_len(second);
    if first.len() == 0 {
        assert(second =~= first);
    } else {
        let e = first.last();
        let init = first.drop_last();
        assert(first =~= init.push(e));
        assert(first.contains(e));
        assert(second.to_multiset().count(e) > 0);
        let j = choose|j: int| 0 <= j < second.len() && second[j] == e;
        let rest = second.remove(j);
        assert(init.to_multiset() =~= first.to_multiset().remove(e));
        assert(rest.to_multiset() == second.to_multiset().remove(e));
        lemma_lessons_of_permuted(init, rest);
        let before = second.subrange(0, j);
        let after = second.subrange(j + 1, second.len() as int);
        assert(second =~= before + seq![e] + after);
        assert(rest =~= before + after);
        lemma_lessons_of_concat(before + seq![e], after);
        lemma_lessons_of_concat(before, seq![e]);
        lemma_lessons_of_concat(before, after);
        lemma_lessons_of_concat(init, seq![e]);
        lemma_lessons_of_one(e);
        vstd::seq_lib::lemma_multiset_commutative(lessons_of(before) + entry_lessons(e), lessons_of(after));
        vstd::seq_lib::lemma_multiset_commutative(lessons_of(before), entry_lessons(e));
        vstd::seq_lib::lemma_multiset_commutative(lessons_of(before), lessons_of(after));
        vstd::seq_lib::lemma_multiset_commutative(lessons_of(init), entry_lessons(e));
        assert(lessons_of(first).to_multiset() =~= lessons_of(second).to_multiset());
    }
}

/// A section directory gives the same section whatever order its files are
/// listed in, when no two of its lessons share an index.
pub proof fn lemma_section_order_independent(
    first: SectionListing,
    second: SectionListing,
    from_first: SectionView,
    from_second: SectionView,
)
    requires
        second.dir_name@ == first.dir_name@,
        second.files@.to_multiset() == first.files@.to_multiset(),
        distinct_indices(lessons_of(first.files@)),
        section_built(first, from_first),
        section_built(second, from_second),
    ensures
        from_first == from_second,
{
    lemma_lessons_of_permuted(second.files@, first.files@);
    lemma_lesson_order_independent(
        lessons_of(first.files@),
        lessons_of(second.files@),
        from_first.2,
        from_second.2,
    );
}


/// Listing the files of every section in another order gives the same
/// outline, when no two lessons of a section share an index.
pub proof fn lemma_outline_order_independent(
    first: Seq<SectionListing>,
    second: Seq<SectionListing>,
    from_first: Seq<SectionView>,
    from_second: Seq<SectionView>,
)
    requires
        second.len() == first.len(),
        forall|k: int| 0 <= k < first.len() ==> (#[trigger] second[k]).dir_name@ == first[k].dir_name@,
        forall|k: int| 0 <= k < first.len() ==> (#[trigger] second[k]).files@.to_multiset() == first[k].files@.to_multiset(),
        forall|k: int| 0 <= k < first.len() ==> distinct_indices(lessons_of(#[trigger] first[k].files@)),
        outline_of(first, from_first),
        outline_of(second, from_second),
    ensures
        from_first == from_second,
{
    let b1 = choose|b: Seq<SectionView>| #[trigger] built_from(first, b) && arranges(b, from_first);
    let b2 = choose|b: Seq<SectionView>| #[trigger] built_from(second, b) && arranges(b, from_second);
    assert forall|k: int| 0 <= k < b1.len() implies b1[k] == b2[k] by {
        assert(section_built(first[k], b1[k]));
        assert(section_built(second[k], b2[k]));
        assert(second[k].dir_name@ == first[k].dir_name@);
        assert(second[k].files@.to_multiset() == first[k].files@.to_multiset());
        assert(distinct_indices(lessons_of(first[k].files@)));
        lemma_section_order_independent(first[k], second[k], b1[k], b2[k]);
    }
    assert(b1 =~= b2);
    assert forall|i: int| #[trigger] with_key(from_first, section_key(), i) == with_key(from_second, section_key(), i) by {
        assert(with_key(from_first, section_key(), i) == with_key(b1, section_key(), i));
        assert(with_key(from_second, section_key(), i) == with_key(b2, section_key(), i));
    }
    lemma_stable_unique(from_first, from_second, section_key());
}


} // verus!
