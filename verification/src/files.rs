use globset::{Error as GlobsetError, Glob, GlobSet, GlobSetBuilder};
use vstd::prelude::*;
use vstd::string::StrSliceExecFns;

use crate::text::{str_equals, string_views};

verus! {

/// A set of globs of the `globset` crate.
#[verifier::external_type_specification]
#[verifier::external_body]
pub struct ExGlobSet(GlobSet);

/// A builder of a set of globs of the `globset` crate.
#[verifier::external_type_specification]
#[verifier::external_body]
pub struct ExGlobSetBuilder(GlobSetBuilder);

/// The error of the `globset` crate.
#[verifier::external_type_specification]
#[verifier::external_body]
pub struct ExGlobError(GlobsetError);

/// The patterns of the globs that a set holds, in the order they were added.
pub uninterp spec fn globset_patterns(set: GlobSet) -> Seq<Seq<char>>;

/// The patterns of the globs added to a builder, in order.
pub uninterp spec fn builder_patterns(builder: GlobSetBuilder) -> Seq<Seq<char>>;

/// Whether `globset::Glob::new` accepts `pattern`.
pub uninterp spec fn glob_parses(pattern: Seq<char>) -> bool;

/// Whether the glob of `pattern` matches `path`.
pub uninterp spec fn glob_matches(pattern: Seq<char>, path: Seq<char>) -> bool;

/// Whether `GlobSetBuilder::build` succeeds on the globs of `patterns`.
pub uninterp spec fn globset_builds(patterns: Seq<Seq<char>>) -> bool;

/// Whether one of `patterns` matches `path`.
pub open spec fn matches_any(patterns: Seq<Seq<char>>, path: Seq<char>) -> bool {
    exists|i: int| 0 <= i < patterns.len() && #[trigger] glob_matches(patterns[i], path)
}

/// A new, empty builder (`GlobSetBuilder::new`).
#[verifier::external_body]
pub(crate) fn new_builder() -> (r: GlobSetBuilder)
    ensures
        builder_patterns(r) == Seq::<Seq<char>>::empty(),
{
    GlobSetBuilder::new()
}

/// Parses `pattern` as a glob (`Glob::new`) and, when it parses, adds it to
/// the builder (`GlobSetBuilder::add`). Returns whether it was added.
#[verifier::external_body]
pub(crate) fn builder_add(builder: &mut GlobSetBuilder, pattern: &str) -> (added: bool)
    ensures
        added == glob_parses(pattern@),
        builder_patterns(*final(builder)) == if added {
            builder_patterns(*old(builder)).push(pattern@)
        } else {
            builder_patterns(*old(builder))
        },
{
    match Glob::new(pattern) {
        Ok(glob) => {
            builder.add(glob);
            true
        },
        Err(_) => false,
    }
}

/// Builds the set of the globs added to `builder` (`GlobSetBuilder::build`).
/// Whether it succeeds depends on the patterns alone; the set holds the
/// builder's globs.
#[verifier::external_body]
pub(crate) fn build_set(builder: &GlobSetBuilder) -> (r: Result<GlobSet, GlobsetError>)
    ensures
        r is Ok <==> globset_builds(builder_patterns(*builder)),
        r matches Ok(set) ==> globset_patterns(set) == builder_patterns(*builder),
{
    builder.build()
}

/// The empty set, which matches nothing (`GlobSet::empty`).
#[verifier::external_body]
pub(crate) fn empty_set() -> (r: GlobSet)
    ensures
        globset_patterns(r) == Seq::<Seq<char>>::empty(),
{
    GlobSet::empty()
}

/// Whether the set holds no glob (`GlobSet::is_empty`).
#[verifier::external_body]
pub(crate) fn set_is_empty(set: &GlobSet) -> (r: bool)
    ensures
        r == (globset_patterns(*set).len() == 0),
{
    set.is_empty()
}

/// Whether a glob of the set matches `path` (`GlobSet::is_match`).
#[verifier::external_body]
pub(crate) fn set_is_match(set: &GlobSet, path: &str) -> (r: bool)
    ensures
        r == (exists|i: int|
            0 <= i < globset_patterns(*set).len() && #[trigger] glob_matches(
                globset_patterns(*set)[i],
                path@,
            )),
{
    set.is_match(path)
}

/// The patterns of `elems` that go into a set: the non-empty ones that
/// parse as globs, in order.
pub open spec fn accepted_patterns(elems: Seq<Seq<char>>) -> Seq<Seq<char>>
    decreases elems.len(),
{
    if elems.len() == 0 {
        Seq::empty()
    } else {
        let prev = accepted_patterns(elems.drop_last());
        let e = elems.last();
        if e.len() > 0 && glob_parses(e) {
            prev.push(e)
        } else {
            prev
        }
    }
}

/// The patterns of the set made of `elems`: the accepted patterns, or none
/// when there are no elements or the set cannot be built.
pub open spec fn globset_of(elems: Seq<Seq<char>>) -> Seq<Seq<char>> {
    if elems.len() == 0 || !globset_builds(accepted_patterns(elems)) {
        Seq::empty()
    } else {
        accepted_patterns(elems)
    }
}

/// Makes a set of globs from patterns: empty patterns and patterns that do
/// not parse are skipped, and a set that cannot be built is empty.
pub fn mk_globset(elems: &[String]) -> (r: GlobSet)
    ensures
        globset_patterns(r) == globset_of(string_views(elems@)),
{
    if elems.len() == 0 {
        return empty_set();
    }
    let ghost es = string_views(elems@);
    let mut builder = new_builder();
    let mut i: usize = 0;
    while i < elems.len()
        invariant
            i <= elems@.len(),
            es == string_views(elems@),
            builder_patterns(builder) == accepted_patterns(es.take(i as int)),
        decreases elems@.len() - i,
    {
        let e = elems[i].as_str();
        assert(es.take(i + 1).drop_last() =~= es.take(i as int));
        assert(es[i as int] == e@);
        if !e.is_empty() {
            builder_add(&mut builder, e);
        }
        i = i + 1;
    }
    assert(es.take(elems@.len() as int) =~= es);
    match build_set(&builder) {
        Ok(set) => set,
        Err(_) => empty_set(),
    }
}

/// Whether a directory entry is hidden: its name, when it is valid
/// UTF-8, starts with a dot and is neither `.` nor `..` (which name the
/// directory being walked or its parent, not a hidden entry).
pub open spec fn hidden(file_name: Option<Seq<char>>) -> bool {
    match file_name {
        Some(name) => name.len() > 0 && name[0] == '.' && name != "."@ && name != ".."@,
        None => false,
    }
}

/// Whether a directory entry is hidden; `file_name` is `None` when the
/// name is not valid UTF-8.
pub fn is_hidden(file_name: Option<&str>) -> (r: bool)
    ensures
        r == hidden(
            match file_name {
                Some(s) => Some(s@),
                None => None,
            },
        ),
{
    match file_name {
        Some(name) => !name.is_empty() && name.get_char(0) == '.' && !str_equals(name, ".")
            && !str_equals(name, ".."),
        None => false,
    }
}

/// Whether the walk of a directory enters an entry found at `depth` (0 for
/// the path the walk starts from) whose name is `file_name`: the starting
/// path always, any other entry unless it is hidden.
pub fn walk_enters(depth: usize, file_name: Option<&str>) -> (r: bool)
    ensures
        r == (depth == 0 || !hidden(
            match file_name {
                Some(s) => Some(s@),
                None => None,
            },
        )),
{
    depth == 0 || !is_hidden(file_name)
}

/// Each pattern of a set made by `mk_globset` is non-empty and parses as
/// a glob.
pub proof fn lemma_globset_patterns_valid(elems: Seq<Seq<char>>)
    ensures
        forall|k: int|
            0 <= k < globset_of(elems).len() ==> (#[trigger] globset_of(elems)[k]).len() > 0
                && glob_parses(globset_of(elems)[k]),
{
    lemma_accepted_patterns_valid(elems);
}

/// Each non-empty pattern of `elems` that parses as a glob is accepted.
proof fn lemma_accepted_holds(elems: Seq<Seq<char>>, k: int)
    requires
        0 <= k < elems.len(),
        elems[k].len() > 0,
        glob_parses(elems[k]),
    ensures
        accepted_patterns(elems).contains(elems[k]),
    decreases elems.len(),
{
    let prev = accepted_patterns(elems.drop_last());
    let acc = accepted_patterns(elems);
    if k == elems.len() - 1 {
        assert(acc[prev.len() as int] == elems[k]);
    } else {
        assert(elems.drop_last()[k] == elems[k]);
        lemma_accepted_holds(elems.drop_last(), k);
        let j = choose|j: int| 0 <= j < prev.len() && prev[j] == elems[k];
        assert(acc[j] == prev[j]);
    }
}

/// Each accepted pattern is one of `elems`.
proof fn lemma_accepted_from(elems: Seq<Seq<char>>)
    ensures
        forall|j: int|
            0 <= j < accepted_patterns(elems).len() ==> elems.contains(
                #[trigger] accepted_patterns(elems)[j],
            ),
    decreases elems.len(),
{
    if elems.len() > 0 {
        let rest = elems.drop_last();
        lemma_accepted_from(rest);
        let prev = accepted_patterns(rest);
        let acc = accepted_patterns(elems);
        assert forall|j: int| 0 <= j < acc.len() implies elems.contains(#[trigger] acc[j]) by {
            if j < prev.len() {
                assert(acc[j] == prev[j]);
                let i = choose|i: int| 0 <= i < rest.len() && rest[i] == prev[j];
                assert(elems[i] == rest[i]);
            } else {
                assert(acc[j] == elems[elems.len() - 1]);
            }
        }
    }
}

/// The accepted patterns are the patterns of `elems` that are non-empty
/// and parse, in their order.
proof fn lemma_accepted_filter(elems: Seq<Seq<char>>)
    ensures
        accepted_patterns(elems) == elems.filter(|p: Seq<char>| p.len() > 0 && glob_parses(p)),
    decreases elems.len(),
{
    reveal(Seq::filter);
    if elems.len() > 0 {
        lemma_accepted_filter(elems.drop_last());
    }
}

/// A set of globs made from a list of patterns holds every non-empty
/// pattern of the list that parses as a glob, whenever the set can be built
/// from them, and in particular whenever it holds any pattern: a path that
/// one of these patterns matches, the set matches. The set holds no pattern
/// that is not in the list; it holds exactly these patterns, in their
/// order, whenever it holds any.
pub proof fn lemma_globset_holds_patterns(elems: Seq<Seq<char>>, path: Seq<char>)
    ensures
        globset_of(elems).len() > 0 ==> globset_of(elems) == elems.filter(
            |p: Seq<char>| p.len() > 0 && glob_parses(p),
        ),
        elems.len() > 0 && globset_builds(accepted_patterns(elems)) ==> globset_of(elems)
            == elems.filter(|p: Seq<char>| p.len() > 0 && glob_parses(p)),
        elems.len() > 0 && globset_builds(accepted_patterns(elems)) ==> forall|k: int|
            0 <= k < elems.len() && elems[k].len() > 0 && glob_parses(elems[k]) ==> globset_of(
                elems,
            ).contains(#[trigger] elems[k]),
        globset_of(elems).len() > 0 ==> forall|k: int|
            0 <= k < elems.len() && elems[k].len() > 0 && glob_parses(elems[k]) ==> globset_of(
                elems,
            ).contains(#[trigger] elems[k]),
        globset_of(elems).len() > 0 ==> forall|k: int|
            0 <= k < elems.len() && elems[k].len() > 0 && glob_parses(elems[k]) && glob_matches(
                #[trigger] elems[k],
                path,
            ) ==> matches_any(globset_of(elems), path),
        forall|j: int|
            0 <= j < globset_of(elems).len() ==> elems.contains(#[trigger] globset_of(elems)[j]),
{
    lemma_accepted_from(elems);
    lemma_accepted_filter(elems);
    assert forall|k: int|
        0 <= k < elems.len() && elems[k].len() > 0 && glob_parses(elems[k]) implies accepted_patterns(
            elems,
        ).contains(#[trigger] elems[k]) by {
        lemma_accepted_holds(elems, k);
    }
    if globset_of(elems).len() > 0 {
        let set = globset_of(elems);
        assert forall|k: int|
            0 <= k < elems.len() && elems[k].len() > 0 && glob_parses(elems[k]) && glob_matches(
                #[trigger] elems[k],
                path,
            ) implies matches_any(set, path) by {
            assert(set.contains(elems[k]));
            let j = choose|j: int| 0 <= j < set.len() && set[j] == elems[k];
            assert(glob_matches(set[j], path));
        }
    }
}

/// Each accepted pattern is non-empty and parses as a glob.
proof fn lemma_accepted_patterns_valid(elems: Seq<Seq<char>>)
    ensures
        forall|k: int|
            0 <= k < accepted_patterns(elems).len() ==> (#[trigger] accepted_patterns(elems)[k]).len()
                > 0 && glob_parses(accepted_patterns(elems)[k]),
    decreases elems.len(),
{
    if elems.len() > 0 {
        lemma_accepted_patterns_valid(elems.drop_last());
        let prev = accepted_patterns(elems.drop_last());
        let acc = accepted_patterns(elems);
        assert forall|k: int| 0 <= k < acc.len() implies (#[trigger] acc[k]).len() > 0 && glob_parses(
            acc[k],
        ) by {
            if k < prev.len() {
                assert(acc[k] == prev[k]);
            }
        }
    }
}

/// Whether a path is selected for analysis: it is a file, the included
/// patterns are empty or one matches it, and the exclude patterns are
/// empty or none matches it.
pub open spec fn selected(
    included: Seq<Seq<char>>,
    exclude: Seq<Seq<char>>,
    path: Seq<char>,
    is_file: bool,
) -> bool {
    &&& included.len() == 0 || matches_any(included, path)
    &&& exclude.len() == 0 || !matches_any(exclude, path)
    &&& is_file
}

/// Without include and exclude globs every file is analysed; a path that an
/// exclude glob matches never is; a path that no include glob matches never
/// is, when there are include globs.
pub proof fn lemma_selection(
    included: Seq<Seq<char>>,
    exclude: Seq<Seq<char>>,
    path: Seq<char>,
    is_file: bool,
)
    ensures
        selected(Seq::empty(), Seq::empty(), path, is_file) == is_file,
        (exists|i: int| 0 <= i < exclude.len() && #[trigger] glob_matches(exclude[i], path))
            ==> !selected(included, exclude, path, is_file),
        included.len() > 0 && (forall|i: int|
            0 <= i < included.len() ==> !#[trigger] glob_matches(included[i], path)) ==> !selected(
            included,
            exclude,
            path,
            is_file,
        ),
{
}

/// The accepted patterns of two lists one after the other are those of the
/// first, then those of the second.
proof fn lemma_accepted_concat(xs: Seq<Seq<char>>, ys: Seq<Seq<char>>)
    ensures
        accepted_patterns(xs + ys) == accepted_patterns(xs) + accepted_patterns(ys),
    decreases ys.len(),
{
    if ys.len() == 0 {
        assert(xs + ys =~= xs);
        assert(accepted_patterns(xs) + accepted_patterns(ys) =~= accepted_patterns(xs));
    } else {
        lemma_accepted_concat(xs, ys.drop_last());
        assert((xs + ys).drop_last() =~= xs + ys.drop_last());
        assert((xs + ys).last() == ys.last());
        let a = accepted_patterns(xs);
        let b = accepted_patterns(ys.drop_last());
        assert((a + b).push(ys.last()) =~= a + b.push(ys.last()));
    }
}

/// Adding exclude patterns never selects more files: a path that the
/// longer list of exclude patterns lets through, the shorter one lets
/// through too. This fails where the longer list cannot be built into a
/// set (the set is then empty and excludes nothing), so that set is taken
/// to build.
pub proof fn lemma_more_excludes_select_less(
    included: Seq<Seq<char>>,
    xs: Seq<Seq<char>>,
    ys: Seq<Seq<char>>,
    path: Seq<char>,
    is_file: bool,
)
    requires
        xs.len() + ys.len() > 0 ==> globset_builds(accepted_patterns(xs + ys)),
    ensures
        selected(included, globset_of(xs + ys), path, is_file) ==> selected(
            included,
            globset_of(xs),
            path,
            is_file,
        ),
{
    lemma_accepted_concat(xs, ys);
    if xs.len() > 0 {
        let a = accepted_patterns(xs);
        let b = accepted_patterns(ys);
        assert((xs + ys).len() > 0);
        if a.len() > 0 && matches_any(a, path) {
            let i = choose|i: int| 0 <= i < a.len() && #[trigger] glob_matches(a[i], path);
            assert((a + b)[i] == a[i]);
        }
    }
}

/// Whether the path `path`, which is a file when `is_file` holds, is
/// selected for analysis by the `included` and `exclude` sets.
pub fn file_selected(included: &GlobSet, exclude: &GlobSet, path: &str, is_file: bool) -> (r: bool)
    ensures
        r == selected(globset_patterns(*included), globset_patterns(*exclude), path@, is_file),
{
    (set_is_empty(included) || set_is_match(included, path)) && (set_is_empty(exclude)
        || !set_is_match(exclude, path)) && is_file
}

} // verus!
