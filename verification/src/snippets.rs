use vstd::prelude::*;

use crate::metrics::Complexity;
use crate::space::{
    function_spaces, function_spaces_of, guess_language_of, guessed_language, Language, Space,
};
use crate::text::{
    decode_source, decoded_source, lines_text, source_lines, split_lines, string_views,
    text_of_lines,
};
use vstd::utf8::encode_utf8;

verus! {

/// A snippet of complex code: the metric value and the lines of the space
/// that exceeded the threshold.
pub struct SnippetData {
    /// The value of the metric for the space.
    pub complexity: usize,
    /// First line of the snippet (1-based).
    pub start_line: usize,
    /// Last line of the snippet (1-based).
    pub end_line: usize,
    /// The lines of the snippet.
    pub text: String,
}

/// What a snippet holds, its text taken as characters.
pub ghost struct SnippetModel {
    pub complexity: usize,
    pub start_line: usize,
    pub end_line: usize,
    pub text: Seq<char>,
}

impl View for SnippetData {
    type V = SnippetModel;

    open spec fn view(&self) -> SnippetModel {
        SnippetModel {
            complexity: self.complexity,
            start_line: self.start_line,
            end_line: self.end_line,
            text: self.text@,
        }
    }
}

/// The views of a sequence of snippets.
pub open spec fn snippet_views(v: Seq<SnippetData>) -> Seq<SnippetModel> {
    v.map_values(|d: SnippetData| d@)
}

/// The snippets found for one metric.
pub struct ComplexitySnippets {
    /// The metric.
    pub complexity: Complexity,
    /// The snippets whose space exceeded the metric's threshold.
    pub snippets: Vec<SnippetData>,
}

impl View for ComplexitySnippets {
    type V = (Complexity, Seq<SnippetModel>);

    open spec fn view(&self) -> (Complexity, Seq<SnippetModel>) {
        (self.complexity, snippet_views(self.snippets@))
    }
}

/// The snippets of complex code found in one source file.
pub struct Snippets {
    /// The path of the source file.
    pub source_path: String,
    /// The language of the source file.
    pub language: Language,
    /// For each metric that found complex code, its snippets.
    pub snippets: Vec<ComplexitySnippets>,
}

/// What the snippets of a source file hold.
pub ghost struct SnippetsModel {
    pub source_path: Seq<char>,
    pub language: Language,
    pub snippets: Seq<(Complexity, Seq<SnippetModel>)>,
}

impl View for Snippets {
    type V = SnippetsModel;

    open spec fn view(&self) -> SnippetsModel {
        SnippetsModel {
            source_path: self.source_path@,
            language: self.language,
            snippets: self.snippets@.map_values(|e: ComplexitySnippets| e@),
        }
    }
}

/// The snippet of the space `s`, whose metric value is `value`.
pub open spec fn snippet_of(s: Space, value: usize, lines: Seq<Seq<char>>) -> SnippetModel {
    SnippetModel {
        complexity: value,
        start_line: s.start_line,
        end_line: s.end_line,
        text: lines_text(lines, s.start_line as nat, s.end_line as nat),
    }
}

/// The snippets that the metric `c` with `threshold` finds in the space `s`
/// and the spaces nested in it, in preorder: a space comes before the spaces
/// it holds, and these come in their order.
pub open spec fn space_snippets(s: Space, c: Complexity, threshold: usize, lines: Seq<Seq<char>>) -> Seq<
    SnippetModel,
>
    decreases s,
{
    let own = match c.spec_value(s, threshold) {
        Some(v) => seq![snippet_of(s, v, lines)],
        None => Seq::<SnippetModel>::empty(),
    };
    own + spaces_snippets(s.spaces@, c, threshold, lines)
}

/// The snippets that the metric `c` with `threshold` finds in the spaces
/// `ss`, one after the other.
pub open spec fn spaces_snippets(
    ss: Seq<Space>,
    c: Complexity,
    threshold: usize,
    lines: Seq<Seq<char>>,
) -> Seq<SnippetModel>
    decreases ss,
{
    if ss.len() == 0 {
        Seq::<SnippetModel>::empty()
    } else {
        spaces_snippets(ss.drop_last(), c, threshold, lines) + space_snippets(
            ss.last(),
            c,
            threshold,
            lines,
        )
    }
}

/// Raising the threshold of a metric never finds more snippets in a space.
pub proof fn lemma_space_snippets_threshold(
    s: Space,
    c: Complexity,
    low: usize,
    high: usize,
    lines: Seq<Seq<char>>,
)
    requires
        low <= high,
    ensures
        space_snippets(s, c, high, lines).len() <= space_snippets(s, c, low, lines).len(),
    decreases s,
{
    lemma_spaces_snippets_threshold(s.spaces@, c, low, high, lines);
}

/// Raising the threshold of a metric never finds more snippets in spaces.
pub proof fn lemma_spaces_snippets_threshold(
    ss: Seq<Space>,
    c: Complexity,
    low: usize,
    high: usize,
    lines: Seq<Seq<char>>,
)
    requires
        low <= high,
    ensures
        spaces_snippets(ss, c, high, lines).len() <= spaces_snippets(ss, c, low, lines).len(),
    decreases ss,
{
    if ss.len() > 0 {
        lemma_spaces_snippets_threshold(ss.drop_last(), c, low, high, lines);
        lemma_space_snippets_threshold(ss.last(), c, low, high, lines);
    }
}

/// Whether each snippet of `found` holds exactly the lines of its space.
pub open spec fn texts_match_lines(found: Seq<SnippetModel>, lines: Seq<Seq<char>>) -> bool {
    forall|k: int|
        0 <= k < found.len() ==> (#[trigger] found[k]).text == lines_text(
            lines,
            found[k].start_line as nat,
            found[k].end_line as nat,
        )
}

/// Each snippet found in a space holds exactly the lines of the space it
/// comes from.
pub proof fn lemma_space_snippet_texts(s: Space, c: Complexity, threshold: usize, lines: Seq<Seq<char>>)
    ensures
        texts_match_lines(space_snippets(s, c, threshold, lines), lines),
    decreases s,
{
    lemma_spaces_snippet_texts(s.spaces@, c, threshold, lines);
}

/// Each snippet found in spaces holds exactly the lines of the space it
/// comes from.
pub proof fn lemma_spaces_snippet_texts(
    ss: Seq<Space>,
    c: Complexity,
    threshold: usize,
    lines: Seq<Seq<char>>,
)
    ensures
        texts_match_lines(spaces_snippets(ss, c, threshold, lines), lines),
    decreases ss,
{
    if ss.len() > 0 {
        lemma_spaces_snippet_texts(ss.drop_last(), c, threshold, lines);
        lemma_space_snippet_texts(ss.last(), c, threshold, lines);
    }
}

/// The space reached from `root` by following the child indices `path`,
/// one level down for each index; none when an index is out of range.
pub open spec fn space_at(root: Space, path: Seq<int>) -> Option<Space>
    decreases path.len(),
{
    if path.len() == 0 {
        Some(root)
    } else if 0 <= path[0] < root.spaces@.len() {
        space_at(root.spaces@[path[0]], path.drop_first())
    } else {
        None
    }
}

/// The value of the metric `c` on the space `s`, and the largest value
/// among `s` and the spaces it holds.
pub open spec fn metric_values(c: Complexity, s: Space) -> (usize, usize) {
    match c {
        Complexity::Cyclomatic => (s.cyclomatic, s.cyclomatic_max),
        Complexity::Cognitive => (s.cognitive, s.cognitive_max),
    }
}

/// Whether `f` is the snippet of the space `s` for the metric `c`: the
/// value of `s`, or the largest value nested in it, exceeds `threshold`,
/// and `f` carries the value of `s`, its first and last lines and the text
/// of those lines.
pub open spec fn snippet_for(
    f: SnippetModel,
    s: Space,
    c: Complexity,
    threshold: usize,
    lines: Seq<Seq<char>>,
) -> bool {
    &&& metric_values(c, s).0 > threshold || metric_values(c, s).1 > threshold
    &&& f.complexity == metric_values(c, s).0
    &&& f.start_line == s.start_line
    &&& f.end_line == s.end_line
    &&& f.text == lines_text(lines, s.start_line as nat, s.end_line as nat)
}

/// Whether `f` is the snippet of the space found at `path` under `root`.
pub open spec fn found_at(
    root: Space,
    path: Seq<int>,
    f: SnippetModel,
    c: Complexity,
    threshold: usize,
    lines: Seq<Seq<char>>,
) -> bool {
    match space_at(root, path) {
        Some(s) => snippet_for(f, s, c, threshold, lines),
        None => false,
    }
}

/// Each snippet found in spaces is found in one of them.
proof fn lemma_spaces_snippets_split(
    ss: Seq<Space>,
    c: Complexity,
    threshold: usize,
    lines: Seq<Seq<char>>,
    j: int,
) -> (r: (int, int))
    requires
        0 <= j < spaces_snippets(ss, c, threshold, lines).len(),
    ensures
        0 <= r.0 < ss.len(),
        0 <= r.1 < space_snippets(ss[r.0], c, threshold, lines).len(),
        space_snippets(ss[r.0], c, threshold, lines)[r.1] == spaces_snippets(ss, c, threshold, lines)[j],
    decreases ss.len(),
{
    let prev = spaces_snippets(ss.drop_last(), c, threshold, lines);
    let last = space_snippets(ss.last(), c, threshold, lines);
    if j < prev.len() {
        let r = lemma_spaces_snippets_split(ss.drop_last(), c, threshold, lines, j);
        assert(ss.drop_last()[r.0] == ss[r.0]);
        r
    } else {
        assert((prev + last)[j] == last[j - prev.len()]);
        (ss.len() - 1, j - prev.len())
    }
}

/// The snippets found in one of `ss` are all among those found in `ss`.
proof fn lemma_spaces_snippets_hold(
    ss: Seq<Space>,
    c: Complexity,
    threshold: usize,
    lines: Seq<Seq<char>>,
    i: int,
    j: int,
) -> (r: int)
    requires
        0 <= i < ss.len(),
        0 <= j < space_snippets(ss[i], c, threshold, lines).len(),
    ensures
        0 <= r < spaces_snippets(ss, c, threshold, lines).len(),
        spaces_snippets(ss, c, threshold, lines)[r] == space_snippets(ss[i], c, threshold, lines)[j],
    decreases ss.len(),
{
    let prev = spaces_snippets(ss.drop_last(), c, threshold, lines);
    let last = space_snippets(ss.last(), c, threshold, lines);
    if i == ss.len() - 1 {
        assert((prev + last)[prev.len() + j] == last[j]);
        prev.len() + j
    } else {
        assert(ss.drop_last()[i] == ss[i]);
        let r = lemma_spaces_snippets_hold(ss.drop_last(), c, threshold, lines, i, j);
        assert((prev + last)[r] == prev[r]);
        r
    }
}

/// Following a first index, then the rest of a path, reaches what the rest
/// of the path reaches from that child.
proof fn lemma_space_at_child(root: Space, i: int, path: Seq<int>)
    requires
        0 <= i < root.spaces@.len(),
    ensures
        space_at(root, seq![i] + path) == space_at(root.spaces@[i], path),
{
    assert((seq![i] + path).drop_first() =~= path);
}

/// Every space nested in `root`, at any depth, whose metric value or
/// largest nested value exceeds the threshold gives a snippet among those
/// found in `root`, with its value, its lines and their text.
pub proof fn lemma_space_snippets_complete(
    root: Space,
    c: Complexity,
    threshold: usize,
    lines: Seq<Seq<char>>,
    path: Seq<int>,
    s: Space,
)
    requires
        space_at(root, path) == Some(s),
        metric_values(c, s).0 > threshold || metric_values(c, s).1 > threshold,
    ensures
        exists|k: int|
            0 <= k < space_snippets(root, c, threshold, lines).len() && snippet_for(
                #[trigger] space_snippets(root, c, threshold, lines)[k],
                s,
                c,
                threshold,
                lines,
            ),
    decreases path.len(),
{
    let found = space_snippets(root, c, threshold, lines);
    if path.len() == 0 {
        assert(found[0] == snippet_of(root, metric_values(c, root).0, lines));
        assert(snippet_for(found[0], s, c, threshold, lines));
    } else {
        let i = path[0];
        let child = root.spaces@[i];
        lemma_space_snippets_complete(child, c, threshold, lines, path.drop_first(), s);
        let inner = space_snippets(child, c, threshold, lines);
        let j = choose|j: int| 0 <= j < inner.len() && #[trigger] snippet_for(inner[j], s, c, threshold, lines);
        let r = lemma_spaces_snippets_hold(root.spaces@, c, threshold, lines, i, j);
        let own = found.len() - spaces_snippets(root.spaces@, c, threshold, lines).len();
        assert(found[own + r] == spaces_snippets(root.spaces@, c, threshold, lines)[r]);
        assert(snippet_for(found[own + r], s, c, threshold, lines));
    }
}

/// Each snippet found in `root` is the snippet of a space nested in it, at
/// some depth: that space's value or largest nested value exceeds the
/// threshold, and the snippet carries its value, its lines and their text.
pub proof fn lemma_space_snippets_sound(
    root: Space,
    c: Complexity,
    threshold: usize,
    lines: Seq<Seq<char>>,
    k: int,
)
    requires
        0 <= k < space_snippets(root, c, threshold, lines).len(),
    ensures
        exists|path: Seq<int>|
            #[trigger] found_at(root, path, space_snippets(root, c, threshold, lines)[k], c, threshold, lines),
    decreases root,
{
    let found = space_snippets(root, c, threshold, lines);
    let rest = spaces_snippets(root.spaces@, c, threshold, lines);
    let own = found.len() - rest.len();
    if k < own {
        assert(found_at(root, Seq::empty(), found[k], c, threshold, lines));
    } else {
        assert(found[k] == rest[k - own]);
        let (i, j) = lemma_spaces_snippets_split(root.spaces@, c, threshold, lines, k - own);
        let child = root.spaces@[i];
        assert(decreases_to!(root => root.spaces));
        lemma_space_snippets_sound(child, c, threshold, lines, j);
        let path = choose|path: Seq<int>|
            #[trigger] found_at(child, path, space_snippets(child, c, threshold, lines)[j], c, threshold, lines);
        lemma_space_at_child(root, i, path);
        assert(found_at(root, seq![i] + path, found[k], c, threshold, lines));
    }
}

/// Appends to `out` the snippets that `c` with `threshold` finds in `space`.
fn collect_snippets(
    space: &Space,
    c: Complexity,
    threshold: usize,
    lines: &Vec<String>,
    out: &mut Vec<SnippetData>,
)
    ensures
        snippet_views(final(out)@) == snippet_views(old(out)@) + space_snippets(
            *space,
            c,
            threshold,
            string_views(lines@),
        ),
    decreases space,
{
    let ghost views = string_views(lines@);
    let ghost start = snippet_views(out@);
    if let Some(v) = c.value(space, threshold) {
        let text = text_of_lines(lines, space.start_line, space.end_line);
        out.push(
            SnippetData {
                complexity: v,
                start_line: space.start_line,
                end_line: space.end_line,
                text,
            },
        );
    }
    let ghost own = snippet_views(out@);
    assert(own =~= start + match c.spec_value(*space, threshold) {
        Some(v) => seq![snippet_of(*space, v, views)],
        None => Seq::<SnippetModel>::empty(),
    });
    let n = space.spaces.len();
    let mut i: usize = 0;
    while i < n
        invariant
            i <= n == space.spaces@.len(),
            views == string_views(lines@),
            snippet_views(out@) == own + spaces_snippets(
                space.spaces@.take(i as int),
                c,
                threshold,
                views,
            ),
        decreases n - i,
    {
        assert(decreases_to!(*space => space.spaces));
        collect_snippets(&space.spaces[i], c, threshold, lines, out);
        assert(space.spaces@.take(i + 1).drop_last() =~= space.spaces@.take(i as int));
        i = i + 1;
    }
    assert(space.spaces@.take(n as int) =~= space.spaces@);
}

/// Puts the snippets `found` for the metric `c` among `entries`: in place
/// of those of the entry of `c`, if there is one, else in a new last entry.
pub open spec fn put_entry(
    entries: Seq<(Complexity, Seq<SnippetModel>)>,
    c: Complexity,
    found: Seq<SnippetModel>,
) -> Seq<(Complexity, Seq<SnippetModel>)> {
    if exists|k: int| 0 <= k < entries.len() && #[trigger] entries[k].0 == c {
        let k = choose|k: int| 0 <= k < entries.len() && #[trigger] entries[k].0 == c;
        entries.update(k, (c, found))
    } else {
        entries.push((c, found))
    }
}

/// Whether no metric has two entries.
pub open spec fn distinct_metrics(entries: Seq<(Complexity, Seq<SnippetModel>)>) -> bool {
    forall|i: int, j: int|
        0 <= i < j < entries.len() ==> #[trigger] entries[i].0 != #[trigger] entries[j].0
}

/// For each pair (metric, threshold) of `complexities`, in order, the
/// snippets that it finds in `space`, kept when there is at least one. A
/// metric has one entry: when it comes in several pairs, the last pair
/// that finds snippets gives them, at the place of the metric's first
/// entry.
pub open spec fn snippet_entries(
    space: Space,
    lines: Seq<Seq<char>>,
    complexities: Seq<(Complexity, usize)>,
) -> Seq<(Complexity, Seq<SnippetModel>)>
    decreases complexities.len(),
{
    if complexities.len() == 0 {
        Seq::empty()
    } else {
        let prev = snippet_entries(space, lines, complexities.drop_last());
        let (c, threshold) = complexities.last();
        let found = space_snippets(space, c, threshold, lines);
        if found.len() > 0 {
            put_entry(prev, c, found)
        } else {
            prev
        }
    }
}

/// No metric has two entries.
pub proof fn lemma_snippet_entries_distinct(
    space: Space,
    lines: Seq<Seq<char>>,
    complexities: Seq<(Complexity, usize)>,
)
    ensures
        distinct_metrics(snippet_entries(space, lines, complexities)),
    decreases complexities.len(),
{
    if complexities.len() > 0 {
        let prev = snippet_entries(space, lines, complexities.drop_last());
        lemma_snippet_entries_distinct(space, lines, complexities.drop_last());
        let (c, threshold) = complexities.last();
        let found = space_snippets(space, c, threshold, lines);
        if found.len() > 0 {
            lemma_put_entry(prev, c, found);
        }
    }
}

/// Putting an entry keeps the metrics distinct and the length at least one;
/// every entry comes from `entries` or is the new one.
proof fn lemma_put_entry(
    entries: Seq<(Complexity, Seq<SnippetModel>)>,
    c: Complexity,
    found: Seq<SnippetModel>,
)
    requires
        distinct_metrics(entries),
    ensures
        distinct_metrics(put_entry(entries, c, found)),
        put_entry(entries, c, found).len() >= 1,
        put_entry(entries, c, found).len() <= entries.len() + 1,
        forall|k: int|
            0 <= k < put_entry(entries, c, found).len() ==> #[trigger] put_entry(
                entries,
                c,
                found,
            )[k] == (c, found) || (k < entries.len() && put_entry(entries, c, found)[k]
                == entries[k]),
{
    let r = put_entry(entries, c, found);
    if exists|k: int| 0 <= k < entries.len() && #[trigger] entries[k].0 == c {
        let k = choose|k: int| 0 <= k < entries.len() && #[trigger] entries[k].0 == c;
        assert forall|i: int, j: int| 0 <= i < j < r.len() implies #[trigger] r[i].0
            != #[trigger] r[j].0 by {
            assert(entries[i].0 != entries[j].0);
        }
    } else {
        assert forall|i: int, j: int| 0 <= i < j < r.len() implies #[trigger] r[i].0
            != #[trigger] r[j].0 by {
            if j < entries.len() {
                assert(entries[i].0 != entries[j].0);
            } else {
                assert(entries[i].0 != c);
            }
        }
    }
}

/// The snippets of a source file whose text is `source` and whose spaces
/// are `space`: none when no metric finds complex code.
pub open spec fn code_snippets(
    space: Space,
    language: Language,
    source_path: Seq<char>,
    source: Seq<char>,
    complexities: Seq<(Complexity, usize)>,
) -> Option<SnippetsModel> {
    let entries = snippet_entries(space, split_lines(source), complexities);
    if entries.len() == 0 {
        None
    } else {
        Some(SnippetsModel { source_path, language, snippets: entries })
    }
}

/// The entries kept for `complexities` each hold at least one snippet,
/// and their metrics come from `complexities`.
pub proof fn lemma_snippet_entries_found(
    space: Space,
    lines: Seq<Seq<char>>,
    complexities: Seq<(Complexity, usize)>,
)
    ensures
        snippet_entries(space, lines, complexities).len() <= complexities.len(),
        forall|k: int|
            0 <= k < snippet_entries(space, lines, complexities).len() ==> (#[trigger] snippet_entries(
                space,
                lines,
                complexities,
            )[k]).1.len() > 0 && exists|j: int|
                0 <= j < complexities.len() && #[trigger] complexities[j].0 == snippet_entries(
                    space,
                    lines,
                    complexities,
                )[k].0,
    decreases complexities.len(),
{
    if complexities.len() > 0 {
        let prefix = complexities.drop_last();
        lemma_snippet_entries_found(space, lines, prefix);
        lemma_snippet_entries_distinct(space, lines, prefix);
        let prev = snippet_entries(space, lines, prefix);
        let (c, threshold) = complexities.last();
        let found = space_snippets(space, c, threshold, lines);
        if found.len() > 0 {
            lemma_put_entry(prev, c, found);
        }
        let entries = snippet_entries(space, lines, complexities);
        assert forall|k: int| 0 <= k < entries.len() implies (#[trigger] entries[k]).1.len() > 0
            && exists|j: int| 0 <= j < complexities.len() && #[trigger] complexities[j].0 == entries[k].0 by {
            if entries[k] != (c, found) && k < prev.len() && entries[k] == prev[k] {
                let j = choose|j: int|
                    0 <= j < prefix.len() && #[trigger] prefix[j].0 == snippet_entries(
                        space,
                        lines,
                        prefix,
                    )[k].0;
                assert(complexities[j] == prefix[j]);
            } else {
                assert(complexities[complexities.len() - 1].0 == entries[k].0);
            }
        }
    }
}

/// The snippets of a source file are none exactly when no metric finds
/// complex code; when there are some, each kept metric has at least one
/// snippet, no metric has two entries, and each snippet holds exactly the
/// lines of its space.
pub proof fn lemma_code_snippets_found(
    space: Space,
    language: Language,
    source_path: Seq<char>,
    source: Seq<char>,
    complexities: Seq<(Complexity, usize)>,
)
    ensures
        code_snippets(space, language, source_path, source, complexities) is None <==> forall|j: int|
            0 <= j < complexities.len() ==> space_snippets(
                space,
                #[trigger] complexities[j].0,
                complexities[j].1,
                split_lines(source),
            ).len() == 0,
        code_snippets(space, language, source_path, source, complexities) matches Some(m) ==> {
            &&& m.source_path == source_path
            &&& m.language == language
            &&& distinct_metrics(m.snippets)
            &&& forall|k: int|
                0 <= k < m.snippets.len() ==> (#[trigger] m.snippets[k]).1.len() > 0
                    && texts_match_lines(m.snippets[k].1, split_lines(source))
        },
{
    let lines = split_lines(source);
    lemma_snippet_entries_found(space, lines, complexities);
    lemma_entries_empty(space, lines, complexities);
    lemma_entries_texts(space, lines, complexities);
    lemma_snippet_entries_distinct(space, lines, complexities);
}

/// No entry is kept exactly when no pair of `complexities` finds a snippet.
proof fn lemma_entries_empty(
    space: Space,
    lines: Seq<Seq<char>>,
    complexities: Seq<(Complexity, usize)>,
)
    ensures
        snippet_entries(space, lines, complexities).len() == 0 <==> forall|j: int|
            0 <= j < complexities.len() ==> space_snippets(
                space,
                #[trigger] complexities[j].0,
                complexities[j].1,
                lines,
            ).len() == 0,
    decreases complexities.len(),
{
    if complexities.len() > 0 {
        let prefix = complexities.drop_last();
        lemma_entries_empty(space, lines, prefix);
        if snippet_entries(space, lines, complexities).len() == 0 {
            assert forall|j: int| 0 <= j < complexities.len() implies space_snippets(
                space,
                #[trigger] complexities[j].0,
                complexities[j].1,
                lines,
            ).len() == 0 by {
                if j < prefix.len() {
                    assert(complexities[j] == prefix[j]);
                }
            }
        } else {
            if snippet_entries(space, lines, prefix).len() > 0 {
                let j = choose|j: int|
                    0 <= j < prefix.len() && space_snippets(
                        space,
                        #[trigger] prefix[j].0,
                        prefix[j].1,
                        lines,
                    ).len() != 0;
                assert(complexities[j] == prefix[j]);
            } else {
                let j = complexities.len() - 1;
                assert(space_snippets(space, complexities[j].0, complexities[j].1, lines).len() != 0);
            }
        }
    }
}

/// Each snippet of each kept entry holds exactly the lines of its space.
proof fn lemma_entries_texts(
    space: Space,
    lines: Seq<Seq<char>>,
    complexities: Seq<(Complexity, usize)>,
)
    ensures
        forall|k: int|
            0 <= k < snippet_entries(space, lines, complexities).len() ==> texts_match_lines(
                (#[trigger] snippet_entries(space, lines, complexities)[k]).1,
                lines,
            ),
    decreases complexities.len(),
{
    if complexities.len() > 0 {
        let (c, threshold) = complexities.last();
        let prev = snippet_entries(space, lines, complexities.drop_last());
        let entries = snippet_entries(space, lines, complexities);
        let found = space_snippets(space, c, threshold, lines);
        lemma_entries_texts(space, lines, complexities.drop_last());
        lemma_space_snippet_texts(space, c, threshold, lines);
        lemma_snippet_entries_distinct(space, lines, complexities.drop_last());
        if found.len() > 0 {
            lemma_put_entry(prev, c, found);
        }
        assert forall|k: int| 0 <= k < entries.len() implies texts_match_lines(
            (#[trigger] entries[k]).1,
            lines,
        ) by {
            if entries[k] != (c, found) {
                assert(entries[k] == prev[k]);
            }
        }
    }
}

/// The view of an optional value of snippets.
pub open spec fn snippets_view(r: Option<Snippets>) -> Option<SnippetsModel> {
    match r {
        Some(s) => Some(s@),
        None => None,
    }
}

/// The snippets of complex code in a source file, given its spaces and its
/// text, for each metric and threshold of `complexities`.
pub fn get_code_snippets(
    space: &Space,
    language: Language,
    source_path: String,
    source_file: &str,
    complexities: &[(Complexity, usize)],
) -> (r: Option<Snippets>)
    ensures
        snippets_view(r) == code_snippets(
            *space,
            language,
            source_path@,
            source_file@,
            complexities@,
        ),
        r matches Some(s) ==> distinct_metrics(s@.snippets),
{
    proof {
        lemma_snippet_entries_distinct(*space, split_lines(source_file@), complexities@);
    }
    let lines = source_lines(source_file);
    let ghost views = string_views(lines@);
    let mut entries: Vec<ComplexitySnippets> = Vec::new();
    let mut i: usize = 0;
    while i < complexities.len()
        invariant
            i <= complexities@.len(),
            views == string_views(lines@),
            views == split_lines(source_file@),
            entries@.map_values(|e: ComplexitySnippets| e@) == snippet_entries(
                *space,
                views,
                complexities@.take(i as int),
            ),
        decreases complexities@.len() - i,
    {
        let (c, threshold) = complexities[i];
        let mut found: Vec<SnippetData> = Vec::new();
        collect_snippets(space, c, threshold, &lines, &mut found);
        assert(snippet_views(found@) =~= space_snippets(*space, c, threshold, views));
        assert(complexities@.take(i + 1).drop_last() =~= complexities@.take(i as int));
        let ghost prev = snippet_entries(*space, views, complexities@.take(i as int));
        proof {
            lemma_snippet_entries_distinct(*space, views, complexities@.take(i as int));
        }
        if found.len() > 0 {
            let ghost fv = snippet_views(found@);
            // The entry of this metric, if there is one.
            let mut k: usize = 0;
            while k < entries.len() && entries[k].complexity != c
                invariant
                    k <= entries@.len(),
                    forall|q: int| 0 <= q < k ==> (#[trigger] entries@[q]).complexity != c,
                decreases entries@.len() - k,
            {
                k = k + 1;
            }
            let entry = ComplexitySnippets { complexity: c, snippets: found };
            if k < entries.len() {
                entries.set(k, entry);
                proof {
                    assert(prev[k as int].0 == c);
                    let kk = choose|kk: int| 0 <= kk < prev.len() && #[trigger] prev[kk].0 == c;
                    assert(kk == k);
                    assert(entries@.map_values(|e: ComplexitySnippets| e@) =~= prev.update(
                        k as int,
                        (c, fv),
                    ));
                }
            } else {
                entries.push(entry);
                proof {
                    assert forall|q: int| 0 <= q < prev.len() implies #[trigger] prev[q].0 != c by {
                        assert(prev[q].0 == entries@[q].complexity);
                    }
                    assert(entries@.map_values(|e: ComplexitySnippets| e@) =~= prev.push((c, fv)));
                }
            }
        }
        i = i + 1;
    }
    assert(complexities@.take(complexities@.len() as int) =~= complexities@);
    if entries.len() == 0 {
        None
    } else {
        Some(Snippets { source_path, language, snippets: entries })
    }
}

/// The snippets of complex code in the source file at `source_path` whose
/// bytes are `bytes`: the bytes decoded as text, the language guessed, the
/// spaces computed, then the snippets taken from them.
pub open spec fn file_snippets(
    source_path: Seq<char>,
    bytes: Seq<u8>,
    complexities: Seq<(Complexity, usize)>,
) -> Option<SnippetsModel> {
    let source = decoded_source(bytes);
    let code = encode_utf8(source);
    match guessed_language(code, source_path) {
        None => None,
        Some(language) => match function_spaces(language, code, source_path) {
            None => None,
            Some(space) => code_snippets(space, language, source_path, source, complexities),
        },
    }
}

/// Extracts the snippets of complex code from the bytes of a source file.
pub fn extract_file_snippets(
    source_path: &str,
    source_file_bytes: &[u8],
    complexities: &[(Complexity, usize)],
) -> (r: Option<Snippets>)
    ensures
        snippets_view(r) == file_snippets(source_path@, source_file_bytes@, complexities@),
        r matches Some(s) ==> distinct_metrics(s@.snippets),
{
    // Convert the bytes to text: UTF-8 where possible, else byte by byte.
    let source_file = decode_source(source_file_bytes);
    let code = source_file.as_str().as_bytes();
    // Guess the language of the source file.
    let language = match guess_language_of(code, source_path) {
        Some(language) => language,
        None => return None,
    };
    // Get the metrics of each space of the source code.
    let space = match function_spaces_of(language, code, source_path) {
        Some(space) => space,
        None => return None,
    };
    get_code_snippets(&space, language, source_path.to_owned(), source_file.as_str(), complexities)
}

} // verus!
