use std::path::Path;

use vstd::prelude::*;
use vstd::utf8::encode_utf8;

use crate::metrics::Complexity;
use crate::snippets::Snippets;
use crate::text::{join_with, str_equals, string_views};

verus! {

broadcast use vstd::seq_lib::group_to_multiset_ensures;

/// Supported output formats.
#[derive(Clone, Copy, Debug, PartialEq, Eq, Structural)]
pub enum OutputFormat {
    /// Json format.
    Json,
    /// Markdown format.
    Markdown,
    /// Html format.
    Html,
    /// Enables all supported output formats.
    All,
}

/// One kind of output file that is written.
#[derive(Clone, Copy, Debug, PartialEq, Eq, Structural)]
pub enum Writer {
    /// Markdown files, filled from a template.
    Markdown,
    /// Html files and an index, filled from templates.
    Html,
    /// Json files.
    Json,
}

impl Writer {
    /// The extension of the files this writer produces.
    pub open spec fn spec_extension(self) -> Seq<char> {
        match self {
            Writer::Markdown => "md"@,
            Writer::Html => "html"@,
            Writer::Json => "json"@,
        }
    }

    /// The extension of the files this writer produces; it holds no path
    /// separator.
    pub fn extension(&self) -> (r: &'static str)
        ensures
            r@ == self.spec_extension(),
            no_path_separator(r@),
    {
        proof {
            reveal_strlit("md");
            reveal_strlit("html");
            reveal_strlit("json");
        }
        match self {
            Writer::Markdown => "md",
            Writer::Html => "html",
            Writer::Json => "json",
        }
    }

    /// The directory, under the output path, where this writer puts its
    /// files.
    pub open spec fn spec_dir(self) -> Seq<char> {
        match self {
            Writer::Markdown => "markdown"@,
            Writer::Html => "html"@,
            Writer::Json => "json"@,
        }
    }

    /// The directory, under the output path, where this writer puts its
    /// files.
    pub fn dir(&self) -> (r: &'static str)
        ensures
            r@ == self.spec_dir(),
    {
        match self {
            Writer::Markdown => "markdown",
            Writer::Html => "html",
            Writer::Json => "json",
        }
    }
}

impl OutputFormat {
    /// The name of the format.
    pub open spec fn spec_name(self) -> Seq<char> {
        match self {
            OutputFormat::Json => "json"@,
            OutputFormat::Markdown => "markdown"@,
            OutputFormat::Html => "html"@,
            OutputFormat::All => "all"@,
        }
    }

    /// The name of the format.
    pub fn name(&self) -> (r: &'static str)
        ensures
            r@ == self.spec_name(),
    {
        match self {
            OutputFormat::Json => "json",
            OutputFormat::Markdown => "markdown",
            OutputFormat::Html => "html",
            OutputFormat::All => "all",
        }
    }

    /// The format whose name is `s`, if any.
    pub open spec fn spec_from_name(s: Seq<char>) -> Option<OutputFormat> {
        if s == "json"@ {
            Some(OutputFormat::Json)
        } else if s == "markdown"@ {
            Some(OutputFormat::Markdown)
        } else if s == "html"@ {
            Some(OutputFormat::Html)
        } else if s == "all"@ {
            Some(OutputFormat::All)
        } else {
            None
        }
    }

    /// Parses a format name: `json`, `markdown`, `html` or `all`.
    pub fn from_name(s: &str) -> (r: Option<OutputFormat>)
        ensures
            r == Self::spec_from_name(s@),
    {
        if str_equals(s, "json") {
            Some(OutputFormat::Json)
        } else if str_equals(s, "markdown") {
            Some(OutputFormat::Markdown)
        } else if str_equals(s, "html") {
            Some(OutputFormat::Html)
        } else if str_equals(s, "all") {
            Some(OutputFormat::All)
        } else {
            None
        }
    }

    /// The names of all output formats.
    pub fn all() -> (r: &'static [&'static str])
        ensures
            r@.map_values(|s: &str| s@) == seq!["json"@, "markdown"@, "html"@, "all"@],
    {
        let r: &'static [&'static str] = &["json", "markdown", "html", "all"];
        assert(r@.map_values(|s: &str| s@) =~= seq!["json"@, "markdown"@, "html"@, "all"@]);
        r
    }

    /// The writers that this format runs, in order.
    pub open spec fn spec_writers(self) -> Seq<Writer> {
        match self {
            OutputFormat::All => seq![Writer::Markdown, Writer::Html, Writer::Json],
            OutputFormat::Json => seq![Writer::Json],
            OutputFormat::Markdown => seq![Writer::Markdown],
            OutputFormat::Html => seq![Writer::Html],
        }
    }

    /// The writers that this format runs, in order: all three (markdown,
    /// html, json) for `All`, else the one of the format.
    pub fn writers(&self) -> (r: Vec<Writer>)
        ensures
            r@ == self.spec_writers(),
    {
        match self {
            OutputFormat::All => vec![Writer::Markdown, Writer::Html, Writer::Json],
            OutputFormat::Json => vec![Writer::Json],
            OutputFormat::Markdown => vec![Writer::Markdown],
            OutputFormat::Html => vec![Writer::Html],
        }
    }
}

/// Each format but `All` runs one writer, whose directory is named after
/// the format; a writer's files carry its directory's name as extension,
/// but for markdown, whose files carry the short `md`; and no two writers
/// share a directory or an extension.
pub proof fn lemma_writers_named_after_formats(f: OutputFormat, a: Writer, b: Writer)
    ensures
        f != OutputFormat::All ==> f.spec_writers().len() == 1 && f.spec_writers()[0].spec_dir()
            == f.spec_name(),
        a != Writer::Markdown ==> a.spec_extension() == a.spec_dir(),
        a == Writer::Markdown ==> a.spec_extension() == "md"@,
        a.spec_dir() == b.spec_dir() ==> a == b,
        a.spec_extension() == b.spec_extension() ==> a == b,
{
    reveal_strlit("md");
    reveal_strlit("html");
    reveal_strlit("json");
    reveal_strlit("markdown");
    assert("md"@[0] != "html"@[0]);
    assert("md"@[0] != "json"@[0]);
    assert("html"@[0] != "json"@[0]);
    assert("markdown"@[0] != "html"@[0]);
    assert("markdown"@[0] != "json"@[0]);
}

impl Default for OutputFormat {
    fn default() -> (r: Self)
        ensures
            r == OutputFormat::Json,
    {
        OutputFormat::Json
    }
}

/// Reading back the name of a format gives the format, and each name that
/// `OutputFormat::all` lists is the name of a format.
pub proof fn lemma_output_format_names(f: OutputFormat)
    ensures
        OutputFormat::spec_from_name(f.spec_name()) == Some(f),
        OutputFormat::spec_from_name("json"@) == Some(OutputFormat::Json),
        OutputFormat::spec_from_name("markdown"@) == Some(OutputFormat::Markdown),
        OutputFormat::spec_from_name("html"@) == Some(OutputFormat::Html),
        OutputFormat::spec_from_name("all"@) == Some(OutputFormat::All),
{
    reveal_strlit("json");
    reveal_strlit("markdown");
    reveal_strlit("html");
    reveal_strlit("all");
    assert("json"@[0] != "markdown"@[0]);
    assert("json"@[0] != "html"@[0]);
    assert("json"@[0] != "all"@[0]);
    assert("markdown"@[0] != "html"@[0]);
    assert("markdown"@[0] != "all"@[0]);
    assert("html"@[0] != "all"@[0]);
}

/// The components of `path`, as `std::path::Path::iter` yields them.
pub uninterp spec fn components_of(path: Seq<char>) -> Seq<Seq<char>>;

/// Whether `s` holds no `/`.
pub open spec fn no_slash(s: Seq<char>) -> bool {
    forall|j: int| 0 <= j < s.len() ==> #[trigger] s[j] != '/'
}

/// Whether `path` starts with two separators, `/` or `\`: only such a
/// path can hold a Windows prefix with a `/` in it (`//server/share`) or be
/// a verbatim path (`\\?\`), where `/` separates nothing.
pub open spec fn starts_with_two_separators(path: Seq<char>) -> bool {
    path.len() >= 2 && (path[0] == '/' || path[0] == '\\') && (path[1] == '/' || path[1] == '\\')
}

/// Splits `path` into its components (`std::path::Path::iter`), each taken
/// as a string. The contract claims that the result is the same for the
/// same path, and that, on a path that does not start with two separators,
/// each component is the root `/` or holds no `/`: `/` separates components
/// on every platform, and std yields the root as `/` on Unix and as `\`
/// on Windows. What else the components are is left unsaid.
#[verifier::external_body]
pub(crate) fn path_components(path: &str) -> (r: Vec<String>)
    ensures
        string_views(r@) == components_of(path@),
        !starts_with_two_separators(path@) ==> forall|i: int|
            0 <= i < r@.len() ==> #[trigger] r@[i]@ == "/"@ || no_slash(r@[i]@),
{
    Path::new(path).iter().map(|c| c.to_string_lossy().into_owned()).collect()
}

/// Whether a path component is kept in an output file name: all are but
/// `.`, `..`, `:`, `/` and `\`.
pub open spec fn kept_component(c: Seq<char>) -> bool {
    c != "."@ && c != ".."@ && c != ":"@ && c != "/"@ && c != "\\"@
}

/// The components of `cs` that are kept, in order.
pub open spec fn kept_components(cs: Seq<Seq<char>>) -> Seq<Seq<char>>
    decreases cs.len(),
{
    if cs.len() == 0 {
        Seq::empty()
    } else {
        let prev = kept_components(cs.drop_last());
        if kept_component(cs.last()) {
            prev.push(cs.last())
        } else {
            prev
        }
    }
}

/// The name of the output files for the source file at `path`: the kept
/// components of the path joined with `_`.
pub open spec fn output_filename(path: Seq<char>) -> Seq<char> {
    join_with(kept_components(components_of(path)), '_')
}

/// Whether a path component is kept in an output file name.
fn is_kept_component(c: &str) -> (r: bool)
    ensures
        r == kept_component(c@),
{
    !(str_equals(c, ".") || str_equals(c, "..") || str_equals(c, ":") || str_equals(c, "/")
        || str_equals(c, "\\"))
}

/// The name of an output file made of path components: the kept ones
/// joined with `_`.
pub fn filename_from_components(components: &[String]) -> (r: String)
    ensures
        r@ == join_with(kept_components(string_views(components@)), '_'),
{
    let ghost cs = string_views(components@);
    let mut name = String::new();
    let mut kept: usize = 0;
    let mut i: usize = 0;
    while i < components.len()
        invariant
            i <= components@.len(),
            cs == string_views(components@),
            kept == kept_components(cs.take(i as int)).len(),
            kept <= i,
            name@ == join_with(kept_components(cs.take(i as int)), '_'),
        decreases components@.len() - i,
    {
        let c = components[i].as_str();
        assert(cs.take(i + 1).drop_last() =~= cs.take(i as int));
        assert(cs[i as int] == c@);
        let ghost prev = kept_components(cs.take(i as int));
        assert(prev.push(c@).drop_last() =~= prev);
        if is_kept_component(c) {
            proof {
                reveal_strlit("_");
            }
            if kept > 0 {
                name.append("_");
            }
            name.append(c);
            kept = kept + 1;
        }
        i = i + 1;
    }
    assert(cs.take(components@.len() as int) =~= cs);
    name
}

/// The name of the output files for the source file at `path`; it holds
/// no `/` when the path does not start with two separators.
pub fn filename_of(path: &str) -> (r: String)
    ensures
        r@ == output_filename(path@),
        !starts_with_two_separators(path@) ==> no_slash(r@),
{
    let components = path_components(path);
    proof {
        let cs = string_views(components@);
        if !starts_with_two_separators(path@) {
            assert forall|i: int| 0 <= i < cs.len() implies #[trigger] cs[i] == "/"@ || no_slash(cs[i]) by {
                assert(cs[i] == components@[i]@);
            }
            lemma_filename_no_slash(cs);
        }
    }
    filename_from_components(components.as_slice())
}

/// When no component holds a `/` but the root `/` itself (as on Unix,
/// where `/` is the one separator), the name made of the components holds
/// no `/`.
pub proof fn lemma_filename_no_slash(cs: Seq<Seq<char>>)
    requires
        forall|i: int| 0 <= i < cs.len() ==> #[trigger] cs[i] == "/"@ || no_slash(cs[i]),
    ensures
        no_slash(join_with(kept_components(cs), '_')),
{
    lemma_kept_no_slash(cs);
    lemma_join_no_slash(kept_components(cs));
}

/// The kept components hold no `/` when every component is `/` or holds none.
proof fn lemma_kept_no_slash(cs: Seq<Seq<char>>)
    requires
        forall|i: int| 0 <= i < cs.len() ==> #[trigger] cs[i] == "/"@ || no_slash(cs[i]),
    ensures
        forall|i: int| 0 <= i < kept_components(cs).len() ==> no_slash(
            #[trigger] kept_components(cs)[i],
        ),
    decreases cs.len(),
{
    if cs.len() > 0 {
        let prefix = cs.drop_last();
        assert forall|i: int| 0 <= i < prefix.len() implies #[trigger] prefix[i] == "/"@ || no_slash(
            prefix[i],
        ) by {
            assert(prefix[i] == cs[i]);
        }
        lemma_kept_no_slash(prefix);
        let prev = kept_components(prefix);
        let kept = kept_components(cs);
        assert forall|i: int| 0 <= i < kept.len() implies no_slash(#[trigger] kept[i]) by {
            if i < prev.len() {
                assert(kept[i] == prev[i]);
            } else {
                assert(cs[cs.len() - 1] == cs.last());
            }
        }
    }
}

/// Pieces that hold no `/`, joined with `_`, hold no `/`.
proof fn lemma_join_no_slash(ps: Seq<Seq<char>>)
    requires
        forall|i: int| 0 <= i < ps.len() ==> no_slash(#[trigger] ps[i]),
    ensures
        no_slash(join_with(ps, '_')),
    decreases ps.len(),
{
    if ps.len() > 1 {
        let prefix = ps.drop_last();
        assert forall|i: int| 0 <= i < prefix.len() implies no_slash(#[trigger] prefix[i]) by {
            assert(prefix[i] == ps[i]);
        }
        lemma_join_no_slash(prefix);
        let j = join_with(ps, '_');
        let left = join_with(prefix, '_');
        assert(no_slash(ps[ps.len() - 1]));
        assert forall|k: int| 0 <= k < j.len() implies #[trigger] j[k] != '/' by {
            if k < left.len() {
                assert(j[k] == left[k]);
            } else if k > left.len() {
                assert(j[k] == ps.last()[k - left.len() - 1]);
            }
        }
    } else if ps.len() == 1 {
        assert(no_slash(ps[0]));
    }
}

/// The output file names of `snippets`: for each, the name of its source
/// path, in order.
pub open spec fn output_filenames(snippets: Seq<Snippets>) -> Seq<Seq<char>> {
    snippets.map_values(|s: Snippets| output_filename(s.source_path@))
}

/// Each output file name depends on its own source path only: the names of
/// two lists one after the other are the names of the first list, then
/// those of the second.
pub proof fn lemma_output_filenames_concat(a: Seq<Snippets>, b: Seq<Snippets>)
    ensures
        output_filenames(a + b) == output_filenames(a) + output_filenames(b),
{
    assert(output_filenames(a + b) =~= output_filenames(a) + output_filenames(b));
}

/// The output file names of `snippets`, one for each source file, in
/// order; a name holds no `/` when its source path does not start with two
/// separators.
pub fn create_filenames(snippets: &[Snippets]) -> (r: Vec<String>)
    ensures
        string_views(r@) == output_filenames(snippets@),
        forall|k: int|
            0 <= k < r@.len() && !starts_with_two_separators(snippets@[k].source_path@) ==> no_slash(
                #[trigger] r@[k]@,
            ),
{
    let mut names: Vec<String> = Vec::new();
    let mut i: usize = 0;
    while i < snippets.len()
        invariant
            i <= snippets@.len(),
            names@.len() == i,
            forall|j: int|
                0 <= j < i ==> #[trigger] names@[j]@ == output_filename(snippets@[j].source_path@),
            forall|j: int|
                0 <= j < i && !starts_with_two_separators(snippets@[j].source_path@) ==> no_slash(
                    #[trigger] names@[j]@,
                ),
        decreases snippets@.len() - i,
    {
        names.push(filename_of(snippets[i].source_path.as_str()));
        i = i + 1;
    }
    assert(string_views(names@) =~= output_filenames(snippets@));
    names
}

/// Byte-wise lexicographic order: `a` comes before `b` or equals it.
pub open spec fn bytes_le(a: Seq<u8>, b: Seq<u8>) -> bool
    decreases a.len(),
{
    if a.len() == 0 {
        true
    } else if b.len() == 0 {
        false
    } else if a[0] != b[0] {
        a[0] < b[0]
    } else {
        bytes_le(a.drop_first(), b.drop_first())
    }
}

/// The order of strings, as `Ord` for `String` gives it: byte-wise
/// lexicographic order of their UTF-8 encoding.
pub open spec fn str_le(a: Seq<char>, b: Seq<char>) -> bool {
    bytes_le(encode_utf8(a), encode_utf8(b))
}

/// Any two byte strings are ordered one way or the other.
pub proof fn lemma_bytes_le_total(a: Seq<u8>, b: Seq<u8>)
    ensures
        bytes_le(a, b) || bytes_le(b, a),
    decreases a.len(),
{
    if a.len() > 0 && b.len() > 0 && a[0] == b[0] {
        lemma_bytes_le_total(a.drop_first(), b.drop_first());
    }
}

/// The byte-wise order is transitive.
pub proof fn lemma_bytes_le_transitive(a: Seq<u8>, b: Seq<u8>, c: Seq<u8>)
    requires
        bytes_le(a, b),
        bytes_le(b, c),
    ensures
        bytes_le(a, c),
    decreases a.len(),
{
    if a.len() > 0 && b.len() > 0 && c.len() > 0 && a[0] == b[0] && b[0] == c[0] {
        lemma_bytes_le_transitive(a.drop_first(), b.drop_first(), c.drop_first());
    }
}

/// Compares two byte strings in the byte-wise lexicographic order.
fn bytes_le_exec(a: &[u8], b: &[u8]) -> (r: bool)
    ensures
        r == bytes_le(a@, b@),
{
    let mut i: usize = 0;
    assert(a@.skip(0) =~= a@);
    assert(b@.skip(0) =~= b@);
    while i < a.len()
        invariant
            i <= a@.len(),
            i <= b@.len(),
            bytes_le(a@, b@) == bytes_le(a@.skip(i as int), b@.skip(i as int)),
        decreases a@.len() - i,
    {
        if i == b.len() {
            return false;
        }
        if a[i] != b[i] {
            return a[i] < b[i];
        }
        assert(a@.skip(i as int).drop_first() =~= a@.skip(i + 1));
        assert(b@.skip(i as int).drop_first() =~= b@.skip(i + 1));
        i = i + 1;
    }
    true
}

/// Whether the string `a` comes before `b` or equals it.
pub fn string_le(a: &String, b: &String) -> (r: bool)
    ensures
        r == str_le(a@, b@),
{
    bytes_le_exec(a.as_str().as_bytes(), b.as_str().as_bytes())
}

/// Whether `s` is sorted by `str_le`.
pub open spec fn sorted_strings(s: Seq<Seq<char>>) -> bool {
    forall|i: int, j: int| 0 <= i < j < s.len() ==> str_le(#[trigger] s[i], #[trigger] s[j])
}

/// Sorts strings in their `Ord` order (`sort_unstable` on a `Vec<String>`).
pub fn sort_strings(v: Vec<String>) -> (r: Vec<String>)
    ensures
        sorted_strings(string_views(r@)),
        string_views(r@).to_multiset() == string_views(v@).to_multiset(),
{
    let mut r: Vec<String> = Vec::new();
    let mut k: usize = 0;
    while k < v.len()
        invariant
            k <= v@.len(),
            sorted_strings(string_views(r@)),
            string_views(r@).to_multiset() == string_views(v@.take(k as int)).to_multiset(),
        decreases v@.len() - k,
    {
        let x = v[k].clone();
        let ghost rs = string_views(r@);
        // The first position whose string comes strictly after `x`.
        let mut p: usize = 0;
        while p < r.len() && string_le(&r[p], &x)
            invariant
                p <= r@.len(),
                rs == string_views(r@),
                forall|q: int| 0 <= q < p ==> str_le(#[trigger] rs[q], x@),
            decreases r@.len() - p,
        {
            p = p + 1;
        }
        proof {
            if p < rs.len() {
                lemma_bytes_le_total(encode_utf8(rs[p as int]), encode_utf8(x@));
                assert forall|q: int| p <= q < rs.len() implies str_le(x@, #[trigger] rs[q]) by {
                    if q > p {
                        assert(str_le(rs[p as int], rs[q]));
                        lemma_bytes_le_transitive(
                            encode_utf8(x@),
                            encode_utf8(rs[p as int]),
                            encode_utf8(rs[q]),
                        );
                    }
                }
            }
        }
        r.insert(p, x);
        proof {
            let ns = string_views(r@);
            assert(ns =~= rs.insert(p as int, x@));
            assert(string_views(v@.take(k + 1)) =~= string_views(v@.take(k as int)).push(x@));
            assert forall|i: int, j: int| 0 <= i < j < ns.len() implies str_le(
                #[trigger] ns[i],
                #[trigger] ns[j],
            ) by {
                if i < p && j == p {
                } else if i < p && j > p {
                    assert(str_le(rs[i], rs[j - 1]));
                } else if i == p {
                } else if i > p {
                    assert(str_le(rs[i - 1], rs[j - 1]));
                } else {
                    assert(str_le(rs[i], rs[j]));
                }
            }
        }
        k = k + 1;
    }
    assert(v@.take(v@.len() as int) =~= v@);
    r
}

/// The path `path` with its extension set to `extension`, as
/// `std::path::Path::with_extension` gives it.
pub uninterp spec fn with_extension_of(path: Seq<char>, extension: Seq<char>) -> Seq<char>;

/// The last component of `path`, as `std::path::Path::file_name` gives it.
pub uninterp spec fn file_name_of(path: Seq<char>) -> Option<Seq<char>>;

/// Whether `s` holds no path separator: neither `/` nor `\` (the
/// separators of Windows; on Unix only `/` is one).
pub open spec fn no_path_separator(s: Seq<char>) -> bool {
    forall|i: int| 0 <= i < s.len() ==> #[trigger] s[i] != '/' && s[i] != '\\'
}

/// Sets the extension of `path` (`std::path::Path::with_extension`), which
/// panics when the extension holds a path separator: that input is left
/// out. The contract claims only that the result is the same for the same
/// path and extension.
#[verifier::external_body]
pub(crate) fn path_with_extension(path: &str, extension: &str) -> (r: String)
    requires
        no_path_separator(extension@),
    ensures
        r@ == with_extension_of(path@, extension@),
{
    Path::new(path).with_extension(extension).to_string_lossy().into_owned()
}

/// The last component of `path` (`std::path::Path::file_name`). The
/// contract claims only that the result is the same for the same path.
#[verifier::external_body]
pub(crate) fn path_file_name(path: &str) -> (r: Option<String>)
    ensures
        match r {
            Some(s) => file_name_of(path@) == Some(s@),
            None => file_name_of(path@) is None,
        },
{
    Path::new(path).file_name().map(|f| f.to_string_lossy().into_owned())
}

/// The names of the files listed by an index: for each output file name,
/// the file name of that name with `extension`, where there is one.
pub open spec fn index_names(filenames: Seq<Seq<char>>, extension: Seq<char>) -> Seq<Seq<char>>
    decreases filenames.len(),
{
    if filenames.len() == 0 {
        Seq::empty()
    } else {
        let prev = index_names(filenames.drop_last(), extension);
        match file_name_of(with_extension_of(filenames.last(), extension)) {
            Some(name) => prev.push(name),
            None => prev,
        }
    }
}

/// The file names that an index lists, sorted.
pub fn index_entries(filenames: &[String], extension: &str) -> (r: Vec<String>)
    requires
        no_path_separator(extension@),
    ensures
        sorted_strings(string_views(r@)),
        string_views(r@).to_multiset() == index_names(
            string_views(filenames@),
            extension@,
        ).to_multiset(),
{
    let ghost names = string_views(filenames@);
    let mut files: Vec<String> = Vec::new();
    let mut i: usize = 0;
    while i < filenames.len()
        invariant
            i <= filenames@.len(),
            names == string_views(filenames@),
            no_path_separator(extension@),
            string_views(files@) == index_names(names.take(i as int), extension@),
        decreases filenames@.len() - i,
    {
        let with_ext = path_with_extension(filenames[i].as_str(), extension);
        let name = path_file_name(with_ext.as_str());
        assert(names.take(i + 1).drop_last() =~= names.take(i as int));
        assert(names[i as int] == filenames@[i as int]@);
        match name {
            Some(n) => {
                files.push(n);
                assert(string_views(files@) =~= index_names(names.take(i as int), extension@).push(
                    n@,
                ));
            },
            None => {},
        }
        i = i + 1;
    }
    assert(names.take(filenames@.len() as int) =~= names);
    sort_strings(files)
}

/// The position of a metric in the order that `derive(Ord)` gives.
pub open spec fn complexity_rank(c: Complexity) -> int {
    match c {
        Complexity::Cyclomatic => 0,
        Complexity::Cognitive => 1,
    }
}

/// The indices `i` in `0..n` with `keys[i] == c`, in increasing order.
pub open spec fn indices_with(keys: Seq<Complexity>, n: int, c: Complexity) -> Seq<usize>
    decreases n,
{
    if n <= 0 {
        Seq::empty()
    } else {
        let prev = indices_with(keys, n - 1, c);
        if keys[n - 1] == c {
            prev.push((n - 1) as usize)
        } else {
            prev
        }
    }
}

/// The order in which the metrics of `keys` are shown: sorted by metric
/// (cyclomatic first, then cognitive), equal metrics in their order.
pub open spec fn complexity_order(keys: Seq<Complexity>) -> Seq<usize> {
    indices_with(keys, keys.len() as int, Complexity::Cyclomatic) + indices_with(
        keys,
        keys.len() as int,
        Complexity::Cognitive,
    )
}

/// Whether the indices `r` are below `n`, increasing, and point at `c` in
/// `keys`.
pub open spec fn indices_ok(r: Seq<usize>, keys: Seq<Complexity>, n: int, c: Complexity) -> bool {
    &&& forall|k: int| 0 <= k < r.len() ==> (#[trigger] r[k]) < n && keys[r[k] as int] == c
    &&& forall|i: int, j: int| 0 <= i < j < r.len() ==> #[trigger] r[i] < #[trigger] r[j]
}

/// The indices of each metric among the first `n` keys are in order and
/// point at that metric, and together they number `n`.
proof fn lemma_indices_with(keys: Seq<Complexity>, n: int)
    requires
        0 <= n <= keys.len() <= usize::MAX,
    ensures
        indices_ok(indices_with(keys, n, Complexity::Cyclomatic), keys, n, Complexity::Cyclomatic),
        indices_ok(indices_with(keys, n, Complexity::Cognitive), keys, n, Complexity::Cognitive),
        indices_with(keys, n, Complexity::Cyclomatic).len() + indices_with(
            keys,
            n,
            Complexity::Cognitive,
        ).len() == n,
    decreases n,
{
    if n > 0 {
        lemma_indices_with(keys, n - 1);
        lemma_indices_step(keys, n, Complexity::Cyclomatic);
        lemma_indices_step(keys, n, Complexity::Cognitive);
    }
}

/// One more key keeps the indices of a metric in order.
proof fn lemma_indices_step(keys: Seq<Complexity>, n: int, c: Complexity)
    requires
        0 < n <= keys.len() <= usize::MAX,
        indices_ok(indices_with(keys, n - 1, c), keys, n - 1, c),
    ensures
        indices_ok(indices_with(keys, n, c), keys, n, c),
{
    let prev = indices_with(keys, n - 1, c);
    let r = indices_with(keys, n, c);
    assert(((n - 1) as usize) as int == n - 1);
    assert forall|k: int| 0 <= k < r.len() implies (#[trigger] r[k]) < n && keys[r[k] as int] == c by {
        if k < prev.len() {
            assert(r[k] == prev[k]);
        }
    }
    assert forall|i: int, j: int| 0 <= i < j < r.len() implies #[trigger] r[i] < #[trigger] r[j] by {
        assert(r[i] == prev[i]);
        if j < prev.len() {
            assert(r[j] == prev[j]);
        }
    }
}

/// The html order lists each entry once, cyclomatic entries before
/// cognitive ones.
pub proof fn lemma_complexity_order(keys: Seq<Complexity>)
    requires
        keys.len() <= usize::MAX,
    ensures
        complexity_order(keys).len() == keys.len(),
        forall|k: int|
            0 <= k < complexity_order(keys).len() ==> (#[trigger] complexity_order(keys)[k])
                < keys.len(),
        forall|i: int, j: int|
            0 <= i < j < complexity_order(keys).len() ==> #[trigger] complexity_order(keys)[i]
                != #[trigger] complexity_order(keys)[j] && complexity_rank(
                keys[complexity_order(keys)[i] as int],
            ) <= complexity_rank(keys[complexity_order(keys)[j] as int]),
{
    let n = keys.len() as int;
    lemma_indices_with(keys, n);
    let a = indices_with(keys, n, Complexity::Cyclomatic);
    let b = indices_with(keys, n, Complexity::Cognitive);
    let r = complexity_order(keys);
    assert forall|k: int| 0 <= k < r.len() implies (#[trigger] r[k]) < keys.len()
        && keys[r[k] as int] == (if k < a.len() { Complexity::Cyclomatic } else { Complexity::Cognitive }) by {
        if k < a.len() {
            assert(r[k] == a[k]);
        } else {
            assert(r[k] == b[k - a.len()]);
        }
    }
    assert forall|i: int, j: int| 0 <= i < j < r.len() implies #[trigger] r[i] != #[trigger] r[j]
        && complexity_rank(keys[r[i] as int]) <= complexity_rank(keys[r[j] as int]) by {
        if j < a.len() {
            assert(r[i] == a[i] && r[j] == a[j]);
        } else if i >= a.len() {
            assert(r[i] == b[i - a.len()] && r[j] == b[j - a.len()]);
        } else {
            assert(keys[r[i] as int] == Complexity::Cyclomatic);
            assert(keys[r[j] as int] == Complexity::Cognitive);
        }
    }
}

/// The metrics of the entries of `snippets`, in order.
pub open spec fn entry_complexities(snippets: Snippets) -> Seq<Complexity> {
    snippets.snippets@.map_values(|e: crate::snippets::ComplexitySnippets| e.complexity)
}

/// The indices of the entries of `snippets` of metric `c`, in order.
fn entries_with(snippets: &Snippets, c: Complexity, out: &mut Vec<usize>)
    ensures
        final(out)@ == old(out)@ + indices_with(
            entry_complexities(*snippets),
            snippets.snippets@.len() as int,
            c,
        ),
{
    let ghost keys = entry_complexities(*snippets);
    let ghost start = out@;
    let mut i: usize = 0;
    while i < snippets.snippets.len()
        invariant
            i <= snippets.snippets@.len(),
            keys == entry_complexities(*snippets),
            out@ == start + indices_with(keys, i as int, c),
        decreases snippets.snippets@.len() - i,
    {
        if snippets.snippets[i].complexity == c {
            out.push(i);
        }
        i = i + 1;
    }
}

impl Snippets {
    /// The order in which the html output shows the entries: sorted by
    /// metric, cyclomatic first, entries of one metric in their order.
    pub fn html_order(&self) -> (r: Vec<usize>)
        ensures
            r@ == complexity_order(entry_complexities(*self)),
    {
        let mut r: Vec<usize> = Vec::new();
        entries_with(self, Complexity::Cyclomatic, &mut r);
        entries_with(self, Complexity::Cognitive, &mut r);
        r
    }
}

} // verus!
