//! The gateway's memory: Markdown files below a base directory, reached by paths
//! that cannot leave it, and searched without regard to case.
use crate::bytes;
use crate::bytes::{index_at, text_bytes};
use crate::order;
use crate::order::{sort_by_key, Keyed};
use crate::text;
use crate::text::{after_prefix, begins_with, find_from, from_chars, occurs_in, prefix_chars, to_chars, trimmed_start_of};
use vstd::prelude::*;

verus! {

/// The base directory where none is configured.
pub open spec fn default_dir() -> Seq<char> {
    "./memory"@
}

/// The base directory, given the value of `MEMORY_DIR`.
pub fn memory_dir(configured: Option<String>) -> (dir: String)
    ensures
        dir@ == (match configured {
            Some(d) => d@,
            None => default_dir(),
        }),
{
    match configured {
        Some(d) => d,
        None => "./memory".to_owned(),
    }
}

/// A path that was rejected because it could lead out of the base directory.
#[derive(Debug, Clone)]
pub struct PathError {
    pub path: String,
}

impl PathError {
    /// What is told of the rejection.
    pub fn message(&self) -> (r: String)
        ensures
            r@ == "Path traversal rejected: "@ + self.path@,
    {
        let mut r = "Path traversal rejected: ".to_owned();
        r.append(self.path.as_str());
        r
    }
}

/// Whether a path starts at the root of the file system.
pub open spec fn is_absolute(path: Seq<char>) -> bool {
    path.len() > 0 && path[0] == '/'
}

/// A path below a directory, with one separator between the two.
pub open spec fn join_path(base: Seq<char>, path: Seq<char>) -> Seq<char> {
    if base.len() == 0 || base.last() == '/' {
        base + path
    } else {
        base.push('/') + path
    }
}

/// Where a path leads: an absolute one passes through, another starts at `base`.
pub open spec fn located(base: Seq<char>, path: Seq<char>) -> Seq<char> {
    if is_absolute(path) {
        path
    } else {
        join_path(base, path)
    }
}

/// Whether a path may lead upwards.
pub open spec fn climbs(path: Seq<char>) -> bool {
    text::contains(path, ".."@)
}

/// The file that a path stands for. A path that holds `..` is rejected.
pub fn resolve_path(base: &str, path: &str) -> (r: Result<String, PathError>)
    ensures
        match r {
            Ok(full) => !climbs(path@) && full@ == located(base@, path@),
            Err(e) => climbs(path@) && e.path@ == path@,
        },
{
    if occurs_in(path, "..") {
        return Err(PathError { path: path.to_owned() });
    }
    proof {
        reveal_strlit("/");
        assert(path@.len() > 0 ==> path@.take(1) =~= seq![path@[0]]);
        assert("/"@ =~= seq!['/']);
    }
    if begins_with(path, "/") {
        assert(path@.take(1)[0] == '/');
        return Ok(path.to_owned());
    }
    let chars = to_chars(base);
    let mut full = base.to_owned();
    if chars.len() > 0 && chars[chars.len() - 1] != '/' {
        full.push('/');
    }
    full.append(path);
    Ok(full)
}

/// A resolved path does not lead upwards, unless the base directory does.
pub proof fn law_no_traversal(base: Seq<char>, path: Seq<char>)
    requires
        !climbs(base),
        !climbs(path),
    ensures
        !climbs(located(base, path)),
{
    let full = located(base, path);
    law_two_dots_climb(full);
    law_two_dots_climb(base);
    law_two_dots_climb(path);
    if !is_absolute(path) && climbs(full) {
        let i = choose|i: int|
            0 <= i && i + 1 < full.len() && #[trigger] full[i] == '.' && full[i + 1] == '.';
        let head = full.len() - path.len();
        if i >= head {
            assert(path[i - head] == full[i] && path[i - head + 1] == full[i + 1]);
        } else if i + 2 <= base.len() {
            assert(base[i] == full[i] && base[i + 1] == full[i + 1]);
        } else if base.len() > 0 && base.last() == '/' {
            assert(full[base.len() - 1] == '/');
        } else if base.len() > 0 {
            assert(full[base.len() as int] == '/');
        }
    }
}

/// A relative path stays below the base directory.
pub proof fn law_stays_below_base(base: Seq<char>, path: Seq<char>)
    requires
        !is_absolute(path),
    ensures
        text::starts_with(located(base, path), base),
{
    assert(located(base, path).take(base.len() as int) =~= base);
}

/// What a walk over the memory does with an entry of a directory.
#[derive(Debug, Clone, Copy, PartialEq, Eq, Structural)]
pub enum Visit {
    /// Walk the directory.
    Descend,
    /// Read the file.
    Read,
    /// Leave it alone.
    Pass,
}

/// Whether a file name has the extension `md`.
pub open spec fn is_markdown(name: Seq<char>) -> bool {
    name.len() > 3 && name.skip(name.len() - 3) == ".md"@
}

/// What a walk does with an entry of that name.
pub fn visit(is_dir: bool, name: &str) -> (v: Visit)
    ensures
        v == (if is_dir {
            Visit::Descend
        } else if is_markdown(name@) {
            Visit::Read
        } else {
            Visit::Pass
        }),
{
    if is_dir {
        return Visit::Descend;
    }
    let chars = to_chars(name);
    let n: usize = chars.len();
    proof {
        reveal_strlit(".md");
    }
    if n > 3 && chars[n - 3] == '.' && chars[n - 2] == 'm' && chars[n - 1] == 'd' {
        assert(name@.skip(name@.len() - 3) =~= ".md"@);
        Visit::Read
    } else {
        assert(name@.len() > 3 ==> name@.skip(name@.len() - 3)[0] == name@[name@.len() - 3]
            && name@.skip(name@.len() - 3)[1] == name@[name@.len() - 2] && name@.skip(
            name@.len() - 3,
        )[2] == name@[name@.len() - 1]);
        Visit::Pass
    }
}

/// A Markdown file that a walk has read.
#[derive(Debug, Clone)]
pub struct MemoryFile {
    pub path: String,
    pub content: String,
}

#[verifier::ext_equal]
pub struct FileView {
    pub path: Seq<char>,
    pub content: Seq<char>,
}

impl View for MemoryFile {
    type V = FileView;

    open spec fn view(&self) -> FileView {
        FileView { path: self.path@, content: self.content@ }
    }
}

/// A file in which a search has found something, and the text around it.
#[derive(Debug, Clone)]
pub struct SearchMatch {
    pub path: String,
    pub snippet: String,
}

#[verifier::ext_equal]
pub struct MatchView {
    pub path: Seq<char>,
    pub snippet: Seq<char>,
}

impl View for SearchMatch {
    type V = MatchView;

    open spec fn view(&self) -> MatchView {
        MatchView { path: self.path@, snippet: self.snippet@ }
    }
}

impl Keyed for SearchMatch {
    open spec fn key(v: MatchView) -> Seq<char> {
        v.path
    }

    fn key_text(&self) -> (r: &str) {
        self.path.as_str()
    }
}

/// A text in lower case.
pub uninterp spec fn lowercase(s: Seq<char>) -> Seq<char>;

/// An ASCII letter in lower case; any other character as it is.
pub open spec fn ascii_lower_char(c: char) -> char {
    if 'A' <= c <= 'Z' {
        (c as u32 - 'A' as u32 + 'a' as u32) as char
    } else {
        c
    }
}

/// An ASCII text in lower case, letter by letter.
pub open spec fn ascii_lower(s: Seq<char>) -> Seq<char> {
    s.map_values(|c: char| ascii_lower_char(c))
}

/// `str::to_lowercase` of the standard library: a function of the text alone, named
/// `lowercase`. Of an ASCII text, each letter from `A` to `Z` becomes the one from `a` to
/// `z`, and the rest stays.
#[verifier::external_body]
pub(crate) fn lowered(s: &str) -> (r: String)
    ensures
        r@ == lowercase(s@),
        vstd::utf8::is_ascii_chars(s@) ==> r@ == ascii_lower(s@),
{
    s.to_lowercase()
}

/// The byte offset at which a snippet begins, for a match at `pos`.
pub open spec fn snippet_start(pos: nat, radius: nat) -> nat {
    if pos > radius / 2 {
        (pos - radius / 2) as nat
    } else {
        0
    }
}

/// The byte offset at which a snippet ends, for a match of `len` bytes at `pos`.
pub open spec fn snippet_end(pos: nat, len: nat, radius: nat, total: nat) -> nat {
    if pos + len + radius / 2 < total {
        pos + len + radius / 2
    } else {
        total
    }
}

/// The byte offset of the character at the index `k`.
pub open spec fn byte_offset(s: Seq<char>, k: int) -> nat {
    text::byte_len(s.take(k))
}

/// Whether a snippet can be cut out: the offsets that were found in the lower-case
/// text lie between characters of the text itself, and no sum leaves `usize`.
pub open spec fn snippet_fits(
    content: Seq<char>,
    query: Seq<char>,
    lower: Seq<char>,
    lower_query: Seq<char>,
    radius: nat,
) -> bool {
    match text::find(lower, lower_query) {
        Some(k) => {
            let pos = byte_offset(lower, k);
            let start = snippet_start(pos, radius);
            let end = snippet_end(pos, text::byte_len(query), radius, text::byte_len(content));
            &&& pos + text::byte_len(query) + radius / 2 <= usize::MAX
            &&& start <= end
            &&& bytes::char_index(content, start) is Some
            &&& bytes::char_index(content, end) is Some
        },
        None => radius * 2 <= usize::MAX,
    }
}

/// The text around the first match, with an ellipsis where it is cut off; where
/// nothing matches, the start of the text.
pub open spec fn snippet_of(
    content: Seq<char>,
    query: Seq<char>,
    lower: Seq<char>,
    lower_query: Seq<char>,
    radius: nat,
) -> Seq<char> {
    match text::find(lower, lower_query) {
        Some(k) => {
            let pos = byte_offset(lower, k);
            let total = text::byte_len(content);
            let start = snippet_start(pos, radius);
            let end = snippet_end(pos, text::byte_len(query), radius, total);
            (if start > 0 {
                "…"@
            } else {
                Seq::empty()
            }) + bytes::byte_slice(content, start, end) + (if end < total {
                "…"@
            } else {
                Seq::empty()
            })
        },
        None => text::first_chars(content, radius * 2),
    }
}

/// Where a snippet begins and ends, and whether the text goes on before and after it.
struct Cut {
    from: usize,
    to: usize,
    before: bool,
    after: bool,
}

/// The cut for a match at the byte offset `pos`, where it falls between characters.
fn cut(content: &str, query: &str, pos: usize, radius: usize) -> (r: Option<Cut>)
    ensures
        ({
            let total = text::byte_len(content@);
            let start = snippet_start(pos as nat, radius as nat);
            let end = snippet_end(pos as nat, text::byte_len(query@), radius as nat, total);
            match r {
                Some(c) => {
                    &&& pos + text::byte_len(query@) + radius / 2 <= usize::MAX
                    &&& start <= end
                    &&& bytes::char_index(content@, start) == Some(c.from as int)
                    &&& bytes::char_index(content@, end) == Some(c.to as int)
                    &&& c.before == (start > 0)
                    &&& c.after == (end < total)
                    &&& c.from <= c.to <= content@.len()
                },
                None => {
                    ||| pos + text::byte_len(query@) + radius / 2 > usize::MAX
                    ||| start > end
                    ||| bytes::char_index(content@, start) is None
                    ||| bytes::char_index(content@, end) is None
                },
            }
        }),
{
    let total = text_bytes(content);
    let len = text_bytes(query);
    let half: usize = radius / 2;
    if len > usize::MAX - pos || half > usize::MAX - pos - len {
        return None;
    }
    let start: usize = if pos > half {
        pos - half
    } else {
        0
    };
    let end: usize = if pos + len + half < total {
        pos + len + half
    } else {
        total
    };
    if start > end {
        return None;
    }
    match index_at(content, start) {
        Some(from) => match index_at(content, end) {
            Some(to) => {
                proof {
                    bytes::lemma_char_index_monotone(content@, start as nat, end as nat);
                }
                Some(Cut { from, to, before: start > 0, after: end < total })
            },
            None => None,
        },
        None => None,
    }
}

/// Whether a snippet can be cut out, given the two texts in lower case.
pub fn can_snip(
    content: &str,
    query: &str,
    lower: &str,
    lower_query: &str,
    radius: usize,
) -> (r: bool)
    ensures
        r == snippet_fits(content@, query@, lower@, lower_query@, radius as nat),
{
    let v = to_chars(lower);
    let p = to_chars(lower_query);
    assert(v@.skip(0) =~= v@);
    match find_from(&v, &p, 0) {
        Some(k) => {
            let head = from_chars(&v, 0, k);
            assert(head@ =~= lower@.take(k as int));
            cut(content, query, text_bytes(head.as_str()), radius).is_some()
        },
        None => radius <= usize::MAX / 2,
    }
}

/// The text around the first match, given the two texts in lower case.
pub fn snippet_with(
    content: &str,
    query: &str,
    lower: &str,
    lower_query: &str,
    radius: usize,
) -> (r: String)
    requires
        snippet_fits(content@, query@, lower@, lower_query@, radius as nat),
    ensures
        r@ == snippet_of(content@, query@, lower@, lower_query@, radius as nat),
{
    let v = to_chars(lower);
    let p = to_chars(lower_query);
    assert(v@.skip(0) =~= v@);
    match find_from(&v, &p, 0) {
        Some(k) => {
            let head = from_chars(&v, 0, k);
            assert(head@ =~= lower@.take(k as int));
            let chars = to_chars(content);
            match cut(content, query, text_bytes(head.as_str()), radius) {
                Some(c) => {
                    let mut r = String::new();
                    if c.before {
                        r.append("…");
                    }
                    let snip = from_chars(&chars, c.from, c.to);
                    r.append(snip.as_str());
                    if c.after {
                        r.append("…");
                    }
                    assert(r@ =~= snippet_of(content@, query@, lower@, lower_query@, radius as nat));
                    r
                },
                None => String::new(),
            }
        },
        None => prefix_chars(content, radius * 2),
    }
}

/// The text around the first place where `content` holds `query` in any case, up to
/// half of `radius` bytes to either side.
pub fn snippet_around(content: &str, query: &str, radius: usize) -> (r: String)
    requires
        snippet_fits(content@, query@, lowercase(content@), lowercase(query@), radius as nat),
    ensures
        r@ == snippet_of(
            content@,
            query@,
            lowercase(content@),
            lowercase(query@),
            radius as nat,
        ),
{
    let lower = lowered(content);
    let lower_query = lowered(query);
    snippet_with(content, query, lower.as_str(), lower_query.as_str(), radius)
}

/// The text around the first match, or nothing where it cannot be cut out. From an ASCII
/// text it can.
pub fn checked_snippet(content: &str, query: &str, radius: usize) -> (r: Option<String>)
    ensures
        match r {
            Some(s) => snippet_fits(
                content@,
                query@,
                lowercase(content@),
                lowercase(query@),
                radius as nat,
            ) && s@ == snippet_of(
                content@,
                query@,
                lowercase(content@),
                lowercase(query@),
                radius as nat,
            ),
            None => !snippet_fits(
                content@,
                query@,
                lowercase(content@),
                lowercase(query@),
                radius as nat,
            ),
        },
        vstd::utf8::is_ascii_chars(content@) && vstd::utf8::is_ascii_chars(query@) && radius * 2
            <= usize::MAX && content@.len() + radius / 2 <= usize::MAX ==> r is Some,
        vstd::utf8::is_ascii_chars(content@) && vstd::utf8::is_ascii_chars(query@) ==> lowercase(
            content@,
        ) == ascii_lower(content@) && lowercase(query@) == ascii_lower(query@),
{
    let lower = lowered(content);
    let lower_query = lowered(query);
    proof {
        if vstd::utf8::is_ascii_chars(content@) && vstd::utf8::is_ascii_chars(query@) && radius * 2
            <= usize::MAX && content@.len() + radius / 2 <= usize::MAX {
            lemma_ascii_fits(content@, query@, radius as nat);
        }
    }
    if can_snip(content, query, lower.as_str(), lower_query.as_str(), radius) {
        Some(snippet_around(content, query, radius))
    } else {
        None
    }
}

/// A path as seen from the base directory; one that does not lie below it is left as
/// it is.
pub open spec fn relative(base: Seq<char>, path: Seq<char>) -> Seq<char> {
    match text::strip_prefix(path, base) {
        Some(rest) => if base.len() > 0 && (base.last() == '/' || rest.len() == 0 || rest[0]
            == '/') {
            text::trim_start_of(rest, '/')
        } else {
            path
        },
        None => path,
    }
}

/// A path as seen from the base directory.
pub fn relative_path(base: &str, path: &str) -> (r: String)
    ensures
        r@ == relative(base@, path@),
{
    let top = to_chars(base);
    match after_prefix(path, base) {
        Some(rest) => {
            let v = to_chars(rest.as_str());
            if top.len() > 0 && (top[top.len() - 1] == '/' || v.len() == 0 || v[0] == '/') {
                trimmed_start_of(rest.as_str(), '/')
            } else {
                path.to_owned()
            }
        },
        None => path.to_owned(),
    }
}

/// What lies below the base directory is seen from it by its own path.
pub proof fn law_relative_undoes_join(base: Seq<char>, path: Seq<char>)
    requires
        base.len() > 0,
        !is_absolute(path),
    ensures
        relative(base, join_path(base, path)) == path,
{
    let full = join_path(base, path);
    assert(full.take(base.len() as int) =~= base);
    let rest = full.skip(base.len() as int);
    if base.last() == '/' {
        assert(rest =~= path);
    } else {
        assert(rest.drop_first() =~= path);
        assert(rest[0] == '/');
        assert(text::trim_start_of(rest, '/') == text::trim_start_of(rest.drop_first(), '/'));
    }
}

/// How far the snippets of a search reach.
pub const SEARCH_RADIUS: usize = 120;

/// Whether a search finds a file, given its content and the query in lower case.
pub open spec fn is_hit(lower: Seq<char>, lower_query: Seq<char>) -> bool {
    text::contains(lower, lower_query)
}

/// Whether a search gets through a file: it finds nothing there, or can cut out the
/// snippet.
pub open spec fn searchable(
    file: FileView,
    query: Seq<char>,
    lower: Seq<char>,
    lower_query: Seq<char>,
) -> bool {
    is_hit(lower, lower_query) ==> snippet_fits(
        file.content,
        query,
        lower,
        lower_query,
        SEARCH_RADIUS as nat,
    )
}

/// What a search finds in a file.
pub open spec fn match_of(
    base: Seq<char>,
    file: FileView,
    query: Seq<char>,
    lower: Seq<char>,
    lower_query: Seq<char>,
) -> Option<MatchView> {
    if is_hit(lower, lower_query) {
        Some(
            MatchView {
                path: relative(base, file.path),
                snippet: snippet_of(
                    file.content,
                    query,
                    lower,
                    lower_query,
                    SEARCH_RADIUS as nat,
                ),
            },
        )
    } else {
        None
    }
}

/// What a search finds in a file, given its content and the query in lower case.
pub fn file_match(
    base: &str,
    file: &MemoryFile,
    query: &str,
    lower: &str,
    lower_query: &str,
) -> (r: Option<SearchMatch>)
    requires
        searchable(file@, query@, lower@, lower_query@),
    ensures
        text::opt_view(r) == match_of(base@, file@, query@, lower@, lower_query@),
{
    if occurs_in(lower, lower_query) {
        Some(
            SearchMatch {
                path: relative_path(base, file.path.as_str()),
                snippet: snippet_with(
                    file.content.as_str(),
                    query,
                    lower,
                    lower_query,
                    SEARCH_RADIUS,
                ),
            },
        )
    } else {
        None
    }
}

/// Whether a search gets through a file.
pub open spec fn passable(file: FileView, query: Seq<char>) -> bool {
    searchable(file, query, lowercase(file.content), lowercase(query))
}

/// What a search finds in the files, in the order in which they were read.
pub open spec fn found(base: Seq<char>, files: Seq<FileView>, query: Seq<char>) -> Seq<MatchView>
    decreases files.len(),
{
    if files.len() == 0 {
        Seq::empty()
    } else {
        let before = found(base, files.drop_last(), query);
        let last = files.last();
        match match_of(base, last, query, lowercase(last.content), lowercase(query)) {
            Some(m) => before.push(m),
            None => before,
        }
    }
}

/// Searches the files that a walk has read for `query`, in any case. The matches come
/// in the order of their paths.
pub fn search_memory(base: &str, files: &Vec<MemoryFile>, query: &str) -> (r: Vec<SearchMatch>)
    requires
        forall|i: int| 0 <= i < files@.len() ==> passable(#[trigger] files@[i]@, query@),
    ensures
        order::sorted_from::<SearchMatch>(
            found(base@, text::views(files@), query@),
            text::views(r@),
        ),
{
    let lower_query = lowered(query);
    let mut matches: Vec<SearchMatch> = Vec::new();
    let mut i: usize = 0;
    let ghost all = text::views(files@);
    assert(text::views(matches@) =~= found(base@, all.take(0), query@));
    while i < files.len()
        invariant
            i <= files@.len(),
            all == text::views(files@),
            lower_query@ == lowercase(query@),
            forall|k: int| 0 <= k < files@.len() ==> passable(#[trigger] files@[k]@, query@),
            text::views(matches@) == found(base@, all.take(i as int), query@),
        decreases files@.len() - i,
    {
        let file = &files[i];
        let lower = lowered(file.content.as_str());
        let ghost before = matches@;
        proof {
            assert(passable(files@[i as int]@, query@));
            assert(all.take(i + 1).drop_last() =~= all.take(i as int));
            assert(all.take(i + 1).last() == file@);
        }
        match file_match(base, file, query, lower.as_str(), lower_query.as_str()) {
            Some(m) => {
                let ghost v = m@;
                matches.push(m);
                assert(text::views(matches@) =~= text::views(before).push(v));
            },
            None => {},
        }
        i = i + 1;
    }
    assert(all.take(i as int) =~= all);
    sort_by_key(matches)
}

/// Whether a file holds an ASCII text, and one that leaves room for the sums of a search.
pub open spec fn plain_file(file: FileView) -> bool {
    vstd::utf8::is_ascii_chars(file.content) && file.content.len() + SEARCH_RADIUS / 2
        <= usize::MAX
}

/// Searches the files, or returns nothing where the snippet of some match cannot be
/// cut out. That does not happen in ASCII texts.
pub fn checked_search(base: &str, files: &Vec<MemoryFile>, query: &str) -> (r: Option<
    Vec<SearchMatch>,
>)
    ensures
        match r {
            Some(m) => (forall|i: int|
                0 <= i < files@.len() ==> passable(#[trigger] files@[i]@, query@))
                && order::sorted_from::<SearchMatch>(
                found(base@, text::views(files@), query@),
                text::views(m@),
            ),
            None => exists|i: int|
                0 <= i < files@.len() && !passable(#[trigger] files@[i]@, query@),
        },
        vstd::utf8::is_ascii_chars(query@) && (forall|i: int|
            0 <= i < files@.len() ==> plain_file(#[trigger] files@[i]@)) ==> r is Some,
{
    let lower_query = lowered(query);
    let mut i: usize = 0;
    while i < files.len()
        invariant
            i <= files@.len(),
            lower_query@ == lowercase(query@),
            vstd::utf8::is_ascii_chars(query@) ==> lower_query@ == ascii_lower(query@),
            forall|k: int| 0 <= k < i ==> passable(#[trigger] files@[k]@, query@),
        decreases files@.len() - i,
    {
        let content = files[i].content.as_str();
        let lower = lowered(content);
        proof {
            if vstd::utf8::is_ascii_chars(query@) && plain_file(files@[i as int]@) {
                lemma_ascii_fits(content@, query@, SEARCH_RADIUS as nat);
            }
        }
        if occurs_in(lower.as_str(), lower_query.as_str()) && !can_snip(
            content,
            query,
            lower.as_str(),
            lower_query.as_str(),
            SEARCH_RADIUS,
        ) {
            assert(!passable(files@[i as int]@, query@));
            return None;
        }
        i = i + 1;
    }
    Some(search_memory(base, files, query))
}

/// A search finds every file that holds the query in some case, and no other.
pub proof fn law_search_is_complete(
    base: Seq<char>,
    files: Seq<FileView>,
    query: Seq<char>,
    r: Seq<MatchView>,
    m: MatchView,
)
    requires
        order::sorted_from::<SearchMatch>(found(base, files, query), r),
    ensures
        r.contains(m) <==> exists|i: int|
            0 <= i < files.len() && match_of(
                base,
                #[trigger] files[i],
                query,
                lowercase(files[i].content),
                lowercase(query),
            ) == Some(m),
{
    order::law_order_keeps_elements::<SearchMatch>(found(base, files, query), r, m);
    lemma_found(base, files, query, m);
}

proof fn lemma_found(base: Seq<char>, files: Seq<FileView>, query: Seq<char>, m: MatchView)
    ensures
        found(base, files, query).contains(m) <==> exists|i: int|
            0 <= i < files.len() && match_of(
                base,
                #[trigger] files[i],
                query,
                lowercase(files[i].content),
                lowercase(query),
            ) == Some(m),
    decreases files.len(),
{
    if files.len() > 0 {
        let before = files.drop_last();
        let last = files.last();
        let head = found(base, before, query);
        let all = found(base, files, query);
        lemma_found(base, before, query, m);
        let hit = match_of(base, last, query, lowercase(last.content), lowercase(query));
        if hit == Some(m) {
            assert(all.last() == m);
            assert(all.contains(m));
            assert(files[files.len() - 1] == last);
        } else if head.contains(m) {
            assert(all[head.index_of(m)] == m);
            let i = choose|i: int|
                0 <= i < before.len() && match_of(
                    base,
                    #[trigger] before[i],
                    query,
                    lowercase(before[i].content),
                    lowercase(query),
                ) == Some(m);
            assert(files[i] == before[i]);
        } else {
            if all.contains(m) {
                let j = all.index_of(m);
                if j < head.len() {
                    assert(head[j] == m);
                } else {
                    assert(hit == Some(all[j]));
                }
            }
            assert forall|i: int|
                0 <= i < files.len() implies match_of(
                    base,
                    #[trigger] files[i],
                    query,
                    lowercase(files[i].content),
                    lowercase(query),
                ) != Some(m) by {
                if i < before.len() {
                    assert(before[i] == files[i]);
                }
            }
        }
    }
}

/// In ASCII texts a match can be cut out, and the snippet holds it.
pub proof fn law_snippet_holds_match(
    content: Seq<char>,
    query: Seq<char>,
    lower: Seq<char>,
    lower_query: Seq<char>,
    radius: nat,
)
    requires
        vstd::utf8::is_ascii_chars(content),
        vstd::utf8::is_ascii_chars(query),
        vstd::utf8::is_ascii_chars(lower),
        lower.len() == content.len(),
        lower_query.len() == query.len(),
        text::find(lower, lower_query) is Some,
        content.len() + radius / 2 <= usize::MAX,
    ensures
        snippet_fits(content, query, lower, lower_query, radius),
        ({
            let k = text::find(lower, lower_query)->0;
            text::contains(
                snippet_of(content, query, lower, lower_query, radius),
                content.subrange(k, k + query.len()),
            )
        }),
{
    let k = text::find(lower, lower_query)->0;
    text::lemma_find_bounds(lower, lower_query);
    let head = lower.take(k);
    assert forall|i: int| 0 <= i < head.len() implies '\0' <= #[trigger] head[i] <= '\u{7f}' by {
        assert(head[i] == lower[i]);
    }
    bytes::lemma_char_index_ascii(head, 0);
    bytes::lemma_char_index_ascii(query, 0);
    let start = snippet_start(k as nat, radius);
    let end = snippet_end(k as nat, query.len(), radius, content.len());
    bytes::lemma_char_index_ascii(content, start);
    bytes::lemma_char_index_ascii(content, end);
    let snip = snippet_of(content, query, lower, lower_query, radius);
    let hit = content.subrange(k, k + query.len());
    let cut = content.subrange(start as int, end as int);
    let lead: Seq<char> = if start > 0 {
        "…"@
    } else {
        Seq::empty()
    };
    let at = lead.len() + k - start;
    assert(snip.subrange(at, at + hit.len()) =~= hit) by {
        assert forall|i: int| 0 <= i < hit.len() implies snip[at + i] == hit[i] by {
            assert(snip[at + i] == cut[k - start + i]);
        }
    }
    text::lemma_found_at(snip, hit, at);
}

proof fn lemma_ascii_lower(s: Seq<char>)
    requires
        vstd::utf8::is_ascii_chars(s),
    ensures
        vstd::utf8::is_ascii_chars(ascii_lower(s)),
        ascii_lower(s).len() == s.len(),
{
    assert forall|i: int| 0 <= i < s.len() implies '\0' <= #[trigger] ascii_lower(s)[i]
        <= '\u{7f}' by {
        assert('\0' <= s[i] <= '\u{7f}');
    }
}

/// The snippet of an ASCII text can be cut out.
proof fn lemma_ascii_fits(content: Seq<char>, query: Seq<char>, radius: nat)
    requires
        vstd::utf8::is_ascii_chars(content),
        vstd::utf8::is_ascii_chars(query),
        radius * 2 <= usize::MAX,
        content.len() + radius / 2 <= usize::MAX,
    ensures
        snippet_fits(content, query, ascii_lower(content), ascii_lower(query), radius),
{
    lemma_ascii_lower(content);
    lemma_ascii_lower(query);
    if text::find(ascii_lower(content), ascii_lower(query)) is Some {
        law_snippet_holds_match(
            content,
            query,
            ascii_lower(content),
            ascii_lower(query),
            radius,
        );
    }
}

// Paths, searches and snippets, told by the texts themselves.

/// A path leads upwards exactly when two dots stand in it side by side.
pub proof fn law_two_dots_climb(path: Seq<char>)
    ensures
        climbs(path) <==> exists|i: int|
            0 <= i && i + 1 < path.len() && #[trigger] path[i] == '.' && path[i + 1] == '.',
{
    reveal_strlit("..");
    text::law_find(path, ".."@);
    if climbs(path) {
        let i = choose|i: int|
            0 <= i && i + ".."@.len() <= path.len() && #[trigger] path.subrange(
                i,
                i + ".."@.len(),
            ) == ".."@;
        assert(path.subrange(i, i + 2)[0] == path[i]);
        assert(path.subrange(i, i + 2)[1] == path[i + 1]);
    }
    if exists|i: int|
        0 <= i && i + 1 < path.len() && #[trigger] path[i] == '.' && path[i + 1] == '.' {
        let i = choose|i: int|
            0 <= i && i + 1 < path.len() && #[trigger] path[i] == '.' && path[i + 1] == '.';
        assert(path.subrange(i, i + 2) =~= ".."@);
        text::lemma_found_at(path, ".."@, i);
    }
}

/// An absolute path leads where it says. Any other starts at the base directory, with one
/// separator between the two.
pub proof fn law_where_a_path_leads(base: Seq<char>, path: Seq<char>)
    ensures
        located(base, seq!['/'] + path) == seq!['/'] + path,
        path.len() == 0 || path[0] != '/' ==> {
            &&& located(base.push('/'), path) == base.push('/') + path
            &&& located(Seq::empty(), path) == path
            &&& base.len() > 0 && base.last() != '/' ==> located(base, path) == base + seq!['/']
                + path
        },
        default_dir() == "./memory"@,
{
    let full = seq!['/'] + path;
    assert(full[0] == '/');
    assert(Seq::<char>::empty() + path =~= path);
    assert(base.push('/') + path =~= base + seq!['/'] + path);
}

/// A file is a Markdown file exactly when its name ends with the extension and is more
/// than that.
pub proof fn law_markdown(name: Seq<char>)
    ensures
        ({
            let n = name.len() as int;
            is_markdown(name) <==> n > 3 && name[n - 3] == '.' && name[n - 2] == 'm' && name[n - 1]
                == 'd'
        }),
{
    reveal_strlit(".md");
    let n = name.len() as int;
    if n > 3 {
        let end = name.skip(n - 3);
        assert(end[0] == name[n - 3] && end[1] == name[n - 2] && end[2] == name[n - 1]);
        if name[n - 3] == '.' && name[n - 2] == 'm' && name[n - 1] == 'd' {
            assert(end =~= ".md"@);
        }
    }
}

/// What does not lie below the base directory keeps its path.
pub proof fn law_path_elsewhere_is_kept(base: Seq<char>, path: Seq<char>, rest: Seq<char>)
    ensures
        (forall|tail: Seq<char>| path != #[trigger] (base + tail)) ==> relative(base, path) == path,
        base.len() > 0 && base.last() != '/' && rest.len() > 0 && rest[0] != '/' ==> relative(
            base,
            base + rest,
        ) == base + rest,
{
    text::law_strip_prefix(path, base, path.skip(base.len() as int));
    text::law_strip_prefix(base + rest, base, rest);
    if text::starts_with(path, base) {
        assert(path == base + path.skip(base.len() as int));
    }
}

/// What a search says of a file that it finds: where the file is, seen from the base, and
/// the text around the match.
pub open spec fn sighting(base: Seq<char>, file: FileView, query: Seq<char>) -> MatchView {
    MatchView {
        path: relative(base, file.path),
        snippet: snippet_of(
            file.content,
            query,
            lowercase(file.content),
            lowercase(query),
            120,
        ),
    }
}

/// The sightings of the files whose whole content, in lower case, holds the query in lower
/// case at some place.
pub open spec fn sightings(base: Seq<char>, files: Seq<FileView>, query: Seq<char>) -> Seq<
    MatchView,
>
    decreases files.len(),
{
    if files.len() == 0 {
        Seq::empty()
    } else {
        let before = sightings(base, files.drop_last(), query);
        if text::stands_in(lowercase(query), lowercase(files.last().content)) {
            before.push(sighting(base, files.last(), query))
        } else {
            before
        }
    }
}

proof fn lemma_sightings(base: Seq<char>, files: Seq<FileView>, query: Seq<char>)
    ensures
        found(base, files, query) == sightings(base, files, query),
    decreases files.len(),
{
    if files.len() > 0 {
        lemma_sightings(base, files.drop_last(), query);
        text::law_find(lowercase(files.last().content), lowercase(query));
    }
}

/// A search finds the files that hold the query, in any case and anywhere in them, and no
/// others. The matches are those of these files, each as often as there is such a file, in
/// the order of their paths; matches with one path come in the order of the files.
pub proof fn law_search_finds_what_holds_the_query(
    base: Seq<char>,
    files: Seq<FileView>,
    query: Seq<char>,
    r: Seq<MatchView>,
    m: MatchView,
)
    requires
        order::sorted_from::<SearchMatch>(found(base, files, query), r),
    ensures
        r.contains(m) <==> exists|i: int|
            {
                &&& 0 <= i < files.len()
                &&& text::stands_in(lowercase(query), lowercase((#[trigger] files[i]).content))
                &&& m == sighting(base, files[i], query)
            },
        order::times(r, m) == order::times(sightings(base, files, query), m),
        forall|i: int, j: int|
            0 <= i < j < r.len() ==> order::text_le(
                (#[trigger] r[i]).path,
                (#[trigger] r[j]).path,
            ),
        order::those_with_key::<SearchMatch>(r, m.path) == order::those_with_key::<SearchMatch>(
            sightings(base, files, query),
            m.path,
        ),
        SearchMatch::key(m) == m.path,
{
    lemma_sightings(base, files, query);
    order::law_order_keeps_elements::<SearchMatch>(found(base, files, query), r, m);
    order::law_order_sorts::<SearchMatch>(found(base, files, query), r, m, m.path);
    lemma_sighted(base, files, query, m);
    assert forall|i: int, j: int| 0 <= i < j < r.len() implies order::text_le(
        (#[trigger] r[i]).path,
        (#[trigger] r[j]).path,
    ) by {
        assert(order::text_le(SearchMatch::key(r[i]), SearchMatch::key(r[j])));
    }
}

proof fn lemma_sighted(base: Seq<char>, files: Seq<FileView>, query: Seq<char>, m: MatchView)
    ensures
        sightings(base, files, query).contains(m) <==> exists|i: int|
            {
                &&& 0 <= i < files.len()
                &&& text::stands_in(lowercase(query), lowercase((#[trigger] files[i]).content))
                &&& m == sighting(base, files[i], query)
            },
    decreases files.len(),
{
    if files.len() > 0 {
        let low = files.drop_last();
        let last = files.last();
        let before = sightings(base, low, query);
        let all = sightings(base, files, query);
        let hit = text::stands_in(lowercase(query), lowercase(last.content));
        lemma_sighted(base, low, query, m);
        assert(files[files.len() - 1] == last);
        if before.contains(m) {
            assert(all[before.index_of(m)] == m);
            let i = choose|i: int|
                {
                    &&& 0 <= i < low.len()
                    &&& text::stands_in(lowercase(query), lowercase((#[trigger] low[i]).content))
                    &&& m == sighting(base, low[i], query)
                };
            assert(files[i] == low[i]);
        }
        if hit && m == sighting(base, last, query) {
            assert(all[all.len() - 1] == m);
        }
        if all.contains(m) && !before.contains(m) {
            let j = all.index_of(m);
            if j < before.len() {
                assert(before[j] == m);
            }
        }
        assert forall|i: int|
            {
                &&& 0 <= i < files.len()
                &&& text::stands_in(lowercase(query), lowercase((#[trigger] files[i]).content))
                &&& m == sighting(base, files[i], query)
            } implies all.contains(m) by {
            if i < low.len() {
                assert(low[i] == files[i]);
            }
        }
    }
}

/// A search gets through a file exactly when the file does not hold the query or the
/// snippet can be cut out.
pub proof fn law_search_stops_at_bad_cuts_only(file: FileView, query: Seq<char>)
    ensures
        passable(file, query) <==> (text::stands_in(lowercase(query), lowercase(file.content))
            ==> snippet_fits(
            file.content,
            query,
            lowercase(file.content),
            lowercase(query),
            120,
        )),
{
    text::law_find(lowercase(file.content), lowercase(query));
}

proof fn lemma_byte_len_at_least(s: Seq<char>)
    ensures
        text::byte_len(s) >= s.len(),
    decreases s.len(),
{
    if s.len() > 0 {
        bytes::lemma_byte_len_first(s);
        bytes::lemma_width(s[0]);
        lemma_byte_len_at_least(s.drop_first());
    }
}

proof fn lemma_same_offset(s: Seq<char>, i: int, j: int)
    requires
        0 <= i <= s.len(),
        0 <= j <= s.len(),
        text::byte_len(s.take(i)) == text::byte_len(s.take(j)),
    ensures
        i == j,
{
    let low = if i < j {
        i
    } else {
        j
    };
    let high = if i < j {
        j
    } else {
        i
    };
    let between = s.subrange(low, high);
    assert(s.take(high) =~= s.take(low) + between);
    bytes::lemma_byte_len_append(s.take(low), between);
    lemma_byte_len_at_least(between);
}

/// The text around a match at the index `k` of the lower-case text is the part of the
/// content between two indices: as many bytes before the match as half the radius, and as
/// many behind it, or all that there are. An ellipsis marks each end where something is cut
/// off, and only there.
pub proof fn law_snippet_around_a_match(
    content: Seq<char>,
    query: Seq<char>,
    lower: Seq<char>,
    lower_query: Seq<char>,
    radius: nat,
    k: int,
    from: int,
    to: int,
)
    requires
        0 <= k,
        k + lower_query.len() <= lower.len(),
        lower.subrange(k, k + lower_query.len()) == lower_query,
        forall|j: int|
            0 <= j < k ==> #[trigger] lower.subrange(j, j + lower_query.len()) != lower_query,
        0 <= from <= to <= content.len(),
        ({
            let pos = text::byte_len(lower.take(k)) as int;
            let half = radius as int / 2;
            let end = pos + text::byte_len(query) + half;
            let total = text::byte_len(content) as int;
            &&& text::byte_len(content.take(from)) == (if pos > half {
                pos - half
            } else {
                0
            })
            &&& text::byte_len(content.take(to)) == (if end < total {
                end
            } else {
                total
            })
        }),
    ensures
        snippet_of(content, query, lower, lower_query, radius) == (if from > 0 {
            "…"@
        } else {
            Seq::empty()
        }) + content.subrange(from, to) + (if to < content.len() {
            "…"@
        } else {
            Seq::empty()
        }),
        snippet_fits(content, query, lower, lower_query, radius) <==> text::byte_len(
            lower.take(k),
        ) + text::byte_len(query) + radius / 2 <= usize::MAX,
{
    text::lemma_find_is(lower, lower_query, k);
    let pos = byte_offset(lower, k);
    let total = text::byte_len(content);
    let start = snippet_start(pos, radius);
    let end = snippet_end(pos, text::byte_len(query), radius, total);
    bytes::law_char_index(content, start);
    bytes::law_char_index(content, end);
    assert(text::byte_len(content.take(from)) == start);
    assert(text::byte_len(content.take(to)) == end);
    lemma_same_offset(content, from, bytes::char_index(content, start)->0);
    lemma_same_offset(content, to, bytes::char_index(content, end)->0);
    assert(content.take(content.len() as int) =~= content);
    assert(content.take(to) =~= content.take(from) + content.subrange(from, to));
    bytes::lemma_byte_len_append(content.take(from), content.subrange(from, to));
    if start == 0 {
        lemma_same_offset(content, from, 0);
    }
    if end == total {
        lemma_same_offset(content, to, content.len() as int);
    } else if to == content.len() {
        assert(content.take(to) =~= content);
    }
    assert(content.take(0) =~= Seq::empty());
}

/// A snippet cannot be cut out exactly when an end of it would lie inside a character, or
/// past the other end, or a sum would be too large.
pub proof fn law_snippet_that_cannot_be_cut(
    content: Seq<char>,
    query: Seq<char>,
    lower: Seq<char>,
    lower_query: Seq<char>,
    radius: nat,
    k: int,
)
    requires
        0 <= k,
        k + lower_query.len() <= lower.len(),
        lower.subrange(k, k + lower_query.len()) == lower_query,
        forall|j: int|
            0 <= j < k ==> #[trigger] lower.subrange(j, j + lower_query.len()) != lower_query,
        !snippet_fits(content, query, lower, lower_query, radius),
    ensures
        ({
            let pos = text::byte_len(lower.take(k)) as int;
            let half = radius as int / 2;
            let total = text::byte_len(content) as int;
            let end = pos + text::byte_len(query) + half;
            let start = if pos > half {
                pos - half
            } else {
                0
            };
            let stop = if end < total {
                end
            } else {
                total
            };
            ||| end > usize::MAX
            ||| start > stop
            ||| forall|i: int|
                0 <= i <= content.len() ==> text::byte_len(#[trigger] content.take(i)) != start
            ||| forall|i: int|
                0 <= i <= content.len() ==> text::byte_len(#[trigger] content.take(i)) != stop
        }),
{
    text::lemma_find_is(lower, lower_query, k);
    let pos = byte_offset(lower, k);
    let total = text::byte_len(content);
    let start = snippet_start(pos, radius);
    let end = snippet_end(pos, text::byte_len(query), radius, total);
    bytes::law_char_index(content, start);
    bytes::law_char_index(content, end);
}

/// Where nothing matches, the snippet is the start of the content, twice as many characters
/// as the radius or all that there are.
pub proof fn law_snippet_without_a_match(
    content: Seq<char>,
    query: Seq<char>,
    lower: Seq<char>,
    lower_query: Seq<char>,
    radius: nat,
)
    requires
        !text::stands_in(lower_query, lower),
    ensures
        snippet_of(content, query, lower, lower_query, radius) == (if 2 * radius < content.len() {
            content.take(2 * radius as int)
        } else {
            content
        }),
        snippet_fits(content, query, lower, lower_query, radius) <==> 2 * radius <= usize::MAX,
{
    text::law_find(lower, lower_query);
}

} // verus!
