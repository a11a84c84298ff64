//! Skills: what the front matter of a `SKILL.md` file says, the skills that are
//! available, and the catalog in which a model reads of them.
use crate::order;
use crate::order::{sort_by_key, Keyed};
use crate::text;
use crate::text::{
    after_prefix, find_from, from_chars, same, split_lines, to_chars, trimmed, trimmed_of,
};
use vstd::prelude::*;

verus! {

/// What the front matter of a `SKILL.md` file says.
#[derive(Debug, Clone)]
pub struct SkillMeta {
    pub name: String,
    pub description: String,
}

#[verifier::ext_equal]
pub struct MetaView {
    pub name: Seq<char>,
    pub description: Seq<char>,
}

impl View for SkillMeta {
    type V = MetaView;

    open spec fn view(&self) -> MetaView {
        MetaView { name: self.name@, description: self.description@ }
    }
}

/// A skill, and where its files are.
#[derive(Debug, Clone)]
pub struct Skill {
    pub name: String,
    pub description: String,
    /// Absolute path to the `SKILL.md` file.
    pub location: String,
    /// Absolute path to the skill directory.
    pub dir: String,
}

#[verifier::ext_equal]
pub struct SkillView {
    pub name: Seq<char>,
    pub description: Seq<char>,
    pub location: Seq<char>,
    pub dir: Seq<char>,
}

impl View for Skill {
    type V = SkillView;

    open spec fn view(&self) -> SkillView {
        SkillView {
            name: self.name@,
            description: self.description@,
            location: self.location@,
            dir: self.dir@,
        }
    }
}

impl Keyed for Skill {
    open spec fn key(v: SkillView) -> Seq<char> {
        v.name
    }

    fn key_text(&self) -> (r: &str) {
        self.name.as_str()
    }
}

/// Why a `SKILL.md` file gives no skill.
#[derive(Debug, Clone, Copy, PartialEq, Eq, Structural)]
pub enum FrontmatterError {
    NotClosed,
    Unreadable,
}

impl FrontmatterError {
    /// What is told of the error.
    pub open spec fn words(self) -> Seq<char> {
        match self {
            FrontmatterError::NotClosed => "No closing --- for frontmatter"@,
            FrontmatterError::Unreadable =>
                "Failed to parse SKILL.md frontmatter (strict and lenient)"@,
        }
    }

    /// What is told of the error.
    pub fn message(&self) -> (r: String)
        ensures
            r@ == self.words(),
    {
        match self {
            FrontmatterError::NotClosed => "No closing --- for frontmatter".to_owned(),
            FrontmatterError::Unreadable =>
                "Failed to parse SKILL.md frontmatter (strict and lenient)".to_owned(),
        }
    }
}

/// A file after the line that opens its front matter.
pub open spec fn after_opening(content: Seq<char>) -> Seq<char> {
    match text::strip_prefix(content, "---\n"@) {
        Some(body) => body,
        None => match text::strip_prefix(content, "---\r\n"@) {
            Some(body) => body,
            None => content,
        },
    }
}

/// The front matter of a file: what stands before the line that closes it.
pub open spec fn front(content: Seq<char>) -> Option<Seq<char>> {
    let body = after_opening(content);
    match text::find(body, "\n---"@) {
        Some(i) => Some(body.take(i)),
        None => None,
    }
}

/// The front matter of a file.
pub fn frontmatter(content: &str) -> (r: Option<String>)
    ensures
        text::opt_view(r) == front(content@),
{
    let body = match after_prefix(content, "---\n") {
        Some(body) => body,
        None => match after_prefix(content, "---\r\n") {
            Some(body) => body,
            None => content.to_owned(),
        },
    };
    let v = to_chars(body.as_str());
    let close = to_chars("\n---");
    assert(v@.skip(0) =~= v@);
    match find_from(&v, &close, 0) {
        Some(i) => {
            let yaml = from_chars(&v, 0, i);
            assert(yaml@ =~= body@.take(i as int));
            Some(yaml)
        },
        None => None,
    }
}

/// What a line says after its key, with or without a blank before the colon.
pub open spec fn value_after(line: Seq<char>, key: Seq<char>, spaced: Seq<char>) -> Option<
    Seq<char>,
> {
    match text::strip_prefix(line, key) {
        Some(v) => Some(v),
        None => text::strip_prefix(line, spaced),
    }
}

/// The name in a line that gives one.
pub open spec fn name_in(line: Seq<char>) -> Option<Seq<char>> {
    match value_after(line, "name:"@, "name :"@) {
        Some(v) => Some(text::trim_of(text::trim_of(text::trim(v), '"'), '\'')),
        None => None,
    }
}

/// The name that the last of the lines with a name gives.
pub open spec fn last_name(lines: Seq<Seq<char>>) -> Option<Seq<char>>
    decreases lines.len(),
{
    if lines.len() == 0 {
        None
    } else {
        match name_in(lines.last()) {
            Some(n) => Some(n),
            None => last_name(lines.drop_last()),
        }
    }
}

/// The description in a line that gives one, with the quotes around it.
pub open spec fn description_in(line: Seq<char>) -> Option<Seq<char>> {
    match value_after(line, "description:"@, "description :"@) {
        Some(v) => Some(text::trim(v)),
        None => None,
    }
}

/// The description that the first of the lines with a description gives, with the
/// quotes around it.
pub open spec fn first_description(lines: Seq<Seq<char>>) -> Option<Seq<char>>
    decreases lines.len(),
{
    if lines.len() == 0 {
        None
    } else {
        match description_in(lines[0]) {
            Some(d) => Some(d),
            None => first_description(lines.drop_first()),
        }
    }
}

/// Whether a text begins and ends with `q`.
pub open spec fn quoted_by(v: Seq<char>, q: char) -> bool {
    v.len() > 0 && v[0] == q && v.last() == q
}

/// Whether a text is one quotation mark, which opens and closes nothing.
pub open spec fn lone_quote(v: Seq<char>) -> bool {
    v.len() == 1 && (v[0] == '"' || v[0] == '\'')
}

/// A text without the quotes around it.
pub open spec fn unquoted(v: Seq<char>) -> Seq<char> {
    if quoted_by(v, '"') || quoted_by(v, '\'') {
        v.subrange(1, v.len() - 1)
    } else {
        v
    }
}

/// Whether front matter can be read line by line: its description is no lone
/// quotation mark.
pub open spec fn readable(yaml: Seq<char>) -> bool {
    match first_description(text::lines(yaml)) {
        Some(v) => !lone_quote(v),
        None => true,
    }
}

/// What front matter says when it is read line by line.
pub open spec fn lenient(yaml: Seq<char>) -> Option<MetaView> {
    let lines = text::lines(yaml);
    match (last_name(lines), first_description(lines)) {
        (Some(name), Some(v)) => if unquoted(v).len() > 0 {
            Some(MetaView { name, description: unquoted(v) })
        } else {
            None
        },
        _ => None,
    }
}

/// What a line says after its key.
fn value_of(line: &str, key: &str, spaced: &str) -> (r: Option<String>)
    ensures
        text::opt_view(r) == value_after(line@, key@, spaced@),
{
    match after_prefix(line, key) {
        Some(v) => Some(v),
        None => after_prefix(line, spaced),
    }
}

/// The name that front matter gives.
fn name_of(lines: &Vec<String>) -> (r: Option<String>)
    ensures
        text::opt_view(r) == last_name(text::views(lines@)),
{
    let ghost all = text::views(lines@);
    let mut i: usize = lines.len();
    assert(all.take(i as int) =~= all);
    while i > 0
        invariant
            i <= lines@.len(),
            all == text::views(lines@),
            last_name(all.take(i as int)) == last_name(all),
        decreases i,
    {
        assert(all.take(i as int).drop_last() =~= all.take(i - 1));
        match value_of(lines[i - 1].as_str(), "name:", "name :") {
            Some(v) => {
                let v = trimmed(v.as_str());
                let v = trimmed_of(v.as_str(), '"');
                return Some(trimmed_of(v.as_str(), '\''));
            },
            None => {},
        }
        i = i - 1;
    }
    None
}

/// The description that front matter gives, with the quotes around it.
fn description_of(lines: &Vec<String>) -> (r: Option<String>)
    ensures
        text::opt_view(r) == first_description(text::views(lines@)),
{
    let ghost all = text::views(lines@);
    let mut i: usize = 0;
    assert(all.skip(0) =~= all);
    while i < lines.len()
        invariant
            i <= lines@.len(),
            all == text::views(lines@),
            first_description(all.skip(i as int)) == first_description(all),
        decreases lines@.len() - i,
    {
        assert(all.skip(i as int).drop_first() =~= all.skip(i + 1));
        match value_of(lines[i].as_str(), "description:", "description :") {
            Some(v) => {
                return Some(trimmed(v.as_str()));
            },
            None => {},
        }
        i = i + 1;
    }
    None
}

/// Whether front matter can be read line by line.
pub fn can_read(yaml: &str) -> (r: bool)
    ensures
        r == readable(yaml@),
{
    let lines = split_lines(yaml);
    match description_of(&lines) {
        Some(v) => {
            let chars = to_chars(v.as_str());
            !(chars.len() == 1 && (chars[0] == '"' || chars[0] == '\''))
        },
        None => true,
    }
}

/// Reads the name and the description line by line. It copes with what is not quite
/// YAML, such as unquoted values that hold colons.
pub fn parse_frontmatter_lenient(yaml: &str) -> (r: Option<SkillMeta>)
    requires
        readable(yaml@),
    ensures
        text::opt_view(r) == lenient(yaml@),
{
    let lines = split_lines(yaml);
    let name = name_of(&lines);
    match description_of(&lines) {
        Some(v) => {
            let chars = to_chars(v.as_str());
            let n: usize = chars.len();
            let description = if n > 0 && ((chars[0] == '"' && chars[n - 1] == '"') || (chars[0]
                == '\'' && chars[n - 1] == '\'')) {
                from_chars(&chars, 1, n - 1)
            } else {
                v
            };
            if description.as_str().is_empty() {
                return None;
            }
            match name {
                Some(name) => Some(SkillMeta { name, description }),
                None => None,
            }
        },
        None => None,
    }
}

/// Whether the front matter of a file can be read, given what a YAML parser made of
/// it.
pub open spec fn parseable(content: Seq<char>, strict: Option<MetaView>) -> bool {
    strict is None ==> match front(content) {
        Some(yaml) => readable(yaml),
        None => true,
    }
}

/// What a file says of its skill, given what a YAML parser made of its front matter.
pub open spec fn meta_of(content: Seq<char>, strict: Option<MetaView>) -> Result<
    MetaView,
    FrontmatterError,
> {
    match front(content) {
        None => Err(FrontmatterError::NotClosed),
        Some(yaml) => match strict {
            Some(meta) => Ok(meta),
            None => match lenient(yaml) {
                Some(meta) => Ok(meta),
                None => Err(FrontmatterError::Unreadable),
            },
        },
    }
}

/// The view of a result.
pub open spec fn result_view<T: View, E>(r: Result<T, E>) -> Result<T::V, E> {
    match r {
        Ok(t) => Ok(t@),
        Err(e) => Err(e),
    }
}

/// What a file says of its skill. `strict` is what a YAML parser made of the front
/// matter, where it could; else it is read line by line.
pub fn parse_frontmatter(content: &str, strict: Option<SkillMeta>) -> (r: Result<
    SkillMeta,
    FrontmatterError,
>)
    requires
        parseable(content@, text::opt_view(strict)),
    ensures
        result_view(r) == meta_of(content@, text::opt_view(strict)),
{
    match frontmatter(content) {
        None => Err(FrontmatterError::NotClosed),
        Some(yaml) => match strict {
            Some(meta) => Ok(meta),
            None => match parse_frontmatter_lenient(yaml.as_str()) {
                Some(meta) => Ok(meta),
                None => Err(FrontmatterError::Unreadable),
            },
        },
    }
}

/// A `SKILL.md` file that was read.
#[derive(Debug, Clone)]
pub struct SkillFile {
    /// Its path, as it was found.
    pub path: String,
    pub content: String,
    /// What a YAML parser made of its front matter.
    pub strict: Option<SkillMeta>,
    pub location: String,
    pub dir: String,
}

#[verifier::ext_equal]
pub struct SkillFileView {
    pub path: Seq<char>,
    pub content: Seq<char>,
    pub strict: Option<MetaView>,
    pub location: Seq<char>,
    pub dir: Seq<char>,
}

impl View for SkillFile {
    type V = SkillFileView;

    open spec fn view(&self) -> SkillFileView {
        SkillFileView {
            path: self.path@,
            content: self.content@,
            strict: text::opt_view(self.strict),
            location: self.location@,
            dir: self.dir@,
        }
    }
}

/// The skill of a file.
pub open spec fn skill_of(file: SkillFileView) -> Result<SkillView, FrontmatterError> {
    match meta_of(file.content, file.strict) {
        Ok(meta) => Ok(
            SkillView {
                name: meta.name,
                description: meta.description,
                location: file.location,
                dir: file.dir,
            },
        ),
        Err(e) => Err(e),
    }
}

/// The skills of the files that give one, in their order.
pub open spec fn skills_in(files: Seq<SkillFileView>) -> Seq<SkillView>
    decreases files.len(),
{
    if files.len() == 0 {
        Seq::empty()
    } else {
        let before = skills_in(files.drop_last());
        match skill_of(files.last()) {
            Ok(s) => before.push(s),
            Err(_) => before,
        }
    }
}

/// What is told of a file that gives no skill.
pub open spec fn skip_notice(path: Seq<char>, e: FrontmatterError) -> Seq<char> {
    "Skipping "@ + path + ": "@ + e.words()
}

/// What is told of the files that give no skill, in their order.
pub open spec fn notices_in(files: Seq<SkillFileView>) -> Seq<Seq<char>>
    decreases files.len(),
{
    if files.len() == 0 {
        Seq::empty()
    } else {
        let before = notices_in(files.drop_last());
        match skill_of(files.last()) {
            Ok(_) => before,
            Err(e) => before.push(skip_notice(files.last().path, e)),
        }
    }
}

/// The skills of a directory, and what is told of the files that give none.
pub struct Scan {
    pub skills: Vec<Skill>,
    pub notices: Vec<String>,
}

/// The skills of the `SKILL.md` files of a directory. A file without readable front
/// matter is skipped.
pub fn scan_dir(files: Vec<SkillFile>) -> (r: Scan)
    requires
        forall|i: int|
            0 <= i < files@.len() ==> parseable(
                (#[trigger] files@[i]@).content,
                files@[i]@.strict,
            ),
    ensures
        text::views(r.skills@) == skills_in(text::views(files@)),
        text::views(r.notices@) == notices_in(text::views(files@)),
{
    let ghost all = text::views(files@);
    let mut rest = files;
    let mut skills: Vec<Skill> = Vec::new();
    let mut notices: Vec<String> = Vec::new();
    let ghost mut n: int = 0;
    assert(all.skip(0) =~= all);
    assert(text::views(skills@) =~= skills_in(all.take(0)));
    assert(text::views(notices@) =~= notices_in(all.take(0)));
    while rest.len() > 0
        invariant
            0 <= n <= all.len(),
            text::views(rest@) == all.skip(n),
            forall|i: int|
                0 <= i < rest@.len() ==> parseable(
                    (#[trigger] rest@[i]@).content,
                    rest@[i]@.strict,
                ),
            text::views(skills@) == skills_in(all.take(n)),
            text::views(notices@) == notices_in(all.take(n)),
        decreases rest@.len(),
    {
        let ghost before = rest@;
        let ghost had = skills@;
        let ghost told = notices@;
        let file = rest.remove(0);
        proof {
            assert(text::views(before).len() == before.len());
            assert(file@ == all.skip(n)[0]);
            assert(text::views(rest@) =~= text::views(before).drop_first());
            assert(text::views(before).drop_first() =~= all.skip(n + 1));
            assert forall|i: int| 0 <= i < rest@.len() implies parseable(
                (#[trigger] rest@[i]@).content,
                rest@[i]@.strict,
            ) by {
                assert(rest@[i] == before[i + 1]);
            }
            assert(parseable(before[0]@.content, before[0]@.strict));
            assert(all.take(n + 1).drop_last() =~= all.take(n));
            assert(all.take(n + 1).last() == file@);
            n = n + 1;
        }
        match parse_frontmatter(file.content.as_str(), file.strict) {
            Ok(meta) => {
                let skill = Skill {
                    name: meta.name,
                    description: meta.description,
                    location: file.location,
                    dir: file.dir,
                };
                let ghost v = skill@;
                skills.push(skill);
                assert(text::views(skills@) =~= text::views(had).push(v));
            },
            Err(e) => {
                let mut notice = "Skipping ".to_owned();
                notice.append(file.path.as_str());
                notice.append(": ");
                let words = e.message();
                notice.append(words.as_str());
                let ghost v = notice@;
                notices.push(notice);
                assert(text::views(notices@) =~= text::views(told).push(v));
            },
        }
    }
    assert(all.take(n) =~= all);
    Scan { skills, notices }
}

/// The first skill of a list with a given name.
pub open spec fn first_named(skills: Seq<SkillView>, name: Seq<char>) -> Option<SkillView>
    decreases skills.len(),
{
    if skills.len() == 0 {
        None
    } else if skills[0].name == name {
        Some(skills[0])
    } else {
        first_named(skills.drop_first(), name)
    }
}

/// Whether a list has a skill of that name.
pub open spec fn has_name(skills: Seq<SkillView>, name: Seq<char>) -> bool {
    exists|i: int| 0 <= i < skills.len() && (#[trigger] skills[i]).name == name
}

/// A list in which of the skills with one name only the first is left.
pub open spec fn deduplicated(skills: Seq<SkillView>) -> Seq<SkillView>
    decreases skills.len(),
{
    if skills.len() == 0 {
        Seq::empty()
    } else {
        let before = deduplicated(skills.drop_last());
        if has_name(before, skills.last().name) {
            before
        } else {
            before.push(skills.last())
        }
    }
}

/// Whether a list has a skill of that name.
fn knows(skills: &Vec<Skill>, name: &str) -> (r: bool)
    ensures
        r == has_name(text::views(skills@), name@),
{
    let ghost all = text::views(skills@);
    let mut i: usize = 0;
    while i < skills.len()
        invariant
            i <= skills@.len(),
            all == text::views(skills@),
            forall|k: int| 0 <= k < i ==> (#[trigger] all[k]).name != name@,
        decreases skills@.len() - i,
    {
        assert(all[i as int] == skills@[i as int]@);
        if same(skills[i].name.as_str(), name) {
            return true;
        }
        i = i + 1;
    }
    false
}

/// All skills: those of the project and those of the user, in the order of their
/// names. Of two with one name the first found stays, so the project's wins.
pub fn discover(project: Vec<Skill>, user: Vec<Skill>) -> (r: Vec<Skill>)
    ensures
        order::sorted_from::<Skill>(
            deduplicated(text::views(project@) + text::views(user@)),
            text::views(r@),
        ),
{
    let ghost all = text::views(project@) + text::views(user@);
    let mut rest = project;
    let mut more = user;
    rest.append(&mut more);
    assert(text::views(rest@) =~= all);
    let mut kept: Vec<Skill> = Vec::new();
    let ghost mut n: int = 0;
    assert(all.skip(0) =~= all);
    assert(text::views(kept@) =~= deduplicated(all.take(0)));
    while rest.len() > 0
        invariant
            0 <= n <= all.len(),
            text::views(rest@) == all.skip(n),
            text::views(kept@) == deduplicated(all.take(n)),
        decreases rest@.len(),
    {
        let ghost before = rest@;
        let ghost had = kept@;
        let skill = rest.remove(0);
        let ghost v = skill@;
        proof {
            assert(text::views(before).len() == before.len());
            assert(v == all.skip(n)[0]);
            assert(text::views(rest@) =~= text::views(before).drop_first());
            assert(text::views(before).drop_first() =~= all.skip(n + 1));
            assert(all.take(n + 1).drop_last() =~= all.take(n));
            assert(all.take(n + 1).last() == v);
            n = n + 1;
        }
        if !knows(&kept, skill.name.as_str()) {
            kept.push(skill);
            assert(text::views(kept@) =~= text::views(had).push(v));
        }
    }
    assert(all.take(n) =~= all);
    sort_by_key(kept)
}

/// The catalog's entry for a skill.
pub open spec fn entry_of(s: SkillView) -> Seq<char> {
    "- **"@ + s.name + "**: "@ + s.description + "\n  _location_: `"@ + s.location
        + "`\n  _dir_: `"@ + s.dir + "`\n"@
}

/// The catalog's entries for the skills of a list.
pub open spec fn entries_of(skills: Seq<SkillView>) -> Seq<char>
    decreases skills.len(),
{
    if skills.len() == 0 {
        Seq::empty()
    } else {
        entries_of(skills.drop_last()) + entry_of(skills.last())
    }
}

/// What the catalog says before its entries.
pub open spec fn catalog_head() -> Seq<char> {
    "\n\n## Available Skills\n\n"@ + "When a task matches a skill's description, use `read_self` with the exact absolute path from _location_ to load the SKILL.md before proceeding. Do not construct a relative path — copy the _location_ value verbatim. When a skill references relative paths, resolve them against the skill's directory (the parent of SKILL.md) and use absolute paths in tool calls.\n\n"@
}

/// The catalog of a list of skills, which is empty where there are none.
pub open spec fn catalog_of(skills: Seq<SkillView>) -> Seq<char> {
    if skills.len() == 0 {
        Seq::empty()
    } else {
        catalog_head() + entries_of(skills)
    }
}

/// The catalog of a list of skills, as part of a system prompt.
pub fn build_catalog(skills: &[Skill]) -> (r: String)
    ensures
        r@ == catalog_of(text::views(skills@)),
{
    if skills.len() == 0 {
        let r = String::new();
        assert(r@ =~= Seq::<char>::empty());
        return r;
    }
    let mut catalog = "\n\n## Available Skills\n\n".to_owned();
    catalog.append(
        "When a task matches a skill's description, use `read_self` with the exact absolute path from _location_ to load the SKILL.md before proceeding. Do not construct a relative path — copy the _location_ value verbatim. When a skill references relative paths, resolve them against the skill's directory (the parent of SKILL.md) and use absolute paths in tool calls.\n\n",
    );
    let ghost all = text::views(skills@);
    let mut i: usize = 0;
    assert(catalog@ + entries_of(all.take(0)) =~= catalog@);
    while i < skills.len()
        invariant
            i <= skills@.len(),
            all == text::views(skills@),
            catalog@ == catalog_head() + entries_of(all.take(i as int)),
        decreases skills@.len() - i,
    {
        let ghost before = catalog@;
        catalog.append("- **");
        catalog.append(skills[i].name.as_str());
        catalog.append("**: ");
        catalog.append(skills[i].description.as_str());
        catalog.append("\n  _location_: `");
        catalog.append(skills[i].location.as_str());
        catalog.append("`\n  _dir_: `");
        catalog.append(skills[i].dir.as_str());
        catalog.append("`\n");
        proof {
            assert(all.take(i + 1).drop_last() =~= all.take(i as int));
            assert(all.take(i + 1).last() == skills@[i as int]@);
            assert(catalog@ =~= before + entry_of(skills@[i as int]@));
            assert(catalog_head() + (entries_of(all.take(i as int)) + entry_of(
                skills@[i as int]@,
            )) =~= catalog@);
        }
        i = i + 1;
    }
    assert(all.take(i as int) =~= all);
    catalog
}

proof fn lemma_first_named_push(s: Seq<SkillView>, x: SkillView, name: Seq<char>)
    ensures
        first_named(s.push(x), name) == (match first_named(s, name) {
            Some(v) => Some(v),
            None => if x.name == name {
                Some(x)
            } else {
                None
            },
        }),
    decreases s.len(),
{
    if s.len() == 0 {
        assert(s.push(x).drop_first() =~= s);
    } else {
        assert(s.push(x).drop_first() =~= s.drop_first().push(x));
        lemma_first_named_push(s.drop_first(), x, name);
    }
}

proof fn lemma_first_named_name(s: Seq<SkillView>, name: Seq<char>)
    ensures
        first_named(s, name) matches Some(v) ==> v.name == name,
    decreases s.len(),
{
    if s.len() > 0 {
        lemma_first_named_name(s.drop_first(), name);
    }
}

/// What is left of a list is the first skill of each name, and no name is lost.
proof fn lemma_deduplicated(s: Seq<SkillView>, v: SkillView, name: Seq<char>)
    ensures
        deduplicated(s).contains(v) <==> first_named(s, v.name) == Some(v),
        has_name(deduplicated(s), name) <==> first_named(s, name) is Some,
    decreases s.len(),
{
    if s.len() > 0 {
        let t = s.drop_last();
        let x = s.last();
        let low = deduplicated(t);
        let all = deduplicated(s);
        lemma_deduplicated(t, v, name);
        lemma_deduplicated(t, v, x.name);
        assert(s =~= t.push(x));
        lemma_first_named_push(t, x, name);
        lemma_first_named_push(t, x, v.name);
        if !has_name(low, x.name) {
            assert(all == low.push(x));
            assert(all[all.len() - 1] == x);
            if low.contains(v) {
                assert(all[low.index_of(v)] == v);
            }
            if all.contains(v) && all.index_of(v) < low.len() {
                assert(low[all.index_of(v)] == v);
            }
            if has_name(low, name) {
                let i = choose|i: int| 0 <= i < low.len() && (#[trigger] low[i]).name == name;
                assert(all[i].name == name);
            }
            if has_name(all, name) && x.name != name {
                let i = choose|i: int| 0 <= i < all.len() && (#[trigger] all[i]).name == name;
                assert(low[i].name == name);
            }
            if v.name == x.name && first_named(t, v.name) is Some {
                assert(has_name(low, x.name));
            }
        } else {
            lemma_first_named_name(t, x.name);
        }
    }
}

proof fn lemma_one_of_each(s: Seq<SkillView>, name: Seq<char>)
    ensures
        order::with_key::<Skill>(deduplicated(s), name).len() <= 1,
    decreases s.len(),
{
    if s.len() > 0 {
        let low = deduplicated(s.drop_last());
        let x = s.last();
        lemma_one_of_each(s.drop_last(), name);
        if !has_name(low, x.name) {
            assert(low.push(x) =~= low + seq![x]);
            order::lemma_with_key_append::<Skill>(low, seq![x], name);
            order::lemma_with_key_one::<Skill>(x, name);
            if x.name == name {
                assert forall|i: int| 0 <= i < low.len() implies Skill::key(#[trigger] low[i])
                    != name by {
                    assert(low[i].name != x.name);
                }
                order::lemma_with_key_none::<Skill>(low, name);
            }
        }
    } else {
        order::lemma_with_key_none::<Skill>(deduplicated(s), name);
    }
}

/// No two of the discovered skills have the same name.
pub proof fn law_names_are_distinct(all: Seq<SkillView>, r: Seq<SkillView>, i: int, j: int)
    requires
        order::sorted_from::<Skill>(deduplicated(all), r),
        0 <= i < j < r.len(),
    ensures
        r[i].name != r[j].name,
{
    let k = r[j].name;
    let low = r.take(j);
    let high = r.skip(j);
    lemma_one_of_each(all, k);
    assert(order::with_key::<Skill>(r, k) == order::with_key::<Skill>(deduplicated(all), k));
    assert(r =~= low + high);
    order::lemma_with_key_append::<Skill>(low, high, k);
    assert(high[0] == r[j]);
    order::lemma_with_key_some::<Skill>(high, 0);
    if r[i].name == k {
        assert(low[i] == r[i]);
        order::lemma_with_key_some::<Skill>(low, i);
    }
}

/// A skill is discovered exactly when it is the first found with its name.
pub proof fn law_first_found_stays(all: Seq<SkillView>, r: Seq<SkillView>, v: SkillView)
    requires
        order::sorted_from::<Skill>(deduplicated(all), r),
    ensures
        r.contains(v) <==> first_named(all, v.name) == Some(v),
{
    order::law_order_keeps_elements::<Skill>(deduplicated(all), r, v);
    lemma_deduplicated(all, v, v.name);
}

/// A skill of the project hides one of the user with the same name; the others of the
/// user are found.
pub proof fn law_project_wins(project: Seq<SkillView>, user: Seq<SkillView>, name: Seq<char>)
    ensures
        first_named(project + user, name) == (match first_named(project, name) {
            Some(v) => Some(v),
            None => first_named(user, name),
        }),
    decreases project.len(),
{
    if project.len() == 0 {
        assert(project + user =~= user);
    } else {
        assert((project + user).drop_first() =~= project.drop_first() + user);
        law_project_wins(project.drop_first(), user, name);
    }
}

/// The catalog has an entry for each skill.
pub proof fn law_catalog_is_complete(skills: Seq<SkillView>, i: int)
    requires
        0 <= i < skills.len(),
    ensures
        text::contains(catalog_of(skills), entry_of(skills[i])),
{
    let at = lemma_entry_at(skills, i);
    let e = entry_of(skills[i]);
    let head = catalog_head().len() as int;
    assert(catalog_of(skills).subrange(head + at, head + at + e.len()) =~= entries_of(
        skills,
    ).subrange(at, at + e.len()));
    text::lemma_found_at(catalog_of(skills), e, head + at);
}

proof fn lemma_entry_at(skills: Seq<SkillView>, i: int) -> (at: int)
    requires
        0 <= i < skills.len(),
    ensures
        0 <= at,
        at + entry_of(skills[i]).len() <= entries_of(skills).len(),
        entries_of(skills).subrange(at, at + entry_of(skills[i]).len()) == entry_of(skills[i]),
    decreases skills.len(),
{
    let low = entries_of(skills.drop_last());
    let e = entry_of(skills[i]);
    if i == skills.len() - 1 {
        assert(entries_of(skills).subrange(low.len() as int, low.len() as int + e.len()) =~= e);
        low.len() as int
    } else {
        let at = lemma_entry_at(skills.drop_last(), i);
        assert(skills.drop_last()[i] == skills[i]);
        assert(entries_of(skills).subrange(at, at + e.len()) =~= low.subrange(at, at + e.len()));
        at
    }
}

// What a file says of its skill, told by its text.

/// The front matter is what stands between the line that opens a file and the first line
/// that closes it. The opening line may end in either way, or be missing.
pub proof fn law_front_matter(yaml: Seq<char>, rest: Seq<char>)
    requires
        ({
            let close = seq!['\n', '-', '-', '-'];
            forall|j: int|
                0 <= j < yaml.len() ==> #[trigger] (yaml + close + rest).subrange(j, j + 4) != close
        }),
    ensures
        ({
            let body = yaml + seq!['\n', '-', '-', '-'] + rest;
            &&& front("---\n"@ + body) == Some(yaml)
            &&& front("---\r\n"@ + body) == Some(yaml)
            &&& !text::starts_with(body, "---\n"@) && !text::starts_with(body, "---\r\n"@)
                ==> front(body) == Some(yaml)
        }),
{
    let close = seq!['\n', '-', '-', '-'];
    let body = yaml + close + rest;
    reveal_strlit("\n---");
    reveal_strlit("---\n");
    reveal_strlit("---\r\n");
    assert("\n---"@ =~= close);
    let n = yaml.len() as int;
    assert(body.subrange(n, n + 4) =~= close);
    text::lemma_find_is(body, close, n);
    assert(body.take(n) =~= yaml);
    text::law_strip_prefix("---\n"@ + body, "---\n"@, body);
    text::law_strip_prefix("---\r\n"@ + body, "---\r\n"@, body);
    if text::starts_with("---\r\n"@ + body, "---\n"@) {
        assert(("---\r\n"@ + body).take(4)[3] == '\r');
        assert("---\n"@[3] == '\n');
    }
}

/// A file whose front matter is not closed has none.
pub proof fn law_front_matter_not_closed(body: Seq<char>)
    requires
        !text::stands_in(seq!['\n', '-', '-', '-'], body),
    ensures
        front("---\n"@ + body) is None,
        front("---\r\n"@ + body) is None,
        !text::starts_with(body, "---\n"@) && !text::starts_with(body, "---\r\n"@) ==> front(
            body,
        ) is None,
{
    let close = seq!['\n', '-', '-', '-'];
    reveal_strlit("\n---");
    reveal_strlit("---\n");
    reveal_strlit("---\r\n");
    assert("\n---"@ =~= close);
    text::law_find(body, close);
    text::law_strip_prefix("---\n"@ + body, "---\n"@, body);
    text::law_strip_prefix("---\r\n"@ + body, "---\r\n"@, body);
    if text::starts_with("---\r\n"@ + body, "---\n"@) {
        assert(("---\r\n"@ + body).take(4)[3] == '\r');
        assert("---\n"@[3] == '\n');
    }
}

/// A line gives a name or a description behind its key, with or without a blank before the
/// colon, and a line that begins otherwise gives none. The white space around the value
/// goes, and around a name the quotes.
pub proof fn law_lines_that_say_something(v: Seq<char>, line: Seq<char>)
    ensures
        name_in("name:"@ + v) == Some(text::trim_of(text::trim_of(text::trim(v), '"'), '\'')),
        name_in("name :"@ + v) == Some(text::trim_of(text::trim_of(text::trim(v), '"'), '\'')),
        !text::starts_with(line, "name:"@) && !text::starts_with(line, "name :"@) ==> name_in(
            line,
        ) is None,
        description_in("description:"@ + v) == Some(text::trim(v)),
        description_in("description :"@ + v) == Some(text::trim(v)),
        !text::starts_with(line, "description:"@) && !text::starts_with(line, "description :"@)
            ==> description_in(line) is None,
{
    reveal_strlit("name:");
    reveal_strlit("name :");
    reveal_strlit("description:");
    reveal_strlit("description :");
    text::law_strip_prefix("name:"@ + v, "name:"@, v);
    text::law_strip_prefix("name :"@ + v, "name :"@, v);
    text::law_strip_prefix("description:"@ + v, "description:"@, v);
    text::law_strip_prefix("description :"@ + v, "description :"@, v);
    if text::starts_with("name :"@ + v, "name:"@) {
        assert(("name :"@ + v).take(5)[4] == ' ');
        assert("name:"@[4] == ':');
    }
    if text::starts_with("description :"@ + v, "description:"@) {
        assert(("description :"@ + v).take(12)[11] == ' ');
        assert("description:"@[11] == ':');
    }
}

/// Of several lines with a name the last counts, whatever stands before it.
pub proof fn law_last_name_counts(before: Seq<Seq<char>>, line: Seq<char>, after: Seq<Seq<char>>)
    requires
        forall|i: int| 0 <= i < after.len() ==> name_in(#[trigger] after[i]) is None,
    ensures
        name_in(line) is Some ==> last_name(before + seq![line] + after) == name_in(line),
        last_name(after) is None,
    decreases after.len(),
{
    let all = before + seq![line] + after;
    if after.len() == 0 {
        assert(all.last() == line);
    } else {
        let low = after.drop_last();
        assert(all.last() == after.last());
        assert(name_in(after[after.len() - 1]) is None);
        assert(all.drop_last() =~= before + seq![line] + low);
        assert forall|i: int| 0 <= i < low.len() implies name_in(#[trigger] low[i]) is None by {
            assert(low[i] == after[i]);
        }
        law_last_name_counts(before, line, low);
    }
}

/// Of several lines with a description the first counts, whatever stands behind it.
pub proof fn law_first_description_counts(
    before: Seq<Seq<char>>,
    line: Seq<char>,
    after: Seq<Seq<char>>,
)
    requires
        forall|i: int| 0 <= i < before.len() ==> description_in(#[trigger] before[i]) is None,
    ensures
        description_in(line) is Some ==> first_description(before + seq![line] + after)
            == description_in(line),
        first_description(before) is None,
    decreases before.len(),
{
    let all = before + seq![line] + after;
    if before.len() == 0 {
        assert(all[0] == line);
    } else {
        let rest = before.drop_first();
        assert(all[0] == before[0]);
        assert(description_in(before[0]) is None);
        assert(all.drop_first() =~= rest + seq![line] + after);
        assert forall|i: int| 0 <= i < rest.len() implies description_in(
            #[trigger] rest[i],
        ) is None by {
            assert(rest[i] == before[i + 1]);
        }
        law_first_description_counts(rest, line, after);
    }
}

/// Front matter that is read line by line gives a skill when it gives both a name and a
/// description that is not empty without its quotes, and else none.
pub proof fn law_lenient_reading(yaml: Seq<char>, name: Seq<char>, v: Seq<char>)
    ensures
        ({
            let lines = text::lines(yaml);
            let quoted = v.len() >= 2 && (v[0] == '"' && v[v.len() - 1] == '"' || v[0] == '\'' && v[
                v.len() - 1] == '\'');
            &&& last_name(lines) is None ==> lenient(yaml) is None
            &&& first_description(lines) is None ==> lenient(yaml) is None
            &&& last_name(lines) == Some(name) && first_description(lines) == Some(v) ==> {
                &&& quoted && v.len() > 2 ==> lenient(yaml) == Some(
                    MetaView { name, description: v.subrange(1, v.len() - 1) },
                )
                &&& quoted && v.len() == 2 || v.len() == 0 ==> lenient(yaml) is None
                &&& !quoted && v.len() > 0 && v != seq!['"'] && v != seq!['\''] ==> lenient(yaml)
                    == Some(MetaView { name, description: v })
                &&& readable(yaml) <==> v != seq!['"'] && v != seq!['\'']
            }
            &&& first_description(lines) is None ==> readable(yaml)
        }),
{
    if v.len() == 1 {
        assert(v[0] == '"' ==> v =~= seq!['"']);
        assert(v[0] == '\'' ==> v =~= seq!['\'']);
        assert(v == seq!['"'] ==> v[0] == '"');
        assert(v == seq!['\''] ==> v[0] == '\'');
    }
}

/// What a YAML parser made of closed front matter counts before what is read line by line;
/// front matter that neither can read is told of, and so is a file without any.
pub proof fn law_parser_counts_first(content: Seq<char>, yaml: Seq<char>, meta: MetaView)
    ensures
        front(content) is None ==> {
            &&& meta_of(content, Some(meta)) == Err::<MetaView, FrontmatterError>(
                FrontmatterError::NotClosed,
            )
            &&& meta_of(content, None) == Err::<MetaView, FrontmatterError>(
                FrontmatterError::NotClosed,
            )
        },
        front(content) == Some(yaml) ==> {
            &&& meta_of(content, Some(meta)) == Ok::<MetaView, FrontmatterError>(meta)
            &&& lenient(yaml) == Some(meta) ==> meta_of(content, None) == Ok::<
                MetaView,
                FrontmatterError,
            >(meta)
            &&& lenient(yaml) is None ==> meta_of(content, None) == Err::<
                MetaView,
                FrontmatterError,
            >(FrontmatterError::Unreadable)
            &&& parseable(content, None) <==> readable(yaml)
        },
        parseable(content, Some(meta)),
        front(content) is None ==> parseable(content, None),
        FrontmatterError::NotClosed.words() == "No closing --- for frontmatter"@,
        FrontmatterError::Unreadable.words()
            == "Failed to parse SKILL.md frontmatter (strict and lenient)"@,
{
}

/// A scan takes the files one by one: each gives its skill, at its place, or the notice
/// that it is skipped and why.
pub proof fn law_scan_takes_each_file(files: Seq<SkillFileView>, file: SkillFileView)
    ensures
        skills_in(Seq::empty()).len() == 0,
        notices_in(Seq::empty()).len() == 0,
        match meta_of(file.content, file.strict) {
            Ok(meta) => {
                &&& skills_in(files.push(file)) == skills_in(files).push(
                    SkillView {
                        name: meta.name,
                        description: meta.description,
                        location: file.location,
                        dir: file.dir,
                    },
                )
                &&& notices_in(files.push(file)) == notices_in(files)
            },
            Err(e) => {
                &&& skills_in(files.push(file)) == skills_in(files)
                &&& notices_in(files.push(file)) == notices_in(files).push(
                    "Skipping "@ + file.path + ": "@ + e.words(),
                )
            },
        },
{
    assert(files.push(file).drop_last() =~= files);
}

proof fn lemma_first_named(s: Seq<SkillView>, v: SkillView)
    ensures
        first_named(s, v.name) == Some(v) <==> exists|i: int|
            {
                &&& 0 <= i < s.len()
                &&& #[trigger] s[i] == v
                &&& forall|j: int| 0 <= j < i ==> (#[trigger] s[j]).name != v.name
            },
    decreases s.len(),
{
    if s.len() > 0 {
        let rest = s.drop_first();
        lemma_first_named(rest, v);
        if s[0].name == v.name {
            if exists|i: int|
                {
                    &&& 0 <= i < s.len()
                    &&& #[trigger] s[i] == v
                    &&& forall|j: int| 0 <= j < i ==> (#[trigger] s[j]).name != v.name
                } {
                let i = choose|i: int|
                    {
                        &&& 0 <= i < s.len()
                        &&& #[trigger] s[i] == v
                        &&& forall|j: int| 0 <= j < i ==> (#[trigger] s[j]).name != v.name
                    };
                if i > 0 {
                    assert(s[0].name != v.name);
                }
            }
            if s[0] == v {
                assert(s[0] == v);
            }
        } else {
            if exists|i: int|
                {
                    &&& 0 <= i < rest.len()
                    &&& #[trigger] rest[i] == v
                    &&& forall|j: int| 0 <= j < i ==> (#[trigger] rest[j]).name != v.name
                } {
                let i = choose|i: int|
                    {
                        &&& 0 <= i < rest.len()
                        &&& #[trigger] rest[i] == v
                        &&& forall|j: int| 0 <= j < i ==> (#[trigger] rest[j]).name != v.name
                    };
                assert(s[i + 1] == v);
                assert forall|j: int| 0 <= j < i + 1 implies (#[trigger] s[j]).name != v.name by {
                    if j > 0 {
                        assert(s[j] == rest[j - 1]);
                    }
                }
            }
            if exists|i: int|
                {
                    &&& 0 <= i < s.len()
                    &&& #[trigger] s[i] == v
                    &&& forall|j: int| 0 <= j < i ==> (#[trigger] s[j]).name != v.name
                } {
                let i = choose|i: int|
                    {
                        &&& 0 <= i < s.len()
                        &&& #[trigger] s[i] == v
                        &&& forall|j: int| 0 <= j < i ==> (#[trigger] s[j]).name != v.name
                    };
                assert(rest[i - 1] == v);
                assert forall|j: int| 0 <= j < i - 1 implies (#[trigger] rest[j]).name
                    != v.name by {
                    assert(rest[j] == s[j + 1]);
                }
            }
        }
    }
}

/// The skills of the project and those of the user are put together so that of those with
/// one name the first found is left, a skill of the project before one of the user. They
/// come in the order of their names, no name twice.
pub proof fn law_discovered_skills(
    project: Seq<SkillView>,
    user: Seq<SkillView>,
    r: Seq<SkillView>,
    v: SkillView,
)
    requires
        order::sorted_from::<Skill>(deduplicated(project + user), r),
    ensures
        r.contains(v) <==> {
            ||| exists|i: int|
                {
                    &&& 0 <= i < project.len()
                    &&& #[trigger] project[i] == v
                    &&& forall|j: int| 0 <= j < i ==> (#[trigger] project[j]).name != v.name
                }
            ||| {
                &&& forall|j: int|
                    0 <= j < project.len() ==> (#[trigger] project[j]).name != v.name
                &&& exists|i: int|
                    {
                        &&& 0 <= i < user.len()
                        &&& #[trigger] user[i] == v
                        &&& forall|j: int| 0 <= j < i ==> (#[trigger] user[j]).name != v.name
                    }
            }
        },
        forall|i: int, j: int|
            0 <= i < j < r.len() ==> (#[trigger] r[i]).name != (#[trigger] r[j]).name
                && order::text_le(r[i].name, r[j].name),
{
    law_first_found_stays(project + user, r, v);
    law_project_wins(project, user, v.name);
    lemma_first_named(project, v);
    lemma_first_named(user, v);
    lemma_first_named_name(project, v.name);
    lemma_nobody_named(project, v.name);
    assert forall|i: int, j: int| 0 <= i < j < r.len() implies (#[trigger] r[i]).name != (
    #[trigger] r[j]).name && order::text_le(r[i].name, r[j].name) by {
        law_names_are_distinct(project + user, r, i, j);
        order::law_order_sorts::<Skill>(deduplicated(project + user), r, v, v.name);
        assert(order::text_le(Skill::key(r[i]), Skill::key(r[j])));
    }
}

proof fn lemma_nobody_named(s: Seq<SkillView>, name: Seq<char>)
    ensures
        first_named(s, name) is None <==> forall|j: int|
            0 <= j < s.len() ==> (#[trigger] s[j]).name != name,
    decreases s.len(),
{
    if s.len() > 0 {
        let rest = s.drop_first();
        lemma_nobody_named(rest, name);
        if s[0].name != name {
            assert forall|j: int| 0 <= j < rest.len() implies rest[j] == s[j + 1] by {}
            if forall|j: int| 0 <= j < rest.len() ==> (#[trigger] rest[j]).name != name {
                assert forall|j: int| 0 <= j < s.len() implies (#[trigger] s[j]).name != name by {
                    if j > 0 {
                        assert(rest[j - 1].name != name);
                    }
                }
            }
            if forall|j: int| 0 <= j < s.len() ==> (#[trigger] s[j]).name != name {
                assert forall|j: int| 0 <= j < rest.len() implies (#[trigger] rest[j]).name
                    != name by {
                    assert(s[j + 1].name != name);
                }
            }
        }
    }
}

/// The catalog of no skills is empty. With skills it begins with its heading and what the
/// model is to do, and a further skill adds its entry at the end: the name, the
/// description, and the two paths.
pub proof fn law_catalog_grows_by_entries(skills: Seq<SkillView>, s: SkillView)
    ensures
        ({
            let entry = "- **"@ + s.name + "**: "@ + s.description + "\n  _location_: `"@
                + s.location + "`\n  _dir_: `"@ + s.dir + "`\n"@;
            &&& catalog_of(Seq::empty()).len() == 0
            &&& skills.len() > 0 ==> catalog_of(skills.push(s)) == catalog_of(skills) + entry
            &&& catalog_of(seq![s]) == "\n\n## Available Skills\n\n"@
                + "When a task matches a skill's description, use `read_self` with the exact absolute path from _location_ to load the SKILL.md before proceeding. Do not construct a relative path — copy the _location_ value verbatim. When a skill references relative paths, resolve them against the skill's directory (the parent of SKILL.md) and use absolute paths in tool calls.\n\n"@
                + entry
        }),
{
    let entry = entry_of(s);
    assert(skills.push(s).drop_last() =~= skills);
    assert(catalog_head() + (entries_of(skills) + entry) =~= catalog_head() + entries_of(skills)
        + entry);
    assert(seq![s].drop_last() =~= Seq::empty());
    assert(entries_of(Seq::empty()) == Seq::<char>::empty());
    assert(seq![s].last() == s);
    assert(entries_of(seq![s]) == Seq::<char>::empty() + entry);
    assert(Seq::<char>::empty() + entry =~= entry);
}

/// A result is seen as it is.
pub proof fn law_result_view<T: View, E>(t: T, e: E)
    ensures
        result_view(Ok::<T, E>(t)) == Ok::<T::V, E>(t@),
        result_view(Err::<T, E>(e)) == Err::<T::V, E>(e),
{
}

} // verus!
