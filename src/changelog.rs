//! The pieces of a changelog entry: section headings, commit lines and
//! author links.
use crate::error::BumpError;
use crate::text::{occurrences, occurrences_from};
use vstd::prelude::*;
use vstd::slice::slice_to_vec;
use vstd::utf8::encode_utf8;
use vstd::string::{StrSliceExecFns, StringExecFns};

verus! {

/// The type of a conventional commit.
#[derive(Debug)]
pub enum CommitType {
    Feature,
    BugFix,
    Refactor,
    Chore,
    Documentation,
    Style,
    Test,
    Build,
    Revert,
    Ci,
    Performances,
    Custom(String),
}

/// The changelog section heading for a commit type.
pub open spec fn commit_type_heading(t: CommitType) -> Seq<char> {
    match t {
        CommitType::Feature => "features"@,
        CommitType::BugFix => "bug fixes"@,
        CommitType::Refactor => "refactors"@,
        CommitType::Chore => "chores"@,
        CommitType::Documentation => "documentation"@,
        CommitType::Style => "style"@,
        CommitType::Test => "tests"@,
        CommitType::Build => "build system"@,
        CommitType::Revert => "reverts"@,
        CommitType::Ci => "continuous integration"@,
        CommitType::Performances => "performance"@,
        CommitType::Custom(c) => c@,
    }
}

/// The changelog section heading for a commit type.
pub fn display_commit_type(commit_type: &CommitType) -> (r: String)
    ensures
        r@ == commit_type_heading(*commit_type),
{
    match commit_type {
        CommitType::Feature => String::from_str("features"),
        CommitType::BugFix => String::from_str("bug fixes"),
        CommitType::Refactor => String::from_str("refactors"),
        CommitType::Chore => String::from_str("chores"),
        CommitType::Documentation => String::from_str("documentation"),
        CommitType::Style => String::from_str("style"),
        CommitType::Test => String::from_str("tests"),
        CommitType::Build => String::from_str("build system"),
        CommitType::Revert => String::from_str("reverts"),
        CommitType::Ci => String::from_str("continuous integration"),
        CommitType::Performances => String::from_str("performance"),
        CommitType::Custom(custom) => custom.clone(),
    }
}

/// `s` ends with `suffix`.
pub open spec fn ends_with(s: Seq<char>, suffix: Seq<char>) -> bool {
    suffix.len() <= s.len() && s.subrange(s.len() - suffix.len(), s.len() as int) == suffix
}

/// `input` without `suffix` at its end, where it ends so; else `input`.
pub fn remove_suffix<'a>(input: &'a str, suffix: &str) -> (r: &'a str)
    ensures
        r@ == if ends_with(input@, suffix@) {
            input@.subrange(0, input@.len() - suffix@.len())
        } else {
            input@
        },
{
    let n = input.unicode_len();
    let m = suffix.unicode_len();
    if m > n {
        return input;
    }
    let start = n - m;
    let mut i: usize = 0;
    while i < m
        invariant
            i <= m,
            m as int == suffix@.len(),
            n as int == input@.len(),
            start + m == n,
            forall|k: int| 0 <= k < i ==> input@[start + k] == suffix@[k],
        decreases m - i,
    {
        if input.get_char(start + i) != suffix.get_char(i) {
            assert(input@.subrange(start as int, n as int)[i as int] != suffix@[i as int]);
            return input;
        }
        i = i + 1;
    }
    assert(input@.subrange(start as int, n as int) =~= suffix@);
    input.substring_char(0, start)
}

/// The first configured author for a commit author's name.
pub open spec fn author_for(authors: Seq<(String, String)>, name: Seq<char>) -> Option<int>
    decreases authors.len(),
{
    if authors.len() == 0 {
        None
    } else {
        match author_for(authors.drop_last(), name) {
            Some(k) => Some(k),
            None => if authors.last().0@ == name {
                Some(authors.len() - 1)
            } else {
                None
            },
        }
    }
}

/// No name is given two accounts.
pub open spec fn distinct_names(authors: Option<Vec<(String, String)>>) -> bool {
    match authors {
        Some(a) => forall|i: int, j: int|
            0 <= i < j < a@.len() ==> (#[trigger] a@[i]).0@ != (#[trigger] a@[j]).0@,
        None => true,
    }
}

/// A commit's author as the changelog shows it: a link to the configured
/// account on the repository's host, where both are known; else the name.
pub open spec fn author_text(
    commit_author: Seq<char>,
    authors: Option<Vec<(String, String)>>,
    url: Option<(String, String)>,
) -> Seq<char> {
    match (url, authors) {
        (Some((host, _)), Some(a)) => match author_for(a@, commit_author) {
            Some(k) => "[@"@ + a@[k].1@ + "](https://"@ + host@ + "/"@ + a@[k].1@ + ")"@,
            None => commit_author,
        },
        _ => commit_author,
    }
}

/// A commit's author as the changelog shows it.
pub fn author_name(
    commit_author: String,
    authors: &Option<Vec<(String, String)>>,
    url: &Option<(String, String)>,
) -> (r: String)
    requires
        distinct_names(*authors),
    ensures
        r@ == author_text(commit_author@, *authors, *url),
{
    match (url, authors) {
        (Some((host, _)), Some(a)) => {
            let mut k: usize = 0;
            while k < a.len()
                invariant
                    k <= a@.len(),
                    author_for(a@.take(k as int), commit_author@) is None,
                    *authors == Some(*a),
                    url matches Some((h, _)) && h@ == host@,
                decreases a@.len() - k,
            {
                assert(a@.take(k + 1).drop_last() =~= a@.take(k as int));
                if a[k].0 == commit_author {
                    assert(author_for(a@.take(k + 1), commit_author@) == Some(k as int));
                    proof {
                        lemma_author_for_prefix(a@, commit_author@, k + 1);
                    }
                    let account = a[k].1.as_str();
                    let mut text = String::from_str("[@");
                    text.append(account);
                    text.append("](https://");
                    text.append(host.as_str());
                    text.append("/");
                    text.append(account);
                    text.append(")");
                    assert(text@ =~= "[@"@ + a@[k as int].1@ + "](https://"@ + host@ + "/"@ + a@[k as int].1@ + ")"@);
                    return text;
                }
                k = k + 1;
            }
            assert(a@.take(k as int) =~= a@);
            commit_author
        },
        _ => commit_author,
    }
}

proof fn lemma_author_for_prefix(authors: Seq<(String, String)>, name: Seq<char>, m: int)
    requires
        0 <= m <= authors.len(),
        author_for(authors.take(m), name) is Some,
    ensures
        author_for(authors, name) == author_for(authors.take(m), name),
    decreases authors.len() - m,
{
    if m < authors.len() {
        assert(authors.take(m + 1).drop_last() =~= authors.take(m));
        lemma_author_for_prefix(authors, name, m + 1);
    } else {
        assert(authors.take(m) =~= authors);
    }
}

/// One commit's line in a changelog entry.
#[derive(Debug)]
pub struct ChangelogCommit {
    pub scope: Option<String>,
    pub summary: String,
    pub hash: String,
    pub author: String,
}

impl ChangelogCommit {
    /// The line as the changelog shows it:
    /// `**(scope)** summary - (hash) - author`, without the scope part where
    /// there is none.
    pub open spec fn line(&self) -> Seq<char> {
        let tail = self.summary@ + " - ("@ + self.hash@ + ") - "@ + self.author@;
        match self.scope {
            Some(scope) => "**("@ + scope@ + ")** "@ + tail,
            None => tail,
        }
    }

    /// The line as the changelog shows it.
    pub fn to_text(&self) -> (r: String)
        ensures
            r@ == self.line(),
    {
        let mut text = match &self.scope {
            Some(scope) => {
                let mut t = String::from_str("**(");
                t.append(scope.as_str());
                t.append(")** ");
                assert(t@ =~= "**("@ + scope@ + ")** "@);
                t
            },
            None => String::new(),
        };
        text.append(self.summary.as_str());
        text.append(" - (");
        text.append(self.hash.as_str());
        text.append(") - ");
        text.append(self.author.as_str());
        assert(text@ =~= self.line());
        text
    }
}


/// A commit since the last version, as the changelog needs it.
#[derive(Debug)]
pub struct CommitRecord {
    /// The commit id in hexadecimal.
    pub commit_id: String,
    pub commit_type: CommitType,
    pub scope: Option<String>,
    pub summary: String,
    /// The name in the commit's author signature.
    pub author: String,
}

/// The data of one changelog entry: its version text, its commit lines in
/// sections by commit type, and an optional description.
#[derive(Debug)]
pub struct ChangelogEntry {
    pub version: String,
    pub commits: Vec<(String, Vec<ChangelogCommit>)>,
    pub description: Option<String>,
}

/// A commit line's fields.
pub type CommitView = (Option<Seq<char>>, Seq<char>, Seq<char>, Seq<char>);

pub open spec fn commit_view(c: ChangelogCommit) -> CommitView {
    (
        match c.scope {
            Some(s) => Some(s@),
            None => None,
        },
        c.summary@,
        c.hash@,
        c.author@,
    )
}

/// A link on the repository's host, where it is known; else the text.
pub open spec fn linked(text: Seq<char>, target: Seq<char>, url: Option<(String, String)>) -> Seq<char> {
    match url {
        Some((host, path)) => "["@ + text + "](https://"@ + host@ + "/"@ + path@ + target + ")"@,
        None => text,
    }
}

/// The version as the entry shows it: linked to its release page.
pub open spec fn version_text(version: Seq<char>, url: Option<(String, String)>) -> Seq<char> {
    linked(version, "/releases/tag/"@ + version, url)
}

/// The commit id as the entry shows it: its first seven characters, linked
/// to the commit page.
pub open spec fn hash_text(id: Seq<char>, url: Option<(String, String)>) -> Seq<char> {
    match url {
        Some(_) => linked(id.take(7), "/commit/"@ + id, url),
        None => id,
    }
}

/// The line fields of a commit record.
pub open spec fn record_view(
    r: CommitRecord,
    authors: Option<Vec<(String, String)>>,
    url: Option<(String, String)>,
) -> CommitView {
    (
        match r.scope {
            Some(s) => Some(s@),
            None => None,
        },
        r.summary@,
        hash_text(r.commit_id@, url),
        author_text(r.author@, authors, url),
    )
}

/// The index of the section with this heading.
pub open spec fn section_index(sections: Seq<(Seq<char>, Seq<CommitView>)>, h: Seq<char>) -> Option<int>
    decreases sections.len(),
{
    if sections.len() == 0 {
        None
    } else {
        match section_index(sections.drop_last(), h) {
            Some(k) => Some(k),
            None => if sections.last().0 == h {
                Some(sections.len() - 1)
            } else {
                None
            },
        }
    }
}

/// Adds a line to the section with heading `h`, opening it at the end when
/// there is none.
pub open spec fn add_line(sections: Seq<(Seq<char>, Seq<CommitView>)>, h: Seq<char>, c: CommitView) -> Seq<
    (Seq<char>, Seq<CommitView>),
> {
    match section_index(sections, h) {
        Some(k) => sections.update(k, (h, sections[k].1.push(c))),
        None => sections.push((h, seq![c])),
    }
}

/// The sections of the records' lines: one per commit type in the order
/// first seen, each with its commits in order.
pub open spec fn sections_of(
    records: Seq<CommitRecord>,
    authors: Option<Vec<(String, String)>>,
    url: Option<(String, String)>,
) -> Seq<(Seq<char>, Seq<CommitView>)>
    decreases records.len(),
{
    if records.len() == 0 {
        Seq::empty()
    } else {
        let r = records.last();
        add_line(
            sections_of(records.drop_last(), authors, url),
            commit_type_heading(r.commit_type),
            record_view(r, authors, url),
        )
    }
}

/// The sections of an entry, as views.
pub open spec fn entry_sections(commits: Seq<(String, Vec<ChangelogCommit>)>) -> Seq<
    (Seq<char>, Seq<CommitView>),
> {
    commits.map_values(
        |s: (String, Vec<ChangelogCommit>)| (s.0@, s.1@.map_values(|c: ChangelogCommit| commit_view(c))),
    )
}

/// `prefix` + link text + link target, as `linked` writes it.
fn link(text: &str, target_parts: &[&str], url: &Option<(String, String)>) -> (r: String)
    requires
        target_parts@.len() == 2,
    ensures
        r@ == linked(text@, target_parts@[0]@ + target_parts@[1]@, *url),
{
    match url {
        Some((host, path)) => {
            let mut t = String::from_str("[");
            t.append(text);
            t.append("](https://");
            t.append(host.as_str());
            t.append("/");
            t.append(path.as_str());
            t.append(target_parts[0]);
            t.append(target_parts[1]);
            t.append(")");
            assert(t@ =~= "["@ + text@ + "](https://"@ + host@ + "/"@ + path@ + (target_parts@[0]@
                + target_parts@[1]@) + ")"@);
            t
        },
        None => String::from_str(text),
    }
}

/// Finds the section with this heading.
fn find_section(sections: &Vec<(String, Vec<ChangelogCommit>)>, h: &String) -> (r: Option<usize>)
    ensures
        r matches Some(k) ==> k < sections@.len(),
        r matches Some(k) ==> section_index(entry_sections(sections@), h@) == Some(k as int),
        r is None ==> section_index(entry_sections(sections@), h@) is None,
{
    let ghost views = entry_sections(sections@);
    let mut k: usize = 0;
    while k < sections.len()
        invariant
            k <= sections@.len(),
            views == entry_sections(sections@),
            section_index(views.take(k as int), h@) is None,
        decreases sections@.len() - k,
    {
        assert(views.take(k + 1).drop_last() =~= views.take(k as int));
        if sections[k].0 == *h {
            assert(section_index(views.take(k + 1), h@) == Some(k as int));
            proof {
                lemma_section_prefix(views, h@, k + 1);
            }
            return Some(k);
        }
        k = k + 1;
    }
    assert(views.take(k as int) =~= views);
    None
}

proof fn lemma_section_found(sections: Seq<(Seq<char>, Seq<CommitView>)>, h: Seq<char>, k: int)
    requires
        section_index(sections, h) == Some(k),
    ensures
        0 <= k < sections.len(),
        sections[k].0 == h,
    decreases sections.len(),
{
    if sections.len() > 0 {
        match section_index(sections.drop_last(), h) {
            Some(j) => {
                lemma_section_found(sections.drop_last(), h, j);
            },
            None => {},
        }
    }
}

proof fn lemma_section_prefix(sections: Seq<(Seq<char>, Seq<CommitView>)>, h: Seq<char>, m: int)
    requires
        0 <= m <= sections.len(),
        section_index(sections.take(m), h) is Some,
    ensures
        section_index(sections, h) == section_index(sections.take(m), h),
    decreases sections.len() - m,
{
    if m < sections.len() {
        assert(sections.take(m + 1).drop_last() =~= sections.take(m));
        lemma_section_prefix(sections, h, m + 1);
    } else {
        assert(sections.take(m) =~= sections);
    }
}

/// The data of a changelog entry for `version`: the version linked to its
/// release page, and the commits' lines grouped by commit type, with ids
/// and authors linked where the repository's host is known.
pub fn changelog_entry(
    commits: &Vec<CommitRecord>,
    version: &str,
    description: Option<String>,
    authors: &Option<Vec<(String, String)>>,
    url: &Option<(String, String)>,
) -> (r: ChangelogEntry)
    requires
        forall|i: int| 0 <= i < commits@.len() ==> (#[trigger] commits@[i]).commit_id@.len() >= 7,
        distinct_names(*authors),
    ensures
        r.version@ == version_text(version@, *url),
        entry_sections(r.commits@) == sections_of(commits@, *authors, *url),
        r.description == description,
{
    let version_line = link(version, &["/releases/tag/", version], url);
    let mut sections: Vec<(String, Vec<ChangelogCommit>)> = Vec::new();
    let mut i: usize = 0;
    while i < commits.len()
        invariant
            i <= commits@.len(),
            forall|j: int| 0 <= j < commits@.len() ==> (#[trigger] commits@[j]).commit_id@.len() >= 7,
            distinct_names(*authors),
            entry_sections(sections@) == sections_of(commits@.take(i as int), *authors, *url),
        decreases commits@.len() - i,
    {
        let record = &commits[i];
        assert(commits@.take(i + 1).drop_last() =~= commits@.take(i as int));
        let heading = display_commit_type(&record.commit_type);
        let id = record.commit_id.as_str();
        let hash = match url {
            Some(_) => {
                let short = id.substring_char(0, 7);
                link(short, &["/commit/", id], url)
            },
            None => String::from_str(id),
        };
        let line = ChangelogCommit {
            scope: match &record.scope {
                Some(s) => Some(s.clone()),
                None => None,
            },
            summary: record.summary.clone(),
            hash,
            author: author_name(record.author.clone(), authors, url),
        };
        assert(commit_view(line) == record_view(*record, *authors, *url));
        let ghost before = entry_sections(sections@);
        let ghost old_sections = sections@;
        match find_section(&sections, &heading) {
            Some(k) => {
                proof {
                    lemma_section_found(before, heading@, k as int);
                }
                let (h, mut lines) = sections.remove(k);
                let ghost old_lines = lines@;
                lines.push(line);
                sections.insert(k, (h, lines));
                assert(sections@ =~= old_sections.update(k as int, (h, lines)));
                assert(lines@.map_values(|c: ChangelogCommit| commit_view(c)) =~= old_lines.map_values(
                    |c: ChangelogCommit| commit_view(c),
                ).push(commit_view(line)));
                assert(entry_sections(sections@) =~= before.update(
                    k as int,
                    (heading@, before[k as int].1.push(commit_view(line))),
                ));
            },
            None => {
                let mut lines: Vec<ChangelogCommit> = Vec::new();
                lines.push(line);
                sections.push((heading, lines));
                assert(lines@.map_values(|c: ChangelogCommit| commit_view(c)) =~= seq![commit_view(line)]);
                assert(entry_sections(sections@) =~= before.push((heading@, seq![commit_view(line)])));
            },
        }
        i = i + 1;
    }
    assert(commits@.take(i as int) =~= commits@);
    ChangelogEntry { version: version_line, commits: sections, description }
}


/// Where `pat` first occurs in `text`.
pub open spec fn first_occurrence(text: Seq<u8>, pat: Seq<u8>) -> Option<int> {
    if occurrences(text, pat).len() > 0 {
        Some(occurrences(text, pat)[0])
    } else {
        None
    }
}

/// Finds where `pat` first occurs in `text`.
fn find_first(text: &[u8], pat: &[u8]) -> (r: Option<usize>)
    ensures
        r matches Some(k) ==> first_occurrence(text@, pat@) == Some(k as int) && k <= text@.len(),
        r is None ==> first_occurrence(text@, pat@) is None,
{
    if pat.len() == 0 || pat.len() > text.len() {
        return None;
    }
    let n = text.len();
    let last = n - pat.len();
    let mut i: usize = 0;
    while i <= last
        invariant
            pat@.len() > 0,
            n == text@.len(),
            last + pat@.len() == text@.len(),
            occurrences(text@, pat@) == occurrences_from(text@, pat@, i as int),
        decreases last + 1 - i,
    {
        let mut j: usize = 0;
        let mut same = true;
        while j < pat.len() && same
            invariant
                j <= pat@.len(),
                i <= last,
                n == text@.len(),
                last + pat@.len() == text@.len(),
                same ==> forall|t: int| 0 <= t < j ==> text@[i + t] == pat@[t],
                !same ==> text@.subrange(i as int, i + pat@.len()) != pat@,
            decreases pat@.len() - j,
        {
            if text[i + j] != pat[j] {
                assert(text@.subrange(i as int, i + pat@.len())[j as int] != pat@[j as int]);
                same = false;
            }
            j = j + 1;
        }
        if same {
            assert(text@.subrange(i as int, i + pat@.len()) =~= pat@);
            return Some(i);
        }
        i = i + 1;
    }
    None
}

/// The marker that separates a changelog's header from its entries.
pub open spec fn marker() -> Seq<u8> {
    encode_utf8("- - -"@)
}

/// The changelog with a new entry: after the header (everything before the
/// first marker) come a marker, the entry, and the old changelog from its
/// first marker on. Without an old changelog, a new one holds the entry
/// between two markers. None when the old changelog has no marker.
pub open spec fn stitched(existing: Option<Seq<u8>>, contents: Seq<u8>) -> Option<Seq<u8>> {
    match existing {
        None => Some(encode_utf8("# Changelog\n\n- - -\n\n"@) + contents + encode_utf8(
            "\n\n- - -\n\ngenerated by [bomper](https://github.com/justinrubek/bomper)"@,
        )),
        Some(text) => match first_occurrence(text, marker()) {
            Some(k) => Some(text.take(k) + marker() + encode_utf8("\n\n"@) + contents + encode_utf8(
                "\n"@,
            ) + text.skip(k)),
            None => None,
        },
    }
}

/// Appends `b` to `out`.
fn push_all(out: &mut Vec<u8>, b: &[u8])
    ensures
        final(out)@ == old(out)@ + b@,
{
    let mut i: usize = 0;
    while i < b.len()
        invariant
            i <= b@.len(),
            out@ == old(out)@ + b@.subrange(0, i as int),
        decreases b@.len() - i,
    {
        out.push(b[i]);
        assert(b@.subrange(0, i + 1) =~= b@.subrange(0, i as int).push(b@[i as int]));
        i = i + 1;
    }
    assert(b@.subrange(0, b@.len() as int) =~= b@);
}

/// The changelog with the rendered entry `contents` put in, as `stitched`
/// describes it.
pub fn create_changelog(existing: Option<&[u8]>, contents: &[u8]) -> (r: Result<Vec<u8>, BumpError>)
    ensures
        r is Ok <==> stitched(
            match existing {
                Some(t) => Some(t@),
                None => None,
            },
            contents@,
        ) is Some,
        r matches Ok(out) ==> Some(out@) == stitched(
            match existing {
                Some(t) => Some(t@),
                None => None,
            },
            contents@,
        ),
        r matches Err(e) ==> e is ChangelogMarker,
{
    match existing {
        None => {
            let mut out: Vec<u8> = Vec::new();
            push_all(&mut out, "# Changelog\n\n- - -\n\n".as_bytes());
            push_all(&mut out, contents);
            push_all(
                &mut out,
                "\n\n- - -\n\ngenerated by [bomper](https://github.com/justinrubek/bomper)".as_bytes(),
            );
            Ok(out)
        },
        Some(text) => {
            let mark = "- - -".as_bytes();
            match find_first(text, mark) {
                None => Err(BumpError::ChangelogMarker),
                Some(k) => {
                    let mut out = slice_to_vec(vstd::slice::slice_subrange(text, 0, k));
                    push_all(&mut out, mark);
                    push_all(&mut out, "\n\n".as_bytes());
                    push_all(&mut out, contents);
                    push_all(&mut out, "\n".as_bytes());
                    push_all(&mut out, vstd::slice::slice_subrange(text, k, text.len()));
                    assert(text@.subrange(0, k as int) =~= text@.take(k as int));
                    assert(text@.subrange(k as int, text@.len() as int) =~= text@.skip(k as int));
                    Ok(out)
                },
            }
        },
    }
}

} // verus!
