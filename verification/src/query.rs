//! The queries of the command line: what each is asked with, the options
//! that it runs with, and the lines that it prints.

use vstd::prelude::*;
use crate::project::{Project, ProjectView, Task};
use crate::text::{join_with, joined_with, same_text, trim_text, trimmed};

verus! {

/// What the query of a hash is asked with.
#[derive(Debug, PartialEq, Eq)]
pub struct QueryHashArgs {
    /// The hash to inspect.
    pub hash: String,
    /// Print the manifest as JSON.
    pub json: bool,
}

/// What the comparison of two hashes is asked with.
#[derive(Debug, PartialEq, Eq)]
pub struct QueryHashDiffArgs {
    /// The hash to compare against.
    pub left: String,
    /// The hash to compare with.
    pub right: String,
    /// Print the comparison as JSON.
    pub json: bool,
}

/// What the query of projects is asked with.
#[derive(Debug, PartialEq, Eq)]
pub struct QueryProjectsArgs {
    pub query: Option<String>,
    pub alias: Option<String>,
    pub affected: bool,
    pub id: Option<String>,
    pub json: bool,
    pub language: Option<String>,
    pub source: Option<String>,
    pub tags: Option<String>,
    pub tasks: Option<String>,
    pub type_of: Option<String>,
}

/// What the query of tasks is asked with.
#[derive(Debug, PartialEq, Eq)]
pub struct QueryTasksArgs {
    pub query: Option<String>,
    pub alias: Option<String>,
    pub affected: bool,
    pub id: Option<String>,
    pub json: bool,
    pub language: Option<String>,
    pub source: Option<String>,
    pub tasks: Option<String>,
    pub type_of: Option<String>,
}

/// How a file was touched.
#[derive(Clone, Copy, Debug, PartialEq, Eq, Structural)]
pub enum TouchedStatus {
    Added,
    All,
    Deleted,
    Modified,
    Staged,
    Unstaged,
    Untracked,
}

/// What the query of touched files is asked with.
#[derive(Debug, PartialEq, Eq)]
pub struct QueryTouchedFilesArgs {
    pub base: Option<String>,
    pub default_branch: bool,
    pub head: Option<String>,
    pub json: bool,
    pub local: bool,
    pub status: Vec<TouchedStatus>,
}

/// The options that a query of projects runs with.
#[derive(Debug, PartialEq, Eq)]
pub struct QueryProjectsOptions {
    pub alias: Option<String>,
    pub affected: bool,
    pub id: Option<String>,
    pub json: bool,
    pub language: Option<String>,
    pub query: Option<String>,
    pub source: Option<String>,
    pub tags: Option<String>,
    pub tasks: Option<String>,
    pub touched_files: Vec<String>,
    pub type_of: Option<String>,
}

/// The options that a query of touched files runs with.
#[derive(Debug, PartialEq, Eq)]
pub struct QueryTouchedFilesOptions {
    pub base: Option<String>,
    pub default_branch: bool,
    pub head: Option<String>,
    pub json: bool,
    pub local: bool,
    pub log: bool,
    pub status: Vec<TouchedStatus>,
}

impl QueryProjectsArgs {
    /// The options of the query. The touched files count only where the
    /// query asks for affected projects.
    pub fn into_options(self, touched_files: Vec<String>) -> (out: QueryProjectsOptions)
        ensures
            out.alias == self.alias,
            out.affected == self.affected,
            out.id == self.id,
            out.json == self.json,
            out.language == self.language,
            out.query == self.query,
            out.source == self.source,
            out.tags == self.tags,
            out.tasks == self.tasks,
            out.type_of == self.type_of,
            self.affected ==> out.touched_files == touched_files,
            !self.affected ==> out.touched_files@.len() == 0,
    {
        let files = if self.affected {
            touched_files
        } else {
            Vec::new()
        };
        QueryProjectsOptions {
            alias: self.alias,
            affected: self.affected,
            id: self.id,
            json: self.json,
            language: self.language,
            query: self.query,
            source: self.source,
            tags: self.tags,
            tasks: self.tasks,
            touched_files: files,
            type_of: self.type_of,
        }
    }
}

impl QueryTasksArgs {
    /// The options of the query of the projects whose tasks are asked for:
    /// projects are not filtered by what is affected, nor by tags.
    pub fn into_options(self) -> (out: QueryProjectsOptions)
        ensures
            out.alias == self.alias,
            !out.affected,
            out.id == self.id,
            out.json == self.json,
            out.language == self.language,
            out.query == self.query,
            out.source == self.source,
            out.tags is None,
            out.tasks == self.tasks,
            out.type_of == self.type_of,
            out.touched_files@.len() == 0,
    {
        QueryProjectsOptions {
            alias: self.alias,
            affected: false,
            id: self.id,
            json: self.json,
            language: self.language,
            query: self.query,
            source: self.source,
            tags: None,
            tasks: self.tasks,
            touched_files: Vec::new(),
            type_of: self.type_of,
        }
    }
}

impl QueryTouchedFilesArgs {
    /// The options of the query: as asked, and without logging.
    pub fn into_options(self) -> (out: QueryTouchedFilesOptions)
        ensures
            out.base == self.base,
            out.default_branch == self.default_branch,
            out.head == self.head,
            out.json == self.json,
            out.local == self.local,
            !out.log,
            out.status == self.status,
    {
        QueryTouchedFilesOptions {
            base: self.base,
            default_branch: self.default_branch,
            head: self.head,
            json: self.json,
            local: self.local,
            log: false,
            status: self.status,
        }
    }
}

/// What a query knows of a project.
#[derive(Debug, PartialEq, Eq)]
pub struct ProjectFacts {
    pub id: String,
    pub alias: Option<String>,
    pub language: String,
    pub source: String,
    pub type_of: String,
    pub tags: Vec<String>,
    /// The ids of the tasks of the project.
    pub tasks: Vec<String>,
    /// One of the tasks of the project has an input among the touched
    /// files.
    pub affected: bool,
}

/// The filter lets the value pass: there is no filter, or the value is the
/// one that it asks for.
pub open spec fn passes(filter: Option<Seq<char>>, value: Seq<char>) -> bool {
    filter matches Some(wanted) ==> wanted == value
}

/// Every one of `wanted` is among `had`.
pub open spec fn has_all(had: Seq<Seq<char>>, wanted: Seq<Seq<char>>) -> bool {
    forall|i: int| 0 <= i < wanted.len() ==> had.contains(#[trigger] wanted[i])
}

fn filter_passes(filter: &Option<String>, value: &String) -> (out: bool)
    ensures
        out == passes(filter.deep_view(), value@),
{
    match filter {
        Some(wanted) => same_text(wanted, value),
        None => true,
    }
}

fn holds_text(list: &Vec<String>, text: &String) -> (out: bool)
    ensures
        out == list.deep_view().contains(text@),
{
    let ghost all = list.deep_view();
    let mut i: usize = 0;
    while i < list.len()
        invariant
            i <= list.len(),
            all == list.deep_view(),
            forall|k: int| 0 <= k < i ==> all[k] != text@,
        decreases list.len() - i,
    {
        assert(all[i as int] == list[i as int]@);
        if same_text(&list[i], text) {
            return true;
        }
        i += 1;
    }
    false
}

fn holds_all(had: &Vec<String>, wanted: &Vec<String>) -> (out: bool)
    ensures
        out == has_all(had.deep_view(), wanted.deep_view()),
{
    let ghost all = wanted.deep_view();
    let mut i: usize = 0;
    while i < wanted.len()
        invariant
            i <= wanted.len(),
            all == wanted.deep_view(),
            forall|k: int| 0 <= k < i ==> had.deep_view().contains(#[trigger] all[k]),
        decreases wanted.len() - i,
    {
        assert(all[i as int] == wanted[i as int]@);
        if !holds_text(had, &wanted[i]) {
            return false;
        }
        i += 1;
    }
    true
}

/// Whether a query of projects takes a project: it does where the project
/// passes the filters on its id, alias, language, source and type, has all
/// the tags and all the tasks that are asked for, and is affected where
/// only affected projects are asked for. A project without an alias passes
/// a filter on the alias only if the filter asks for the empty alias.
pub fn project_selected(
    options: &QueryProjectsOptions,
    facts: &ProjectFacts,
    tags: &Vec<String>,
    tasks: &Vec<String>,
) -> (out: bool)
    ensures
        out == ({
            &&& passes(options.id.deep_view(), facts.id@)
            &&& passes(
                options.alias.deep_view(),
                match facts.alias {
                    Some(alias) => alias@,
                    None => Seq::empty(),
                },
            )
            &&& passes(options.language.deep_view(), facts.language@)
            &&& passes(options.source.deep_view(), facts.source@)
            &&& passes(options.type_of.deep_view(), facts.type_of@)
            &&& has_all(facts.tags.deep_view(), tags.deep_view())
            &&& has_all(facts.tasks.deep_view(), tasks.deep_view())
            &&& options.affected ==> facts.affected
        }),
{
    let alias = match &facts.alias {
        Some(alias) => alias.clone(),
        None => String::new(),
    };
    filter_passes(&options.id, &facts.id) && filter_passes(&options.alias, &alias)
        && filter_passes(&options.language, &facts.language) && filter_passes(
        &options.source,
        &facts.source,
    ) && filter_passes(&options.type_of, &facts.type_of) && holds_all(&facts.tags, tags)
        && holds_all(&facts.tasks, tasks) && (!options.affected || facts.affected)
}

/// The line of a project in the list of projects.
pub fn project_line(id: &str, source: &str, type_of: &str, language: &str) -> (out: String)
    ensures
        out@ == id@ + " | "@ + source@ + " | "@ + type_of@ + " | "@ + language@,
{
    let mut out = id.to_owned();
    out.append(" | ");
    out.append(source);
    out.append(" | ");
    out.append(type_of);
    out.append(" | ");
    out.append(language);
    out
}

/// The line of a task in the list of tasks.
pub fn task_line(task: &Task) -> (out: String)
    ensures
        out@ == "\t:"@ + task.id@ + " | "@ + task.command@,
{
    let mut out = "\t:".to_owned();
    out.append(task.id.as_str());
    out.append(" | ");
    out.append(task.command.as_str());
    out
}

/// The lines as one text, one below the other.
pub fn lines_text(lines: &Vec<String>) -> (out: String)
    ensures
        out@ == joined_with(lines.deep_view(), "\n"@, lines.len() as int),
{
    join_with(lines, "\n")
}

/// The indices of the first `upto` tasks of the project that are to be
/// listed: all of them, or where only affected tasks are asked for, those
/// with an input among the touched files.
pub open spec fn listed_tasks(
    project: ProjectView,
    affected: bool,
    touched: Seq<Seq<char>>,
    upto: int,
) -> Seq<usize>
    decreases upto,
{
    if upto <= 0 {
        Seq::empty()
    } else {
        let rest = listed_tasks(project, affected, touched, upto - 1);
        if !affected || project.tasks[upto - 1].is_affected(touched) {
            rest.push((upto - 1) as usize)
        } else {
            rest
        }
    }
}

/// The indices of the tasks of the project that are to be listed.
pub fn tasks_to_list(project: &Project, affected: bool, touched: &Vec<String>) -> (out: Vec<usize>)
    ensures
        out@ == listed_tasks(project@, affected, touched.deep_view(), project.tasks.len() as int),
{
    let mut out: Vec<usize> = Vec::new();
    let mut t: usize = 0;
    while t < project.tasks.len()
        invariant
            t <= project.tasks.len(),
            out@ == listed_tasks(project@, affected, touched.deep_view(), t as int),
        decreases project.tasks.len() - t,
    {
        assert(project@.tasks[t as int] == project.tasks[t as int]@);
        if !affected || project.tasks[t].is_affected(touched) {
            out.push(t);
        }
        t += 1;
    }
    out
}

/// A line of a comparison of two texts.
#[derive(Debug, PartialEq, Eq)]
pub enum DiffLine {
    /// A line of the left text only.
    Left(String),
    /// A line of both texts, as it stands in the left and in the right.
    Both(String, String),
    /// A line of the right text only.
    Right(String),
}

/// The mathematical value of a [`DiffLine`].
pub enum DiffLineView {
    Left(Seq<char>),
    Both(Seq<char>, Seq<char>),
    Right(Seq<char>),
}

impl View for DiffLine {
    type V = DiffLineView;

    open spec fn view(&self) -> DiffLineView {
        match self {
            DiffLine::Left(l) => DiffLineView::Left(l@),
            DiffLine::Both(l, r) => DiffLineView::Both(l@, r@),
            DiffLine::Right(r) => DiffLineView::Right(r@),
        }
    }
}

impl DeepView for DiffLine {
    type V = DiffLineView;

    open spec fn deep_view(&self) -> DiffLineView {
        self@
    }
}

/// The comparison of the lines of two texts, as the diff crate makes it.
pub uninterp spec fn line_diff(left: Seq<char>, right: Seq<char>) -> Seq<DiffLineView>;

/// Compares the lines of two texts.
///
/// Trusted: `diff::lines`, which gives the lines of both texts in order,
/// each as a line of the left text only, of the right text only, or of
/// both. The contract only gives its result a name.
#[verifier::external_body]
pub(crate) fn diff_lines(left: &str, right: &str) -> (out: Vec<DiffLine>)
    ensures
        out.deep_view() == line_diff(left@, right@),
{
    diff::lines(left, right)
        .into_iter()
        .map(
            |d|
                match d {
                    diff::Result::Left(l) => DiffLine::Left(l.to_owned()),
                    diff::Result::Both(l, r) => DiffLine::Both(l.to_owned(), r.to_owned()),
                    diff::Result::Right(r) => DiffLine::Right(r.to_owned()),
                },
        )
        .collect()
}

/// The lines of the first `upto` of `lines` that stand in the left text
/// only, or in the right text only if `right`, each without the white
/// space at its ends.
pub open spec fn side_lines(lines: Seq<DiffLineView>, right: bool, upto: int) -> Seq<Seq<char>>
    decreases upto,
{
    if upto <= 0 {
        Seq::empty()
    } else {
        let rest = side_lines(lines, right, upto - 1);
        match lines[upto - 1] {
            DiffLineView::Left(l) => if right {
                rest
            } else {
                rest.push(trimmed(l))
            },
            DiffLineView::Right(r) => if right {
                rest.push(trimmed(r))
            } else {
                rest
            },
            DiffLineView::Both(_, _) => rest,
        }
    }
}

fn push_line(list: &mut Vec<String>, line: String)
    ensures
        final(list).len() == old(list).len() + 1,
        final(list).deep_view() == old(list).deep_view().push(line@),
{
    let ghost before = list.deep_view();
    let ghost added = line@;
    list.push(line);
    assert(list.deep_view() =~= before.push(added));
}

/// The lines that only the left text has, and those that only the right
/// text has, each without the white space at its ends.
pub fn side_diffs(lines: &Vec<DiffLine>) -> (out: (Vec<String>, Vec<String>))
    ensures
        out.0.deep_view() == side_lines(lines.deep_view(), false, lines.len() as int),
        out.1.deep_view() == side_lines(lines.deep_view(), true, lines.len() as int),
{
    let ghost all = lines.deep_view();
    let mut left: Vec<String> = Vec::new();
    let mut right: Vec<String> = Vec::new();
    assert(left.deep_view() =~= Seq::<Seq<char>>::empty());
    assert(right.deep_view() =~= Seq::<Seq<char>>::empty());
    let mut i: usize = 0;
    while i < lines.len()
        invariant
            i <= lines.len(),
            all == lines.deep_view(),
            left.deep_view() == side_lines(all, false, i as int),
            right.deep_view() == side_lines(all, true, i as int),
        decreases lines.len() - i,
    {
        assert(all[i as int] == lines[i as int]@);
        match &lines[i] {
            DiffLine::Left(l) => {
                push_line(&mut left, trim_text(l.as_str()));
            },
            DiffLine::Right(r) => {
                push_line(&mut right, trim_text(r.as_str()));
            },
            DiffLine::Both(_, _) => {},
        }
        i += 1;
    }
    (left, right)
}

/// A line of a comparison as it is printed without colours: a plus sign
/// before a line of the left text, a minus sign before a line of the right
/// text, a space before a line of both.
pub open spec fn marked(line: DiffLineView) -> Seq<char> {
    match line {
        DiffLineView::Left(l) => seq!['+'] + l,
        DiffLineView::Both(l, _) => seq![' '] + l,
        DiffLineView::Right(r) => seq!['-'] + r,
    }
}

/// The lines of a comparison as they are printed without colours.
pub fn marked_lines(lines: &Vec<DiffLine>) -> (out: Vec<String>)
    ensures
        out.len() == lines.len(),
        forall|i: int| 0 <= i < lines.len() ==> #[trigger] out.deep_view()[i] == marked(lines.deep_view()[i]),
{
    let ghost all = lines.deep_view();
    let mut out: Vec<String> = Vec::new();
    let mut i: usize = 0;
    while i < lines.len()
        invariant
            i <= lines.len(),
            all == lines.deep_view(),
            out.len() == i,
            forall|k: int| 0 <= k < i ==> #[trigger] out.deep_view()[k] == marked(all[k]),
        decreases lines.len() - i,
    {
        assert(all[i as int] == lines[i as int]@);
        proof {
            reveal_strlit("+");
            reveal_strlit(" ");
            reveal_strlit("-");
        }
        let line = match &lines[i] {
            DiffLine::Left(l) => {
                let mut s = "+".to_owned();
                s.append(l.as_str());
                assert(s@ =~= seq!['+'] + l@);
                s
            },
            DiffLine::Both(l, _) => {
                let mut s = " ".to_owned();
                s.append(l.as_str());
                assert(s@ =~= seq![' '] + l@);
                s
            },
            DiffLine::Right(r) => {
                let mut s = "-".to_owned();
                s.append(r.as_str());
                assert(s@ =~= seq!['-'] + r@);
                s
            },
        };
        let ghost before = out.deep_view();
        push_line(&mut out, line);
        assert forall|k: int| 0 <= k < i + 1 implies #[trigger] out.deep_view()[k] == marked(
            all[k],
        ) by {
            if k < i {
                assert(out.deep_view()[k] == before[k]);
            }
        }
        i += 1;
    }
    out
}

/// What the comparison of two manifests comes to: the lines that only the
/// left has and those that only the right has, and the lines of the whole
/// comparison as they are printed without colours.
#[derive(Debug, PartialEq, Eq)]
pub struct HashDiff {
    pub left_diffs: Vec<String>,
    pub right_diffs: Vec<String>,
    pub lines: Vec<String>,
}

/// What the compared lines `lines` come to.
pub fn diff_report(lines: &Vec<DiffLine>) -> (out: HashDiff)
    ensures
        out.left_diffs.deep_view() == side_lines(lines.deep_view(), false, lines.len() as int),
        out.right_diffs.deep_view() == side_lines(lines.deep_view(), true, lines.len() as int),
        out.lines.len() == lines.len(),
        forall|i: int|
            0 <= i < lines.len() ==> #[trigger] out.lines.deep_view()[i] == marked(
                lines.deep_view()[i],
            ),
{
    let (left_diffs, right_diffs) = side_diffs(lines);
    HashDiff { left_diffs, right_diffs, lines: marked_lines(lines) }
}

/// Compares two manifests line by line.
pub fn hash_diff(left: &str, right: &str) -> (out: HashDiff)
    ensures
        out.left_diffs.deep_view() == side_lines(
            line_diff(left@, right@),
            false,
            line_diff(left@, right@).len() as int,
        ),
        out.right_diffs.deep_view() == side_lines(
            line_diff(left@, right@),
            true,
            line_diff(left@, right@).len() as int,
        ),
        out.lines.len() == line_diff(left@, right@).len(),
        forall|i: int|
            0 <= i < out.lines.len() ==> #[trigger] out.lines.deep_view()[i] == marked(
                line_diff(left@, right@)[i],
            ),
{
    let lines = diff_lines(left, right);
    diff_report(&lines)
}

} // verus!
