//! Target addresses: a task reference with an optional project scope.

use vstd::prelude::*;
use crate::text::{from_chars, same_text, to_chars};

verus! {

/// The scope part of a target address.
#[derive(Debug, PartialEq, Eq)]
pub enum TargetScope {
    /// Every project that declares the task: `:task`.
    All,
    /// The projects that the current project depends on: `^:task`.
    Deps,
    /// The current project: `~:task`.
    OwnSelf,
    /// One project, by id or alias: `project:task`.
    Project(String),
}

/// The mathematical value of a [`TargetScope`].
pub enum ScopeView {
    All,
    Deps,
    OwnSelf,
    Project(Seq<char>),
}

impl View for TargetScope {
    type V = ScopeView;

    open spec fn view(&self) -> ScopeView {
        match self {
            TargetScope::All => ScopeView::All,
            TargetScope::Deps => ScopeView::Deps,
            TargetScope::OwnSelf => ScopeView::OwnSelf,
            TargetScope::Project(id) => ScopeView::Project(id@),
        }
    }
}

impl DeepView for TargetScope {
    type V = ScopeView;

    open spec fn deep_view(&self) -> ScopeView {
        self@
    }
}

impl Clone for TargetScope {
    fn clone(&self) -> (out: Self)
        ensures
            out@ == self@,
    {
        match self {
            TargetScope::All => TargetScope::All,
            TargetScope::Deps => TargetScope::Deps,
            TargetScope::OwnSelf => TargetScope::OwnSelf,
            TargetScope::Project(id) => TargetScope::Project(id.clone()),
        }
    }
}

impl TargetScope {
    /// Whether two scopes denote the same value.
    pub fn same(&self, other: &TargetScope) -> (out: bool)
        ensures
            out == (self@ == other@),
    {
        match (self, other) {
            (TargetScope::All, TargetScope::All) => true,
            (TargetScope::Deps, TargetScope::Deps) => true,
            (TargetScope::OwnSelf, TargetScope::OwnSelf) => true,
            (TargetScope::Project(a), TargetScope::Project(b)) => same_text(a, b),
            _ => false,
        }
    }
}

/// A task reference: a scope and the id of a task.
#[derive(Debug, PartialEq, Eq)]
pub struct Target {
    pub scope: TargetScope,
    pub task_id: String,
}

/// The mathematical value of a [`Target`].
pub struct TargetView {
    pub scope: ScopeView,
    pub task_id: Seq<char>,
}

impl View for Target {
    type V = TargetView;

    open spec fn view(&self) -> TargetView {
        TargetView { scope: self.scope@, task_id: self.task_id@ }
    }
}

impl DeepView for Target {
    type V = TargetView;

    open spec fn deep_view(&self) -> TargetView {
        self@
    }
}

impl Clone for Target {
    fn clone(&self) -> (out: Self)
        ensures
            out@ == self@,
    {
        Target { scope: self.scope.clone(), task_id: self.task_id.clone() }
    }
}

impl Target {
    /// Whether two targets denote the same value.
    pub fn same(&self, other: &Target) -> (out: bool)
        ensures
            out == (self@ == other@),
    {
        self.scope.same(&other.scope) && self.task_id == other.task_id
    }
}

/// A text that is no target address.
#[derive(Debug, PartialEq, Eq)]
pub struct TargetError {
    /// The text as it was given.
    pub input: String,
}

/// A character that an id may hold: an ASCII letter or digit, or one of
/// `_`, `-`, `.`, `/` and `@`.
pub open spec fn is_id_char(c: char) -> bool {
    ||| 'a' <= c <= 'z'
    ||| 'A' <= c <= 'Z'
    ||| '0' <= c <= '9'
    ||| c == '_'
    ||| c == '-'
    ||| c == '.'
    ||| c == '/'
    ||| c == '@'
}

/// An id: one or more id characters.
pub open spec fn is_id(s: Seq<char>) -> bool {
    s.len() > 0 && forall|i: int| 0 <= i < s.len() ==> is_id_char(#[trigger] s[i])
}

impl ScopeView {
    /// The text of the scope, as it stands before the colon.
    pub open spec fn text(self) -> Seq<char> {
        match self {
            ScopeView::All => Seq::empty(),
            ScopeView::Deps => seq!['^'],
            ScopeView::OwnSelf => seq!['~'],
            ScopeView::Project(id) => id,
        }
    }
}

impl TargetView {
    /// The target in text: the scope, a colon, the id of the task.
    pub open spec fn text(self) -> Seq<char> {
        self.scope.text() + seq![':'] + self.task_id
    }

    /// The ids in the target are ids.
    pub open spec fn valid(self) -> bool {
        &&& is_id(self.task_id)
        &&& self.scope matches ScopeView::Project(id) ==> is_id(id)
    }
}

/// `text` is the text of the valid target `target`.
pub open spec fn parses_to(text: Seq<char>, target: TargetView) -> bool {
    target.valid() && target.text() == text
}

/// The colon of a target address is the first colon in its text.
proof fn lemma_first_colon(text: Seq<char>, target: TargetView)
    requires
        parses_to(text, target),
    ensures
        target.scope.text().len() < text.len(),
        text[target.scope.text().len() as int] == ':',
        forall|i: int| 0 <= i < target.scope.text().len() ==> text[i] != ':',
        text.subrange(0, target.scope.text().len() as int) == target.scope.text(),
        text.subrange(target.scope.text().len() as int + 1, text.len() as int) == target.task_id,
{
    let head = target.scope.text();
    assert forall|i: int| 0 <= i < head.len() implies text[i] != ':' by {
        assert(text[i] == head[i]);
        match target.scope {
            ScopeView::Project(id) => {
                assert(is_id_char(id[i]));
            },
            _ => {},
        }
    }
    assert(text.subrange(0, head.len() as int) =~= head);
    assert(text.subrange(head.len() as int + 1, text.len() as int) =~= target.task_id);
}

/// A text is the text of one valid target at most.
pub proof fn lemma_parse_unique(text: Seq<char>, a: TargetView, b: TargetView)
    requires
        parses_to(text, a),
        parses_to(text, b),
    ensures
        a == b,
{
    lemma_first_colon(text, a);
    lemma_first_colon(text, b);
    let i = a.scope.text().len() as int;
    let j = b.scope.text().len() as int;
    if i < j {
        assert(text[i] != ':');
    }
    if j < i {
        assert(text[j] != ':');
    }
    match (a.scope, b.scope) {
        (ScopeView::Project(x), ScopeView::Deps) => {
            assert(is_id_char(x[0]));
        },
        (ScopeView::Project(x), ScopeView::OwnSelf) => {
            assert(is_id_char(x[0]));
        },
        (ScopeView::Deps, ScopeView::Project(y)) => {
            assert(is_id_char(y[0]));
        },
        (ScopeView::OwnSelf, ScopeView::Project(y)) => {
            assert(is_id_char(y[0]));
        },
        (ScopeView::Deps, ScopeView::OwnSelf) => {
            assert(a.scope.text()[0] == b.scope.text()[0]);
        },
        (ScopeView::OwnSelf, ScopeView::Deps) => {
            assert(a.scope.text()[0] == b.scope.text()[0]);
        },
        _ => {},
    }
}

/// The text of a valid target is read back as that target, and as no
/// other.
pub proof fn lemma_text_parses(target: TargetView)
    requires
        target.valid(),
    ensures
        parses_to(target.text(), target),
        forall|other: TargetView| parses_to(target.text(), other) ==> other == target,
{
    assert forall|other: TargetView| parses_to(target.text(), other) implies other == target by {
        lemma_parse_unique(target.text(), other, target);
    }
}

fn id_char(c: char) -> (out: bool)
    ensures
        out == is_id_char(c),
{
    (c >= 'a' && c <= 'z') || (c >= 'A' && c <= 'Z') || (c >= '0' && c <= '9') || c == '_' || c
        == '-' || c == '.' || c == '/' || c == '@'
}

/// Whether the characters from `from` up to `to` are an id.
fn id_between(chars: &Vec<char>, from: usize, to: usize) -> (out: bool)
    requires
        from <= to <= chars.len(),
    ensures
        out == is_id(chars@.subrange(from as int, to as int)),
{
    if from == to {
        return false;
    }
    let ghost part = chars@.subrange(from as int, to as int);
    let mut i: usize = from;
    while i < to
        invariant
            from <= i <= to,
            to <= chars.len(),
            part == chars@.subrange(from as int, to as int),
            forall|k: int| 0 <= k < i - from ==> is_id_char(#[trigger] part[k]),
        decreases to - i,
    {
        if !id_char(chars[i]) {
            assert(!is_id_char(part[i - from]));
            return false;
        }
        i += 1;
    }
    true
}

fn copy_between(chars: &Vec<char>, from: usize, to: usize) -> (out: String)
    requires
        from <= to <= chars.len(),
    ensures
        out@ == chars@.subrange(from as int, to as int),
{
    let mut part: Vec<char> = Vec::new();
    let mut i: usize = from;
    while i < to
        invariant
            from <= i <= to,
            to <= chars.len(),
            part@ == chars@.subrange(from as int, i as int),
        decreases to - i,
    {
        part.push(chars[i]);
        assert(part@ =~= chars@.subrange(from as int, i as int + 1));
        i += 1;
    }
    from_chars(&part)
}

impl Target {
    /// The target of a task of one project, if both ids are ids.
    pub fn new(project: &str, task: &str) -> (out: Result<Target, TargetError>)
        ensures
            out is Ok <==> is_id(project@) && is_id(task@),
            out matches Ok(target) ==> target@ == (TargetView {
                scope: ScopeView::Project(project@),
                task_id: task@,
            }),
            out matches Err(e) ==> e.input@ == project@ + seq![':'] + task@,
    {
        let p = to_chars(project);
        let t = to_chars(task);
        assert(p@.subrange(0, p.len() as int) =~= p@);
        assert(t@.subrange(0, t.len() as int) =~= t@);
        if id_between(&p, 0, p.len()) && id_between(&t, 0, t.len()) {
            Ok(Target { scope: TargetScope::Project(from_chars(&p)), task_id: from_chars(&t) })
        } else {
            let mut all = p;
            all.push(':');
            let mut i: usize = 0;
            while i < t.len()
                invariant
                    i <= t.len(),
                    all@ == project@ + seq![':'] + t@.subrange(0, i as int),
                decreases t.len() - i,
            {
                all.push(t[i]);
                assert(all@ =~= project@ + seq![':'] + t@.subrange(0, i as int + 1));
                i += 1;
            }
            Err(TargetError { input: from_chars(&all) })
        }
    }

    /// Reads a target address: a scope, a colon, and the id of a task. The
    /// scope is empty (all projects), `^` (the dependencies of the current
    /// project), `~` (the current project) or the id of a project.
    pub fn parse(text: &str) -> (out: Result<Target, TargetError>)
        ensures
            out is Ok <==> exists|target: TargetView| parses_to(text@, target),
            out matches Ok(target) ==> parses_to(text@, target@),
            out matches Err(e) ==> e.input@ == text@,
    {
        let chars = to_chars(text);
        let n = chars.len();
        let mut colon: usize = 0;
        while colon < n && chars[colon] != ':'
            invariant
                colon <= n,
                n == chars.len(),
                forall|i: int| 0 <= i < colon ==> chars[i] != ':',
            decreases n - colon,
        {
            colon += 1;
        }
        let ghost head = chars@.subrange(0, colon as int);
        proof {
            assert forall|target: TargetView| parses_to(text@, target) implies colon < n
                && target.scope.text() == head && target.task_id == chars@.subrange(
                colon as int + 1,
                n as int,
            ) by {
                lemma_first_colon(text@, target);
                let i = target.scope.text().len() as int;
                if i < colon {
                    assert(chars[i] != ':');
                }
                if colon < i {
                    assert(text@[colon as int] != ':');
                }
            }
        }
        if colon == n {
            return Err(TargetError { input: from_chars(&chars) });
        }
        if !id_between(&chars, colon + 1, n) {
            return Err(TargetError { input: from_chars(&chars) });
        }
        let task_id = copy_between(&chars, colon + 1, n);
        let scope = if colon == 0 {
            TargetScope::All
        } else if colon == 1 && chars[0] == '^' {
            assert(head =~= seq!['^']);
            TargetScope::Deps
        } else if colon == 1 && chars[0] == '~' {
            assert(head =~= seq!['~']);
            TargetScope::OwnSelf
        } else if id_between(&chars, 0, colon) {
            TargetScope::Project(copy_between(&chars, 0, colon))
        } else {
            proof {
                assert forall|target: TargetView| !parses_to(text@, target) by {
                    if parses_to(text@, target) {
                        match target.scope {
                            ScopeView::All => {},
                            ScopeView::Deps => {
                                assert(head[0] == '^');
                            },
                            ScopeView::OwnSelf => {
                                assert(head[0] == '~');
                            },
                            ScopeView::Project(id) => {},
                        }
                    }
                }
            }
            return Err(TargetError { input: from_chars(&chars) });
        };
        let target = Target { scope, task_id };
        proof {
            assert(target@.scope.text() =~= head);
            assert(target@.text() =~= text@);
            assert(parses_to(text@, target@));
        }
        Ok(target)
    }

    /// The target in text: the scope, a colon, the id of the task.
    pub fn id(&self) -> (out: String)
        ensures
            out@ == self@.text(),
    {
        let mut chars: Vec<char> = match &self.scope {
            TargetScope::All => Vec::new(),
            TargetScope::Deps => {
                let mut v: Vec<char> = Vec::new();
                v.push('^');
                v
            },
            TargetScope::OwnSelf => {
                let mut v: Vec<char> = Vec::new();
                v.push('~');
                v
            },
            TargetScope::Project(id) => to_chars(id.as_str()),
        };
        assert(chars@ =~= self@.scope.text());
        chars.push(':');
        let task = to_chars(self.task_id.as_str());
        let ghost head = chars@;
        let mut i: usize = 0;
        while i < task.len()
            invariant
                i <= task.len(),
                chars@ == head + task@.subrange(0, i as int),
            decreases task.len() - i,
        {
            chars.push(task[i]);
            assert(chars@ =~= head + task@.subrange(0, i as int + 1));
            i += 1;
        }
        assert(chars@ =~= self@.text());
        from_chars(&chars)
    }
}

} // verus!
