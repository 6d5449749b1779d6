//! Command lines: splitting one into arguments, and joining arguments into
//! one.

use vstd::prelude::*;
use crate::text::{from_chars, is_text, to_chars};

verus! {

/// A command line that could not be split into arguments.
#[derive(Debug, PartialEq, Eq)]
pub struct ArgsSplitError {
    /// The command line, as it was handed to the splitter.
    pub args: String,
}

impl ArgsSplitError {
    /// The failure in words.
    pub fn message(&self) -> (out: String)
        ensures
            out@ == "Failed to split arguments \""@ + self.args@ + "\"."@,
    {
        let mut out = "Failed to split arguments \"".to_owned();
        out.append(self.args.as_str());
        out.append("\".");
        out
    }
}

/// The line with a space put before every semicolon that a space follows.
pub open spec fn padded(line: Seq<char>) -> Seq<char>
    decreases line.len(),
{
    if line.len() == 0 {
        Seq::empty()
    } else if line.len() >= 2 && line[0] == ';' && line[1] == ' ' {
        seq![' ', ';', ' '] + padded(line.skip(2))
    } else {
        seq![line[0]] + padded(line.skip(1))
    }
}

/// Puts a space before every semicolon that a space follows, so that the
/// semicolon between two commands is an argument of its own.
pub fn pad_semicolon(line: &str) -> (out: String)
    ensures
        out@ == padded(line@),
{
    let chars = to_chars(line);
    let n = chars.len();
    let mut out: Vec<char> = Vec::new();
    let mut i: usize = 0;
    assert(chars@.skip(0) =~= chars@);
    while i < n
        invariant
            i <= n,
            n == chars.len(),
            chars@ == line@,
            out@ + padded(chars@.skip(i as int)) == padded(chars@),
        decreases n - i,
    {
        let ghost rest = chars@.skip(i as int);
        let ghost before = out@;
        assert(rest[0] == chars[i as int]);
        if chars[i] == ';' && i + 1 < n && chars[i + 1] == ' ' {
            assert(rest[1] == chars[i + 1]);
            assert(rest.skip(2) =~= chars@.skip(i + 2));
            out.push(' ');
            out.push(';');
            out.push(' ');
            assert(out@ + padded(chars@.skip(i + 2)) =~= before + padded(rest));
            i += 2;
        } else {
            assert(rest.skip(1) =~= chars@.skip(i + 1));
            if i + 1 < n {
                assert(rest[1] == chars[i + 1]);
            }
            out.push(chars[i]);
            assert(out@ + padded(chars@.skip(i + 1)) =~= before + padded(rest));
            i += 1;
        }
    }
    assert(out@ + Seq::<char>::empty() =~= out@);
    from_chars(&out)
}

/// The arguments that the shell-words splitter makes of a command line, or
/// `None` where it refuses the line.
pub uninterp spec fn shell_words_of(line: Seq<char>) -> Option<Seq<Seq<char>>>;

/// The word as the shell-words quoter escapes it.
pub uninterp spec fn shell_quoted(word: Seq<char>) -> Seq<char>;

#[verifier::external_type_specification]
#[verifier::external_body]
pub struct ExParseError(shell_words::ParseError);

/// Splits a command line into arguments.
///
/// Trusted: `shell_words::split`, which reads the line as a Unix shell
/// would, with quotes removed, and fails on an unmatched quote. The
/// contract only gives its result a name.
#[verifier::external_body]
fn split_words(line: &str) -> (out: Result<Vec<String>, shell_words::ParseError>)
    ensures
        out matches Ok(words) ==> shell_words_of(line@) == Some(words.deep_view()),
        out is Err ==> shell_words_of(line@) is None,
{
    shell_words::split(line)
}

/// Escapes a word for the shell.
///
/// Trusted: `shell_words::quote`, which escapes the special characters of a
/// word so that a Unix shell reads it as it stands; the style of quoting is
/// its own. The contract only gives its result a name.
#[verifier::external_body]
fn quote_word(word: &str) -> (out: String)
    ensures
        out@ == shell_quoted(word@),
{
    shell_words::quote(word).into_owned()
}

/// What splitting the line `line` came to: the words, or the failure with
/// the line in it.
pub fn split_outcome(line: String, words: Result<Vec<String>, shell_words::ParseError>) -> (out:
    Result<Vec<String>, ArgsSplitError>)
    ensures
        words matches Ok(w) ==> out == Ok::<Vec<String>, ArgsSplitError>(w),
        words is Err ==> out == Err::<Vec<String>, ArgsSplitError>(ArgsSplitError { args: line }),
{
    match words {
        Ok(w) => Ok(w),
        Err(_) => Err(ArgsSplitError { args: line }),
    }
}

/// Splits a command line into arguments, after a space is put before every
/// semicolon that a space follows.
pub fn split_args(line: &str) -> (out: Result<Vec<String>, ArgsSplitError>)
    ensures
        shell_words_of(padded(line@)) matches Some(words) ==> (out matches Ok(list)
            && list.deep_view() == words),
        shell_words_of(padded(line@)) is None ==> (out matches Err(e) && e.args@ == padded(line@)),
{
    let line = pad_semicolon(line);
    let words = split_words(line.as_str());
    split_outcome(line, words)
}

/// An argument that a shell reads as an operator, or that stands for the
/// end of the options.
pub open spec fn is_operator(arg: Seq<char>) -> bool {
    ||| arg == "&"@
    ||| arg == "&&"@
    ||| arg == "|&"@
    ||| arg == "|"@
    ||| arg == "||"@
    ||| arg == ";"@
    ||| arg == "!"@
    ||| arg == ">"@
    ||| arg == ">>"@
    ||| arg == "<"@
    ||| arg == "-"@
    ||| arg == "--"@
}

/// An argument that goes into a command line as it stands: an operator, or
/// one that starts with a dollar sign or a quote.
pub open spec fn stands_as_is(arg: Seq<char>) -> bool {
    is_operator(arg) || (arg.len() > 0 && (arg[0] == '$' || arg[0] == '\'' || arg[0] == '"'))
}

/// An argument as it goes into a command line.
pub open spec fn piece(arg: Seq<char>) -> Seq<char> {
    if stands_as_is(arg) {
        arg
    } else {
        shell_quoted(arg)
    }
}

/// The first `upto` arguments, each as it goes into a command line and with
/// a space after it.
pub open spec fn spaced(args: Seq<Seq<char>>, upto: int) -> Seq<char>
    decreases upto,
{
    if upto <= 0 {
        Seq::empty()
    } else {
        spaced(args, upto - 1) + piece(args[upto - 1]) + seq![' ']
    }
}

/// The command line of the arguments: each as it goes into a command line,
/// with one space between two.
pub open spec fn joined(args: Seq<Seq<char>>) -> Seq<char> {
    if args.len() == 0 {
        Seq::empty()
    } else {
        spaced(args, args.len() as int).drop_last()
    }
}

fn operator(arg: &String) -> (out: bool)
    ensures
        out == is_operator(arg@),
{
    is_text(arg, "&") || is_text(arg, "&&") || is_text(arg, "|&") || is_text(arg, "|") || is_text(
        arg,
        "||",
    ) || is_text(arg, ";") || is_text(arg, "!") || is_text(arg, ">") || is_text(arg, ">>")
        || is_text(arg, "<") || is_text(arg, "-") || is_text(arg, "--")
}

/// Whether an argument goes into a command line as it stands.
pub fn goes_as_is(arg: &String) -> (out: bool)
    ensures
        out == stands_as_is(arg@),
{
    if operator(arg) {
        return true;
    }
    let chars = to_chars(arg.as_str());
    chars.len() > 0 && (chars[0] == '$' || chars[0] == '\'' || chars[0] == '"')
}

/// The first `upto` pieces, each with a space after it.
pub open spec fn with_spaces(pieces: Seq<Seq<char>>, upto: int) -> Seq<char>
    decreases upto,
{
    if upto <= 0 {
        Seq::empty()
    } else {
        with_spaces(pieces, upto - 1) + pieces[upto - 1] + seq![' ']
    }
}

/// The pieces in one line, with one space between two.
pub fn join_pieces(pieces: &Vec<String>) -> (out: String)
    ensures
        pieces.len() == 0 ==> out@.len() == 0,
        pieces.len() > 0 ==> out@ == with_spaces(pieces.deep_view(), pieces.len() as int).drop_last(),
{
    let ghost all = pieces.deep_view();
    let mut line: Vec<char> = Vec::new();
    let mut i: usize = 0;
    while i < pieces.len()
        invariant
            i <= pieces.len(),
            all == pieces.deep_view(),
            line@ == with_spaces(all, i as int),
        decreases pieces.len() - i,
    {
        let part = to_chars(pieces[i].as_str());
        assert(part@ == all[i as int]);
        let ghost before = line@;
        let mut k: usize = 0;
        while k < part.len()
            invariant
                k <= part.len(),
                line@ == before + part@.subrange(0, k as int),
            decreases part.len() - k,
        {
            line.push(part[k]);
            assert(line@ =~= before + part@.subrange(0, k as int + 1));
            k += 1;
        }
        line.push(' ');
        assert(line@ =~= before + part@ + seq![' ']);
        i += 1;
    }
    line.pop();
    assert(pieces.len() > 0 ==> line@ =~= with_spaces(all, all.len() as int).drop_last());
    from_chars(&line)
}

proof fn lemma_spaced(args: Seq<Seq<char>>, pieces: Seq<Seq<char>>, upto: int)
    requires
        0 <= upto <= args.len(),
        pieces.len() >= upto,
        forall|i: int| 0 <= i < upto ==> #[trigger] pieces[i] == piece(args[i]),
    ensures
        with_spaces(pieces, upto) == spaced(args, upto),
    decreases upto,
{
    if upto > 0 {
        lemma_spaced(args, pieces, upto - 1);
    }
}

/// Joins arguments into one command line. Operators, and arguments that
/// start with a dollar sign or a quote, go in as they stand; every other
/// argument is escaped for the shell.
pub fn join_args(args: &Vec<String>) -> (out: String)
    ensures
        out@ == joined(args.deep_view()),
{
    let ghost all = args.deep_view();
    let mut pieces: Vec<String> = Vec::new();
    let mut i: usize = 0;
    while i < args.len()
        invariant
            i <= args.len(),
            all == args.deep_view(),
            pieces.len() == i,
            forall|k: int| 0 <= k < i ==> #[trigger] pieces.deep_view()[k] == piece(all[k]),
        decreases args.len() - i,
    {
        let arg = &args[i];
        assert(all[i as int] == arg@);
        let part = if goes_as_is(arg) {
            arg.clone()
        } else {
            quote_word(arg.as_str())
        };
        let ghost before = pieces.deep_view();
        let ghost added = part@;
        pieces.push(part);
        assert(pieces.deep_view() =~= before.push(added));
        assert forall|k: int| 0 <= k < i + 1 implies #[trigger] pieces.deep_view()[k] == piece(
            all[k],
        ) by {
            if k < i {
                assert(pieces.deep_view()[k] == before[k]);
            }
        }
        i += 1;
    }
    proof {
        lemma_spaced(all, pieces.deep_view(), all.len() as int);
    }
    join_pieces(&pieces)
}

} // verus!
