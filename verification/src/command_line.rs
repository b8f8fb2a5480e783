//! A local program and the argv that it is spawned with.

use std::path::PathBuf;

use vstd::prelude::*;

verus! {

/// A path of the local file system, carried as it is.
#[verifier::external_type_specification]
#[verifier::external_body]
pub struct ExPathBuf(std::path::PathBuf);

/// `PathBuf::clone` gives a path that is the same as the one it copies.
pub assume_specification[ <std::path::PathBuf as Clone>::clone ](path: &PathBuf) -> (result: PathBuf)
    ensures
        result == *path,
;

/// One argv element.
#[derive(Debug, PartialEq, Eq)]
pub enum Word {
    /// Text, byte for byte.
    Text(String),
    /// A path, which need not be valid text.
    Path(PathBuf),
}

/// What a [`Word`] holds.
pub enum WordView {
    Text(Seq<char>),
    Path(PathBuf),
}

impl View for Word {
    type V = WordView;

    open spec fn view(&self) -> WordView {
        match self {
            Word::Text(text) => WordView::Text(text@),
            Word::Path(path) => WordView::Path(*path),
        }
    }
}

/// A program to spawn directly, without a local shell, and its arguments.
#[derive(Debug, PartialEq, Eq)]
pub struct CommandLine {
    /// The program.
    pub program: String,
    /// Its arguments, one argv element each.
    pub args: Vec<Word>,
}

/// What a [`CommandLine`] holds.
pub struct CommandLineView {
    pub program: Seq<char>,
    pub args: Seq<WordView>,
}

impl View for CommandLine {
    type V = CommandLineView;

    open spec fn view(&self) -> CommandLineView {
        CommandLineView {
            program: self.program@,
            args: self.args@.map_values(|word: Word| word@),
        }
    }
}

impl CommandLineView {
    /// The command line with more arguments after those it has.
    pub open spec fn with_args(self, words: Seq<WordView>) -> CommandLineView {
        CommandLineView { program: self.program, args: self.args + words }
    }
}

impl CommandLine {
    /// `program` without arguments.
    pub fn new(program: &str) -> (result: Self)
        ensures
            result@ == (CommandLineView { program: program@, args: Seq::empty() }),
    {
        let result = CommandLine { program: program.to_owned(), args: Vec::new() };
        assert(result@.args =~= Seq::empty());
        result
    }

    /// Adds one text argument.
    pub fn arg(&mut self, text: &str)
        ensures
            final(self)@ == old(self)@.with_args(seq![WordView::Text(text@)]),
    {
        self.args.push(Word::Text(text.to_owned()));
        assert(self@.args =~= old(self)@.args + seq![WordView::Text(text@)]);
    }

    /// Adds one path argument.
    pub fn arg_path(&mut self, path: &PathBuf)
        ensures
            final(self)@ == old(self)@.with_args(seq![WordView::Path(*path)]),
    {
        self.args.push(Word::Path(path.clone()));
        assert(self@.args =~= old(self)@.args + seq![WordView::Path(*path)]);
    }
}

/// More arguments go after those there are, and the program stays.
pub proof fn law_arguments_are_added_at_the_end(line: CommandLineView, words: Seq<WordView>)
    ensures
        line.with_args(words).program == line.program,
        line.with_args(words).args == line.args + words,
{
}

/// What a command line holds is its program and its words, one for one.
pub proof fn law_command_line_holds_its_words(line: CommandLine)
    ensures
        line@.program == line.program@,
        line@.args.len() == line.args@.len(),
        forall|i: int|
            #![trigger line.args@[i]]
            0 <= i < line.args@.len() ==> match line.args@[i] {
                Word::Text(text) => line@.args[i] == WordView::Text(text@),
                Word::Path(path) => line@.args[i] == WordView::Path(path),
            },
{
}

} // verus!
