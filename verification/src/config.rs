//! What the user asked for.

use vstd::prelude::*;

use crate::text::same_text;

verus! {

/// The settings of one run.
pub struct Config {
    pub path: String,
    pub show_version: bool,
    pub ignore_excludes: bool,
    pub yes: bool,
    pub dry_run: bool,
}

impl Default for Config {
    fn default() -> (res: Self)
        ensures
            res.path@ == Seq::<char>::empty(),
            !res.show_version,
            !res.ignore_excludes,
            !res.yes,
            !res.dry_run,
    {
        Config {
            path: String::new(),
            show_version: false,
            ignore_excludes: false,
            yes: false,
            dry_run: false,
        }
    }
}

/// What to do about a doubt that came up.
#[derive(Debug, PartialEq, Eq, Clone, Copy, Structural)]
pub enum Check {
    /// There is none.
    Fine,
    /// Tell the user and go on.
    Warn,
    /// Tell the user and ask whether to go on.
    Ask,
}

impl Config {
    /// What to do where there is a doubt or not: the user is told of it, and asked
    /// unless every question was answered with yes beforehand.
    pub open spec fn on_doubt(self, doubt: bool) -> Check {
        if !doubt {
            Check::Fine
        } else if self.yes {
            Check::Warn
        } else {
            Check::Ask
        }
    }

    /// Checks that a directory looks like a project: one with neither the header of
    /// the app nor a main file is in doubt.
    pub fn check_project(&self, has_app_header: bool, has_main_file: bool) -> (res: Check)
        ensures
            res == self.on_doubt(!has_app_header && !has_main_file),
            res == Check::Fine <==> has_app_header || has_main_file,
            res == Check::Ask <==> !has_app_header && !has_main_file && !self.yes,
            self.yes ==> res != Check::Ask,
    {
        self.check(!has_app_header && !has_main_file)
    }

    /// Checks that nothing is overwritten: neither a compilation database nor a
    /// configuration of clangd.
    pub fn check_existing(&self, has_database: bool, has_clangd_config: bool) -> (res: Check)
        ensures
            res == self.on_doubt(has_database || has_clangd_config),
            res == Check::Fine <==> !has_database && !has_clangd_config,
            res == Check::Ask <==> (has_database || has_clangd_config) && !self.yes,
            self.yes ==> res != Check::Ask,
    {
        self.check(has_database || has_clangd_config)
    }

    fn check(&self, doubt: bool) -> (res: Check)
        ensures
            res == self.on_doubt(doubt),
    {
        if !doubt {
            Check::Fine
        } else if self.yes {
            Check::Warn
        } else {
            Check::Ask
        }
    }

    /// The directory of the project as it is written.
    pub open spec fn place(self) -> Seq<char> {
        if self.path@.len() == 0 {
            "."@
        } else {
            self.path@
        }
    }

    /// The directory of the project: the one that was named, or the current one.
    pub fn project_path(&self) -> (res: String)
        ensures
            res@ == if self.path@.len() == 0 {
                "."@
            } else {
                self.path@
            },
            res@ == self.place(),
    {
        if self.path.as_str().is_empty() {
            ".".to_string()
        } else {
            self.path.clone()
        }
    }
}

/// Whether an answer to a question, white space around it aside, is `Y` or `y`.
pub open spec fn affirms(answer: Seq<char>) -> bool {
    let word = crate::text::trimmed(answer);
    word == "Y"@ || word == "y"@
}

/// Whether the user answered a question with yes.
pub fn is_affirmative(answer: &str) -> (res: bool)
    ensures
        res == affirms(answer@),
{
    let word = answer.trim();
    same_text(word, "Y") || same_text(word, "y")
}

/// The user hears of every doubt and of nothing else, and is asked about it unless all
/// questions were answered with yes beforehand.
pub proof fn lemma_every_doubt_is_told(config: Config, doubt: bool)
    ensures
        config.on_doubt(doubt) == Check::Fine <==> !doubt,
        config.on_doubt(doubt) == Check::Warn <==> doubt && config.yes,
        config.on_doubt(doubt) == Check::Ask <==> doubt && !config.yes,
{
}

/// White space around an answer does not count, and the word in between means yes where
/// it is the letter `y`, large or small. No word is no yes.
pub proof fn lemma_answer_means_yes(front: Seq<char>, word: Seq<char>, back: Seq<char>)
    requires
        forall|i: int| 0 <= i < front.len() ==> crate::text::is_white_space(#[trigger] front[i]),
        forall|i: int| 0 <= i < back.len() ==> crate::text::is_white_space(#[trigger] back[i]),
        word.len() > 0 ==> !crate::text::is_white_space(word.first())
            && !crate::text::is_white_space(word.last()),
    ensures
        affirms(front + word + back) <==> word == seq!['Y'] || word == seq!['y'],
{
    crate::text::lemma_trimmed_in_between(front, word, back);
    reveal_strlit("Y");
    reveal_strlit("y");
    assert("Y"@ =~= seq!['Y']);
    assert("y"@ =~= seq!['y']);
}

/// A directory that was named is taken as it was written; where none was, a single dot
/// stands for the current one. So the directory is never empty.
pub proof fn lemma_named_directory_is_taken(config: Config)
    ensures
        config.place().len() > 0,
        config.path@.len() > 0 ==> config.place() == config.path@,
        config.path@.len() == 0 ==> config.place() == seq!['.'],
{
    reveal_strlit(".");
    assert("."@ =~= seq!['.']);
}

} // verus!
