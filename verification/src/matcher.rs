//! Matchers: what a screen's content is taken for.

use vstd::prelude::*;
use vstd::slice::slice_subrange;
use crate::text::{
    ascii_lowercased, chars_of, contains_phrase, ends_with, ends_with_lowercased, has_phrase,
    is_blank, last_non_blank, last_non_blank_line, lemma_lines_of_blank,
    lemma_no_prompt_among_blank_lines, lines, phrase_at,
};

verus! {

/// A matcher looks at the content of the screen and says what it found, if
/// anything. What it says depends on the content and on the matcher's own
/// configuration, and on nothing else.
pub trait MatchScreenBuffer {
    type MatchResult;

    /// What the matcher finds in `content`. A matcher written as verified
    /// code says here what it looks for; one that is not leaves this as it
    /// is.
    closed spec fn matches(&self, content: Seq<char>) -> Option<Self::MatchResult> {
        arbitrary()
    }

    /// Looks for a match in `content`.
    fn match_screen_buffer(&self, content: &str) -> (found: Option<Self::MatchResult>)
        ensures
            found == self.matches(content@),
    ;
}

/// What a prompt for authentication asks for.
#[derive(Debug, PartialEq, Eq, Structural)]
pub enum MatchAuthPromptResult {
    /// The prompt asks whether to continue, yes or no.
    Confirm,
    /// The prompt asks for a password.
    Password,
}

/// Recognises the prompts of a login: the question whether to continue, and
/// the request for a password.
pub struct MatchAuthPrompt {
    only_match_password: bool,
}

/// The words by which the question whether to continue is known.
pub open spec fn confirm_phrase() -> Seq<char> {
    "Are you sure you want to continue"@
}

/// The end of a line that asks for a password, in lowercase.
pub open spec fn password_suffix() -> Seq<char> {
    "password:"@
}

/// What the prompt line `line` asks for. The question whether to continue is
/// looked for first, unless only passwords are wanted; then the request for a
/// password, whatever the case of its letters.
pub open spec fn prompt_kind(line: Seq<char>, only_match_password: bool) -> Option<
    MatchAuthPromptResult,
> {
    if !only_match_password && has_phrase(line, confirm_phrase()) {
        Some(MatchAuthPromptResult::Confirm)
    } else if ends_with(ascii_lowercased(line), password_suffix()) {
        Some(MatchAuthPromptResult::Password)
    } else {
        None
    }
}

/// The line of `content` that a prompt would stand on: its last line that is
/// not blank.
pub open spec fn prompt_line(content: Seq<char>) -> Option<Seq<char>> {
    last_non_blank(lines(content))
}

impl MatchAuthPrompt {
    /// Whether the matcher passes over the question whether to continue.
    pub closed spec fn only_match_password(&self) -> bool {
        self.only_match_password
    }

    /// A matcher for both prompts, or for the request for a password alone.
    pub fn new(only_match_password: bool) -> (matcher: Self)
        ensures
            matcher.only_match_password() == only_match_password,
    {
        Self { only_match_password }
    }

    /// What the prompt line `line` asks for.
    pub fn match_line(&self, line: &[char]) -> (found: Option<MatchAuthPromptResult>)
        ensures
            found == prompt_kind(line@, self.only_match_password()),
    {
        let phrase = chars_of("Are you sure you want to continue");
        let suffix = chars_of("password:");
        if !self.only_match_password && contains_phrase(line, phrase.as_slice()) {
            Some(MatchAuthPromptResult::Confirm)
        } else if ends_with_lowercased(line, suffix.as_slice()) {
            Some(MatchAuthPromptResult::Password)
        } else {
            None
        }
    }
}

impl MatchScreenBuffer for MatchAuthPrompt {
    type MatchResult = MatchAuthPromptResult;

    open spec fn matches(&self, content: Seq<char>) -> Option<MatchAuthPromptResult> {
        match prompt_line(content) {
            Some(line) => prompt_kind(line, self.only_match_password()),
            None => None,
        }
    }

    fn match_screen_buffer(&self, content: &str) -> (found: Option<MatchAuthPromptResult>) {
        let chars = chars_of(content);
        match last_non_blank_line(chars.as_slice()) {
            Some((start, end)) => self.match_line(slice_subrange(chars.as_slice(), start, end)),
            None => None,
        }
    }
}

/// What the authentication matcher finds depends on its configuration and on
/// the content alone: two matchers set up alike find the same in the same
/// content.
pub proof fn lemma_match_is_pure(
    first: MatchAuthPrompt,
    second: MatchAuthPrompt,
    content: Seq<char>,
)
    requires
        first.only_match_password() == second.only_match_password(),
    ensures
        first.matches(content) == second.matches(content),
{
}

/// Content whose last line that is not blank reads "Enter Password:" asks for
/// a password, whether or not the matcher looks for passwords alone.
pub proof fn lemma_enter_password_is_password(matcher: MatchAuthPrompt, content: Seq<char>)
    requires
        prompt_line(content) == Some("Enter Password:"@),
    ensures
        matcher.matches(content) == Some(MatchAuthPromptResult::Password),
{
    reveal_strlit("Enter Password:");
    reveal_strlit("password:");
    reveal_strlit("Are you sure you want to continue");
    let line = "Enter Password:"@;
    assert forall|i: int| !phrase_at(line, confirm_phrase(), i) by {}
    assert(ascii_lowercased(line).skip(6) =~= password_suffix());
}

/// Content whose last line that is not blank asks "Are you sure you want to
/// continue connecting (yes/no)?" asks for a confirmation, unless the matcher
/// looks for passwords alone: then it matches nothing.
pub proof fn lemma_continue_connecting_is_confirm(matcher: MatchAuthPrompt, content: Seq<char>)
    requires
        prompt_line(content) == Some("Are you sure you want to continue connecting (yes/no)?"@),
    ensures
        matcher.matches(content) == if matcher.only_match_password() {
            None
        } else {
            Some(MatchAuthPromptResult::Confirm)
        },
{
    reveal_strlit("Are you sure you want to continue connecting (yes/no)?");
    reveal_strlit("password:");
    reveal_strlit("Are you sure you want to continue");
    let line = "Are you sure you want to continue connecting (yes/no)?"@;
    assert(line.subrange(0, 33) =~= confirm_phrase());
    assert(phrase_at(line, confirm_phrase(), 0));
    assert(ascii_lowercased(line).skip(45)[8] != password_suffix()[8]);
}

/// A screen that shows nothing but whitespace matches nothing.
pub proof fn lemma_blank_screen_matches_nothing(matcher: MatchAuthPrompt, content: Seq<char>)
    requires
        is_blank(content),
    ensures
        matcher.matches(content) is None,
{
    lemma_lines_of_blank(content);
    lemma_no_prompt_among_blank_lines(lines(content));
}

} // verus!
