//! The prompt: what is asked of the user, and what an answer means.

use vstd::prelude::*;
use vstd::string::*;
use crate::cache::{Candidate, StorePath};
use crate::fs::FsEventMessage;
use crate::text::str_eq;

verus! {

/// Request types between FUSE thread and UI thread
#[derive(Debug)]
pub enum UserRequest {
    /// Order the thread to stop listen for events
    Quit,
    /// An interactive search request for the given path to the UI thread
    /// with a preferred candidate.
    InteractiveSearch(Vec<Candidate>, Candidate),
}

/// What the prompt does with a request.
#[derive(Debug)]
pub enum UiStep {
    /// Stop listening.
    Quit,
    /// Send this back at once.
    Reply(FsEventMessage),
    /// Show these choices, read the user's pick, then call `on_choice`.
    Prompt(Vec<String>),
}

/// What a line that the user typed means.
#[derive(Clone, Copy, Debug, PartialEq, Eq, Structural)]
pub enum Choice {
    /// None of the candidates.
    Skip,
    /// The candidate with this index.
    Pick(usize),
    /// Nothing: ask again.
    Again,
}

/// Whether the character is white space: one of the characters that have
/// the property White_Space.
pub open spec fn is_white_space(c: char) -> bool {
    ||| 0x09 <= c as u32 <= 0x0D
    ||| c as u32 == 0x20
    ||| c as u32 == 0x85
    ||| c as u32 == 0xA0
    ||| c as u32 == 0x1680
    ||| 0x2000 <= c as u32 <= 0x200A
    ||| c as u32 == 0x2028
    ||| c as u32 == 0x2029
    ||| c as u32 == 0x202F
    ||| c as u32 == 0x205F
    ||| c as u32 == 0x3000
}

/// How many characters of white space a text starts with.
pub open spec fn leading_space(text: Seq<char>) -> int
    decreases text.len(),
{
    if text.len() > 0 && is_white_space(text[0]) {
        1 + leading_space(text.drop_first())
    } else {
        0
    }
}

/// How many characters of white space a text ends in.
pub open spec fn trailing_space(text: Seq<char>) -> int
    decreases text.len(),
{
    if text.len() > 0 && is_white_space(text.last()) {
        1 + trailing_space(text.drop_last())
    } else {
        0
    }
}

/// The text without the white space at its two ends: nothing if all of it
/// is white space.
pub open spec fn trimmed(text: Seq<char>) -> Seq<char> {
    if leading_space(text) >= text.len() {
        Seq::empty()
    } else {
        text.subrange(leading_space(text), text.len() - trailing_space(text))
    }
}

/// What `str::to_lowercase` makes of a text: the text in lower case.
pub uninterp spec fn lowercased(text: Seq<char>) -> Seq<char>;

/// `str::trim`: the text without the white space that it starts with and
/// ends in, where white space is what has the property White_Space.
#[verifier::external_body]
fn trim(text: &str) -> (r: &str)
    ensures
        r@ == trimmed(text@),
{
    text.trim()
}

/// `str::to_lowercase`: the lower case of the text, which depends on the
/// text alone.
#[verifier::external_body]
fn to_lowercase(text: &str) -> (r: String)
    ensures
        r@ == lowercased(text@),
{
    text.to_lowercase()
}

/// Whether the character is one of the ten digits.
pub open spec fn is_digit(c: char) -> bool {
    48 <= c as u32 <= 57
}

/// The number that digits are in base ten.
pub open spec fn digits_value(digits: Seq<char>) -> nat
    decreases digits.len(),
{
    if digits.len() == 0 {
        0
    } else {
        digits_value(digits.drop_last()) * 10 + (digits.last() as u32 - 48) as nat
    }
}

/// The number that a text is in base ten: one digit or more, with or
/// without a plus sign before them. Any other text is no number.
pub open spec fn decimal(text: Seq<char>) -> Option<nat> {
    if unsigned(text).len() > 0 && all_digits(unsigned(text)) {
        Some(digits_value(unsigned(text)))
    } else {
        None
    }
}

/// The text without the plus sign that it may start with.
pub open spec fn unsigned(text: Seq<char>) -> Seq<char> {
    if text.len() > 0 && text[0] == '+' {
        text.drop_first()
    } else {
        text
    }
}

/// Whether the text holds digits only.
pub open spec fn all_digits(text: Seq<char>) -> bool {
    forall|i: int| 0 <= i < text.len() ==> is_digit(#[trigger] text[i])
}

/// The number that the first digits are is never more than the number that
/// all the digits are.
proof fn lemma_digits_value_grows(digits: Seq<char>, k: int)
    requires
        0 <= k <= digits.len(),
        all_digits(digits),
    ensures
        digits_value(digits.take(k)) <= digits_value(digits),
    decreases digits.len() - k,
{
    if k == digits.len() {
        assert(digits.take(k) =~= digits);
    } else {
        let next = digits.take(k + 1);
        assert(next.drop_last() =~= digits.take(k));
        assert(next.last() == digits[k]);
        assert(is_digit(digits[k]));
        lemma_digits_value_grows(digits, k + 1);
    }
}

/// The number that a text is in base ten, as `decimal` reads it, if it is
/// one that fits.
pub fn parse_index(text: &str) -> (r: Option<usize>)
    ensures
        r == match decimal(text@) {
            Some(n) => if n <= usize::MAX {
                Some(n as usize)
            } else {
                None
            },
            None => None,
        },
{
    let n = text.unicode_len();
    let start: usize = if n > 0 && text.get_char(0) == '+' {
        1
    } else {
        0
    };
    let ghost digits = unsigned(text@);
    assert(digits =~= text@.subrange(start as int, n as int));
    if start == n {
        return None;
    }
    let mut value: usize = 0;
    let mut i: usize = start;
    assert(digits.take(0) =~= Seq::<char>::empty());
    while i < n
        invariant
            start <= i <= n,
            n == text@.len(),
            digits == text@.subrange(start as int, n as int),
            digits == unsigned(text@),
            forall|j: int| 0 <= j < i - start ==> is_digit(#[trigger] digits[j]),
            value == digits_value(digits.take(i - start)),
        decreases n - i,
    {
        let c = text.get_char(i);
        let code = c as u32;
        assert(c == digits[i - start]);
        if code < 48 || code > 57 {
            assert(!is_digit(digits[i - start]));
            return None;
        }
        let digit = (code - 48) as usize;
        proof {
            let next = digits.take(i - start + 1);
            assert(next.drop_last() =~= digits.take(i - start));
            assert(next.last() == digits[i - start]);
            assert(digits_value(next) == value * 10 + digit);
            if all_digits(digits) {
                lemma_digits_value_grows(digits, i - start + 1);
            }
        }
        let tens = match value.checked_mul(10) {
            Some(tens) => tens,
            None => {
                return None;
            },
        };
        value = match tens.checked_add(digit) {
            Some(sum) => sum,
            None => {
                return None;
            },
        };
        i = i + 1;
    }
    assert(digits.take(n - start) =~= digits);
    Some(value)
}

/// What an answer means among `n` choices, given the answer without the
/// white space around it and the lower case of that: `n`, `no` or nothing
/// skips, a number from 1 to `n` picks, anything else asks again.
pub open spec fn choice_for(trimmed: Seq<char>, lowered: Seq<char>, n: nat) -> Choice {
    if lowered == "n"@ || lowered == "no"@ || trimmed.len() == 0 {
        Choice::Skip
    } else {
        match decimal(trimmed) {
            Some(k) => if 1 <= k <= n && k <= usize::MAX {
                Choice::Pick((k - 1) as usize)
            } else {
                Choice::Again
            },
            None => Choice::Again,
        }
    }
}

/// What an answer means among `n` choices; `trimmed` is the answer without
/// the white space around it, `lowered` the lower case of that.
pub fn classify_answer(trimmed: &str, lowered: &str, n: usize) -> (c: Choice)
    ensures
        c == choice_for(trimmed@, lowered@, n as nat),
{
    proof {
        reveal_strlit("");
        assert(trimmed@.len() == 0 ==> trimmed@ =~= ""@);
    }
    if str_eq(lowered, "n") || str_eq(lowered, "no") || str_eq(trimmed, "") {
        return Choice::Skip;
    }
    match parse_index(trimmed) {
        Some(k) => {
            if k >= 1 && k <= n {
                Choice::Pick(k - 1)
            } else {
                Choice::Again
            }
        },
        None => Choice::Again,
    }
}

/// What the line that the user typed means among `n` choices.
pub fn parse_choice(answer: &str, n: usize) -> (c: Choice)
    ensures
        c == choice_for(trimmed(answer@), lowercased(trimmed(answer@)), n as nat),
{
    let t = trim(answer);
    let lowered = to_lowercase(t);
    classify_answer(t, lowered.as_str(), n)
}

/// What a line means as the answer to a question of yes or no: `y` is yes,
/// `n` is no, and any other line is no answer.
pub fn parse_yes_no(answer: &str) -> (r: Option<bool>)
    ensures
        r == if answer@ == "y"@ {
            Some(true)
        } else if answer@ == "n"@ {
            Some(false)
        } else {
            None
        },
{
    if str_eq(answer, "y") {
        Some(true)
    } else if str_eq(answer, "n") {
        Some(false)
    } else {
        None
    }
}

/// The names under which candidates are shown: the attribute names of their
/// packages.
pub open spec fn shown(candidates: Seq<Candidate>) -> Seq<String> {
    Seq::new(candidates.len(), |i: int| candidates[i].0.origin.attr)
}

/// What the prompt does with a request: it stops, or it sends the suggested
/// package back at once, which it does in automatic mode, or it shows the
/// candidates.
pub fn on_request(message: &UserRequest, automatic: bool) -> (step: UiStep)
    ensures
        match (*message, step) {
            (UserRequest::Quit, UiStep::Quit) => true,
            (
                UserRequest::InteractiveSearch(_, suggested),
                UiStep::Reply(FsEventMessage::PackageSuggestion(package)),
            ) => automatic && package == suggested.0,
            (UserRequest::InteractiveSearch(candidates, _), UiStep::Prompt(choices)) => !automatic
                && choices@ == shown(candidates@),
            _ => false,
        },
{
    match message {
        UserRequest::Quit => UiStep::Quit,
        UserRequest::InteractiveSearch(candidates, suggested) => {
            if automatic {
                return UiStep::Reply(FsEventMessage::PackageSuggestion(suggested.0.clone()));
            }
            let mut choices: Vec<String> = Vec::new();
            let mut i: usize = 0;
            while i < candidates.len()
                invariant
                    i <= candidates.len(),
                    choices@.len() == i,
                    forall|j: int| 0 <= j < i ==> choices@[j] == candidates@[j].0.origin.attr,
                decreases candidates.len() - i,
            {
                choices.push(candidates[i].0.origin.attr.clone());
                i = i + 1;
            }
            assert(choices@ =~= shown(candidates@));
            UiStep::Prompt(choices)
        },
    }
}

/// What is sent back for the pick of the user: the package that was picked,
/// or the word that the path is to be ignored.
pub fn on_choice(candidates: &Vec<Candidate>, choice: Option<usize>) -> (reply: FsEventMessage)
    requires
        choice matches Some(index) ==> index < candidates.len(),
    ensures
        reply == match choice {
            Some(index) => FsEventMessage::PackageSuggestion(candidates@[index as int].0),
            None => FsEventMessage::IgnorePendingRequests,
        },
{
    match choice {
        Some(index) => FsEventMessage::PackageSuggestion(candidates[index].0.clone()),
        None => FsEventMessage::IgnorePendingRequests,
    }
}

/// What is sent back for a line that the user typed, if the line is an
/// answer: the package with the number that was typed, or the word that the
/// path is to be ignored. There is nothing to send where the user has to be
/// asked again.
pub fn on_answer(candidates: &Vec<Candidate>, answer: &str) -> (reply: Option<FsEventMessage>)
    ensures
        reply == match choice_for(
            trimmed(answer@),
            lowercased(trimmed(answer@)),
            candidates@.len(),
        ) {
            Choice::Skip => Some(FsEventMessage::IgnorePendingRequests),
            Choice::Pick(index) => Some(
                FsEventMessage::PackageSuggestion(candidates@[index as int].0),
            ),
            Choice::Again => None,
        },
{
    match parse_choice(answer, candidates.len()) {
        Choice::Skip => Some(on_choice(candidates, None)),
        Choice::Pick(index) => Some(on_choice(candidates, Some(index))),
        Choice::Again => None,
    }
}

} // verus!
