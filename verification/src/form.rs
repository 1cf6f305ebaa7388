//! A form submission and the rules that decide whether it is accepted.

use vstd::prelude::*;
use crate::text::{blank, chars_of, contains_text, has_text, is_blank, is_white_space};

verus! {

/// Most characters a name may have.
pub const NAME_LIMIT: usize = 100;

/// Most characters an email address may have.
pub const EMAIL_LIMIT: usize = 100;

/// Most characters a message may have.
pub const MESSAGE_LIMIT: usize = 1000;

/// The markup that no message may hold.
pub const UNSAFE_MARKUP: &'static str = "<script>";

/// The shape of an email address as a regular expression: one or more
/// characters, `@`, one or more characters, a dot, one or more characters,
/// where none of the characters is `@` or white space.
pub const EMAIL_PATTERN: &'static str = "^[^@\\s]+@[^@\\s]+\\.[^@\\s]+$";

pub const REASON_REQUIRED: &'static str = "All fields are required.";

pub const REASON_NAME_LENGTH: &'static str = "Name is too long (max 100 characters).";

pub const REASON_EMAIL_LENGTH: &'static str = "Email is too long (max 100 characters).";

pub const REASON_MESSAGE_LENGTH: &'static str = "Message is too long (max 1000 characters).";

pub const REASON_EMAIL_FORMAT: &'static str = "Invalid email format.";

pub const REASON_UNSAFE: &'static str = "Message contains potentially unsafe content.";

/// A character that may stand in any part of an email address.
pub open spec fn address_char(c: char) -> bool {
    c != '@' && !is_white_space(c)
}

/// `s` is an email address whose `@` is at index `at` and which has a dot at
/// index `dot`: at least one character before the `@`, at least one between
/// the `@` and the dot, at least one after the dot, and no second `@` and no
/// white space anywhere.
pub open spec fn email_split(s: Seq<char>, at: int, dot: int) -> bool {
    &&& 0 < at
    &&& at + 1 < dot
    &&& dot + 1 < s.len()
    &&& s[at] == '@'
    &&& s[dot] == '.'
    &&& forall|i: int| 0 <= i < s.len() && i != at ==> address_char(#[trigger] s[i])
}

/// `s` has the shape `local@domain.tld`.
pub open spec fn email_shaped(s: Seq<char>) -> bool {
    exists|at: int, dot: int| email_split(s, at, dot)
}

/// Whether `text` matches `EMAIL_PATTERN`, by `regex::Regex::new` on the
/// pattern and `regex::Regex::is_match` on the text. Believed, not proved:
/// the pattern compiles, and the regex crate matches it as its syntax is
/// documented. `^` and `$` are the two ends of the text, `[^@\s]+` is one or
/// more characters that are neither `@` nor of the Unicode class
/// `White_Space`, and `\.` is a dot; so a text matches exactly if it has the
/// shape that `email_shaped` spells out.
#[verifier::external_body]
fn matches_email_pattern(pattern: &str, text: &str) -> (matched: bool)
    requires
        pattern@ == EMAIL_PATTERN@,
    ensures
        matched == email_shaped(text@),
{
    match regex::Regex::new(pattern) {
        Ok(re) => re.is_match(text),
        Err(_) => false,
    }
}

/// The three fields of a submission, as they were sent.
#[derive(Debug)]
pub struct FormData {
    pub name: String,
    pub email: String,
    pub message: String,
}

impl FormData {
    /// What the rules say of this submission: `Ok`, or the reason of the first
    /// rule that it breaks. The rules, in order: no field is blank; the name,
    /// the email address and the message are within their limits; the email
    /// address has the shape of one; the message holds no script markup.
    pub open spec fn verdict(&self) -> Result<(), Seq<char>> {
        if blank(self.name@) || blank(self.email@) || blank(self.message@) {
            Err(REASON_REQUIRED@)
        } else if self.name@.len() > NAME_LIMIT {
            Err(REASON_NAME_LENGTH@)
        } else if self.email@.len() > EMAIL_LIMIT {
            Err(REASON_EMAIL_LENGTH@)
        } else if self.message@.len() > MESSAGE_LIMIT {
            Err(REASON_MESSAGE_LENGTH@)
        } else if !email_shaped(self.email@) {
            Err(REASON_EMAIL_FORMAT@)
        } else if contains_text(self.message@, UNSAFE_MARKUP@) {
            Err(REASON_UNSAFE@)
        } else {
            Ok(())
        }
    }

    /// What holds of every submission that is accepted.
    pub open spec fn acceptable(&self) -> bool {
        &&& !blank(self.name@) && 1 <= self.name@.len() <= NAME_LIMIT
        &&& !blank(self.email@) && 1 <= self.email@.len() <= EMAIL_LIMIT
        &&& !blank(self.message@) && 1 <= self.message@.len() <= MESSAGE_LIMIT
        &&& email_shaped(self.email@)
        &&& !contains_text(self.message@, UNSAFE_MARKUP@)
    }

    /// Checks the submission against the rules, in their order.
    pub fn is_valid(&self) -> (checked: Result<(), String>)
        ensures
            match checked {
                Ok(_) => self.verdict() is Ok,
                Err(reason) => self.verdict() == Err::<(), Seq<char>>(reason@),
            },
    {
        let name = chars_of(self.name.as_str());
        let email = chars_of(self.email.as_str());
        let message = chars_of(self.message.as_str());
        if is_blank(&name) || is_blank(&email) || is_blank(&message) {
            return Err(REASON_REQUIRED.to_owned());
        }
        if name.len() > NAME_LIMIT {
            return Err(REASON_NAME_LENGTH.to_owned());
        }
        if email.len() > EMAIL_LIMIT {
            return Err(REASON_EMAIL_LENGTH.to_owned());
        }
        if message.len() > MESSAGE_LIMIT {
            return Err(REASON_MESSAGE_LENGTH.to_owned());
        }
        if !matches_email_pattern(EMAIL_PATTERN, self.email.as_str()) {
            return Err(REASON_EMAIL_FORMAT.to_owned());
        }
        let markup = chars_of(UNSAFE_MARKUP);
        if has_text(&message, &markup) {
            return Err(REASON_UNSAFE.to_owned());
        }
        Ok(())
    }
}

/// A submission passes the rules exactly if it is acceptable.
pub proof fn lemma_accepted_iff_acceptable(form: FormData)
    ensures
        form.verdict() is Ok <==> form.acceptable(),
{
    assert(blank(Seq::<char>::empty()));
    if !blank(form.name@) {
        assert(form.name@.len() >= 1);
    }
    if !blank(form.email@) {
        assert(form.email@.len() >= 1);
    }
    if !blank(form.message@) {
        assert(form.message@.len() >= 1);
    }
}

/// A submission with an empty name is turned down for a missing field,
/// whatever the other two fields hold.
pub proof fn lemma_empty_name_rejected(form: FormData)
    requires
        form.name@.len() == 0,
    ensures
        form.verdict() == Err::<(), Seq<char>>(REASON_REQUIRED@),
{
}

/// A message of more than 1000 characters is never accepted; where the three
/// fields are filled in and the name and the address are within their
/// limits, the reason given is the length of the message.
pub proof fn lemma_long_message_rejected(form: FormData)
    requires
        form.message@.len() > MESSAGE_LIMIT,
    ensures
        form.verdict() is Err,
        !blank(form.name@) && !blank(form.email@) && !blank(form.message@) && form.name@.len()
            <= NAME_LIMIT && form.email@.len() <= EMAIL_LIMIT ==> form.verdict() == Err::<
            (),
            Seq<char>,
        >(REASON_MESSAGE_LENGTH@),
{
}

/// A message of exactly 1000 characters is not turned down for its length:
/// the submission is accepted where it breaks no other rule.
pub proof fn lemma_message_at_limit_accepted(form: FormData)
    requires
        form.message@.len() == MESSAGE_LIMIT,
        !blank(form.name@) && !blank(form.email@) && !blank(form.message@),
        form.name@.len() <= NAME_LIMIT,
        form.email@.len() <= EMAIL_LIMIT,
        email_shaped(form.email@),
        !contains_text(form.message@, UNSAFE_MARKUP@),
    ensures
        form.verdict() is Ok,
{
}

/// A message that holds the script markup is never accepted, whatever else
/// the submission holds.
pub proof fn lemma_script_rejected(form: FormData)
    requires
        contains_text(form.message@, UNSAFE_MARKUP@),
    ensures
        form.verdict() is Err,
{
}

} // verus!
