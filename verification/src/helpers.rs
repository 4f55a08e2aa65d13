//! Small shared pieces: the exactly-one lookup guard and the per-deployment
//! drift verdict.

use vstd::prelude::*;
use owo_colors::OwoColorize;

verus! {

/// Error reported when a query that must yield exactly one element finds
/// more than one.
#[derive(Debug, PartialEq, Eq)]
pub struct TooManyElementsError;

impl TooManyElementsError {
    /// The diagnostic text carried by this error.
    pub fn message(&self) -> (r: String)
        ensures
            r@ == "Too many elements in the Vec"@,
    {
        String::from_str("Too many elements in the Vec")
    }
}

/// Why a lookup that must yield exactly one element failed.
#[derive(Debug, PartialEq, Eq)]
pub enum GetSingleError {
    /// The sequence was empty.
    EmptyVec,
    /// The sequence held more than one element.
    TooMany(TooManyElementsError),
}

impl GetSingleError {
    /// The diagnostic text carried by this error.
    pub fn message(&self) -> (r: String)
        ensures
            self is EmptyVec ==> r@ == "The Vec is empty"@,
            self is TooMany ==> r@ == "Too many elements in the Vec"@,
    {
        match self {
            GetSingleError::EmptyVec => String::from_str("The Vec is empty"),
            GetSingleError::TooMany(e) => e.message(),
        }
    }
}

/// The element of a one-element sequence; an empty sequence and a sequence of
/// two or more are each their own error, and no element is ever picked from
/// an ambiguous result.
pub fn get_single<T>(vec: Vec<T>) -> (r: Result<T, GetSingleError>)
    ensures
        match r {
            Ok(t) => vec@.len() == 1 && t == vec@[0],
            Err(GetSingleError::EmptyVec) => vec@.len() == 0,
            Err(GetSingleError::TooMany(_)) => vec@.len() > 1,
        },
{
    if vec.len() > 1 {
        return Err(GetSingleError::TooMany(TooManyElementsError));
    }
    let mut v = vec;
    match v.pop() {
        Some(element) => Ok(element),
        None => Err(GetSingleError::EmptyVec),
    }
}

/// One deployment's local and remote canonical texts, side by side.
pub struct DeploymentDiff {
    pub deployment_name: String,
    pub local_config: String,
    pub remote_config: String,
    pub local_template: String,
    pub remote_template: String,
}

/// `s` wrapped in the ANSI green-foreground and default-foreground escapes.
pub open spec fn green_wrapped(s: Seq<char>) -> Seq<char> {
    "\u{1b}[32m"@ + s + "\u{1b}[39m"@
}

/// `s` wrapped in the ANSI red-foreground and default-foreground escapes.
pub open spec fn red_wrapped(s: Seq<char>) -> Seq<char> {
    "\u{1b}[31m"@ + s + "\u{1b}[39m"@
}

/// The verdict for a pair of texts: green `IDENTICAL` exactly when they are
/// byte-equal, red `DRIFTED` otherwise.
pub open spec fn state_text(local: Seq<char>, remote: Seq<char>) -> Seq<char> {
    if local == remote {
        green_wrapped("IDENTICAL"@)
    } else {
        red_wrapped("DRIFTED"@)
    }
}

/// The drift verdict decides byte-equality: it is the green `IDENTICAL` text
/// exactly when the two canonical texts are equal, and the red `DRIFTED`
/// text exactly otherwise — the two verdicts can never be confused.
pub proof fn lemma_state_text_verdict(local: Seq<char>, remote: Seq<char>)
    ensures
        (local == remote) <==> (state_text(local, remote) == green_wrapped("IDENTICAL"@)),
        (local != remote) <==> (state_text(local, remote) == red_wrapped("DRIFTED"@)),
{
    reveal_strlit("IDENTICAL");
    reveal_strlit("DRIFTED");
    reveal_strlit("\u{1b}[32m");
    reveal_strlit("\u{1b}[31m");
    reveal_strlit("\u{1b}[39m");
    assert(green_wrapped("IDENTICAL"@).len() == 19);
    assert(red_wrapped("DRIFTED"@).len() == 17);
}

/// Relies on owo_colors::OwoColorize::green on a string slice: its display
/// form is the ANSI green-foreground escape, the text, then the
/// default-foreground escape.
#[verifier::external_body]
fn green_text(s: &str) -> (r: String)
    ensures
        r@ == green_wrapped(s@),
{
    format!("{}", s.green())
}

/// Relies on owo_colors::OwoColorize::red on a string slice: its display
/// form is the ANSI red-foreground escape, the text, then the
/// default-foreground escape.
#[verifier::external_body]
fn red_text(s: &str) -> (r: String)
    ensures
        r@ == red_wrapped(s@),
{
    format!("{}", s.red())
}

impl DeploymentDiff {
    /// The configuration column's verdict.
    pub fn config_state(&self) -> (r: String)
        ensures
            r@ == state_text(self.local_config@, self.remote_config@),
    {
        if self.local_config == self.remote_config {
            green_text("IDENTICAL")
        } else {
            red_text("DRIFTED")
        }
    }

    /// The template column's verdict.
    pub fn template_state(&self) -> (r: String)
        ensures
            r@ == state_text(self.local_template@, self.remote_template@),
    {
        if self.local_template == self.remote_template {
            green_text("IDENTICAL")
        } else {
            red_text("DRIFTED")
        }
    }
}

} // verus!
