//! What the arena offers to its callers: sessions, submissions, and the
//! errors that reach the boundary.

use crate::api::play::Game;
use crate::api::submissions::Submission;
use crate::game::Move;
use vstd::hash_map::StringHashMap;
use vstd::prelude::*;

pub mod play;
pub mod submissions;

verus! {

/// Why a turn of the submitted program ended the game.
#[derive(Debug, Clone, Copy, PartialEq, Eq, Structural)]
pub enum AIError {
    /// The reply named a turn that is not legal in the position.
    InvalidMove,
    /// The reply was not a line of the reply grammar.
    InvalidOutput,
    /// There was no program to run: the submission is missing or empty.
    EmptySubmission,
}

/// The errors that reach the caller.
#[derive(Debug)]
pub enum Error {
    IO,
    Poison,
    InvalidLanguage,
    NotFound,
    InvalidMove,
    AIFailed { error: AIError, ai_output: String, move_: Option<Vec<Move>> },
    Unauthorized,
    GameAlreadyInProgress,
}

/// The identity behind a request.
#[derive(Debug)]
pub struct User {
    pub name: String,
}

/// What the arena keeps: for each user at most one submission and at most
/// one game.
pub struct State {
    pub submissions: StringHashMap<Submission>,
    pub games: StringHashMap<Game>,
}

impl State {
    /// A state without submissions and without games.
    pub fn new() -> (state: State)
        ensures
            state.submissions@ == Map::<Seq<char>, Submission>::empty(),
            state.games@ == Map::<Seq<char>, Game>::empty(),
    {
        State { submissions: StringHashMap::new(), games: StringHashMap::new() }
    }

    /// Whether a user of this name has a submission.
    pub fn knows(&self, name: &str) -> (r: bool)
        ensures
            r == self.submissions@.contains_key(name@),
    {
        self.submissions.contains_key(name)
    }

    /// Keeps a submission under the name of its user, in place of an earlier
    /// one.
    pub fn submit(&mut self, submission: Submission)
        ensures
            final(self).submissions@ == old(self).submissions@.insert(submission.name@, submission),
            final(self).games@ == old(self).games@,
    {
        let name = submission.name.clone();
        self.submissions.insert(name, submission);
    }
}

impl Error {
    /// The HTTP status that answers a request which ended in this error:
    /// 500 for a fault of the arena itself, 404 for what was not found, 400
    /// for a request that cannot be served, 406 for a failure of the
    /// submitted program, and 401 for a request without an identity.
    pub open spec fn spec_status(&self) -> u16 {
        match self {
            Error::IO | Error::Poison => 500,
            Error::NotFound => 404,
            Error::InvalidMove | Error::GameAlreadyInProgress | Error::InvalidLanguage => 400,
            Error::AIFailed { .. } => 406,
            Error::Unauthorized => 401,
        }
    }

    /// See [`Error::spec_status`].
    pub fn status(&self) -> (code: u16)
        ensures
            code == self.spec_status(),
    {
        match self {
            Error::IO | Error::Poison => 500,
            Error::NotFound => 404,
            Error::InvalidMove | Error::GameAlreadyInProgress | Error::InvalidLanguage => 400,
            Error::AIFailed { .. } => 406,
            Error::Unauthorized => 401,
        }
    }
}

/// Whether a text begins with another.
pub fn starts_with(text: &str, prefix: &str) -> (r: bool)
    ensures
        r == prefix@.is_prefix_of(text@),
{
    let n = prefix.unicode_len();
    if text.unicode_len() < n {
        return false;
    }
    let mut k: usize = 0;
    while k < n
        invariant
            n == prefix@.len(),
            n <= text@.len(),
            k <= n,
            forall|j: int| 0 <= j < k ==> text@[j] == prefix@[j],
        decreases n - k,
    {
        if text.get_char(k) != prefix.get_char(k) {
            assert(text@.subrange(0, n as int)[k as int] != prefix@[k as int]);
            return false;
        }
        k += 1;
    }
    assert(prefix@ =~= text@.subrange(0, n as int));
    true
}

impl User {
    /// The user behind a request, from its `Authorization` header. The
    /// header has to be there and to begin with `Bearer `; what follows is
    /// the name of the user. Any other request is unauthorized.
    pub fn from_authorization(header: Option<&str>) -> (r: Result<User, Error>)
        ensures
            r is Ok <==> header is Some && "Bearer "@.is_prefix_of(header.unwrap()@),
            r is Ok ==> header.unwrap()@ == "Bearer "@ + r.unwrap().name@,
            r is Err ==> r.unwrap_err() is Unauthorized,
    {
        match header {
            Some(text) => {
                if starts_with(text, "Bearer ") {
                    let from = "Bearer ".unicode_len();
                    let name = text.substring_char(from, text.unicode_len());
                    assert(text@ =~= "Bearer "@ + name@);
                    Ok(User { name: String::from_str(name) })
                } else {
                    Err(Error::Unauthorized)
                }
            },
            None => Err(Error::Unauthorized),
        }
    }
}

} // verus!
