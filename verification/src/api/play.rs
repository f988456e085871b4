//! One game between a human and a submitted program: the text that the
//! program is given, the reply that it gives, and what becomes of the game.

use crate::api::submissions::{encodable, Launch, Submission};
use crate::api::{AIError, Error, State, User};
use crate::game::{initial_cell, GameState, GameStatus, Move, Player};
use regex::Regex;
use vstd::prelude::*;

verus! {

/// The pattern that a reply of the program has to match.
pub const AI_OUTPUT_REGEX: &'static str = "^(\\d{2},\\d{2};)+$";

/// Whether the regular expression `pattern` matches somewhere in `haystack`,
/// as the `regex` crate decides it; `None` where the crate does not accept
/// the pattern.
pub uninterp spec fn regex_is_match(pattern: Seq<char>, haystack: Seq<char>) -> Option<bool>;

/// `s` without the white space at its two ends, as `str::trim` gives it.
pub uninterp spec fn str_trim(s: Seq<char>) -> Seq<char>;

/// Compiles `pattern` with `Regex::new` and asks `Regex::is_match` whether it
/// matches in `haystack`. Both depend on their arguments alone; the result is
/// `None` where `Regex::new` refuses the pattern. Nothing more is claimed of
/// which texts match.
#[verifier::external_body]
fn is_match(pattern: &str, haystack: &str) -> (r: Option<bool>)
    ensures
        r == regex_is_match(pattern@, haystack@),
{
    match Regex::new(pattern) {
        Ok(re) => Some(re.is_match(haystack)),
        Err(_) => None,
    }
}

/// Calls `str::trim`, which returns the slice between the leading and the
/// trailing white space. Nothing more is claimed of what counts as white
/// space.
#[verifier::external_body]
fn trim(s: &str) -> (r: &str)
    ensures
        r@ == str_trim(s@),
{
    s.trim()
}

/// Whether a character is one of the ten digits.
pub open spec fn is_digit(c: char) -> bool {
    '0' <= c <= '9'
}

/// The number that a digit stands for.
pub open spec fn digit_value(c: char) -> usize {
    (c as u32 - 48) as usize
}

/// Whether the `k`-th group of six characters of a line is a step: two
/// digits, a comma, two digits, a semicolon.
pub open spec fn is_reply_step(line: Seq<char>, k: int) -> bool {
    &&& is_digit(line[6 * k])
    &&& is_digit(line[6 * k + 1])
    &&& line[6 * k + 2] == ','
    &&& is_digit(line[6 * k + 3])
    &&& is_digit(line[6 * k + 4])
    &&& line[6 * k + 5] == ';'
}

/// The reply grammar: one or more steps `DD,DD;` and nothing else, each `D`
/// one of the digits 0 to 9.
pub open spec fn well_formed_reply(line: Seq<char>) -> bool {
    &&& line.len() > 0
    &&& line.len() % 6 == 0
    &&& forall|k: int| 0 <= k < line.len() / 6 ==> is_reply_step(line, k)
}

/// The cell that two digits name: the row, then the column.
pub open spec fn cell_id(row: char, col: char) -> (usize, usize) {
    (digit_value(row), digit_value(col))
}

/// The `k`-th step of a reply: from the cell before the comma to the cell
/// after it.
pub open spec fn reply_step(line: Seq<char>, k: int) -> Move {
    Move {
        from: cell_id(line[6 * k], line[6 * k + 1]),
        to: cell_id(line[6 * k + 3], line[6 * k + 4]),
    }
}

/// The steps that a well-formed reply names, in their order.
pub open spec fn reply_moves(line: Seq<char>) -> Seq<Move> {
    Seq::new((line.len() / 6) as nat, |k: int| reply_step(line, k))
}

/// Whether a character is one of the ten digits.
pub fn is_digit_char(c: char) -> (r: bool)
    ensures
        r == is_digit(c),
{
    let code = c as u32;
    48 <= code && code <= 57
}

/// Reads a cell from the two digits of its name: the row, then the column.
pub fn convert_cell_id(id: &[char]) -> (r: (usize, usize))
    requires
        id@.len() >= 2,
        is_digit(id@[0]),
        is_digit(id@[1]),
    ensures
        r == cell_id(id@[0], id@[1]),
        r.0 < 10,
        r.1 < 10,
{
    let row: char = id[0];
    let col: char = id[1];
    ((row as u32 - 48) as usize, (col as u32 - 48) as usize)
}

/// Reads the steps of a reply line, if the line follows the reply grammar.
pub fn parse_reply(line: &str) -> (r: Option<Vec<Move>>)
    ensures
        r is Some <==> well_formed_reply(line@),
        r is Some ==> r.unwrap()@ == reply_moves(line@),
{
    let n = line.unicode_len();
    if n == 0 || n % 6 != 0 {
        return None;
    }
    let mut moves: Vec<Move> = Vec::new();
    let mut k: usize = 0;
    while k < n / 6
        invariant
            n == line@.len(),
            n % 6 == 0,
            k <= n / 6,
            moves@.len() == k,
            forall|j: int| 0 <= j < k ==> is_reply_step(line@, j),
            forall|j: int| 0 <= j < k ==> moves@[j] == reply_step(line@, j),
        decreases n / 6 - k,
    {
        let base = 6 * k;
        let c0 = line.get_char(base);
        let c1 = line.get_char(base + 1);
        let c2 = line.get_char(base + 2);
        let c3 = line.get_char(base + 3);
        let c4 = line.get_char(base + 4);
        let c5 = line.get_char(base + 5);
        if !(is_digit_char(c0) && is_digit_char(c1) && c2 == ',' && is_digit_char(c3) && is_digit_char(c4)
            && c5 == ';') {
            assert(!is_reply_step(line@, k as int));
            return None;
        }
        let from = [c0, c1];
        let to = [c3, c4];
        moves.push(Move { from: convert_cell_id(&from), to: convert_cell_id(&to) });
        k += 1;
    }
    assert(moves@ =~= reply_moves(line@));
    Some(moves)
}

/// Decides what a reply line says, given what the pattern matcher found in
/// it. The line is a turn where the matcher accepted it and it follows the
/// reply grammar; any other line is invalid output.
pub fn read_reply(line: &str, matched: Option<bool>) -> (r: Result<Vec<Move>, AIError>)
    ensures
        r is Ok <==> matched == Some(true) && well_formed_reply(line@),
        r is Ok ==> r.unwrap()@ == reply_moves(line@),
        r is Err ==> r.unwrap_err() == AIError::InvalidOutput,
{
    match matched {
        Some(true) => match parse_reply(line) {
            Some(moves) => Ok(moves),
            None => Err(AIError::InvalidOutput),
        },
        _ => Err(AIError::InvalidOutput),
    }
}

/// One game: the position, and the side that the human plays.
#[derive(Debug, Clone, Copy)]
pub struct Game {
    pub checkers: GameState,
    pub human_player: Player,
}

impl Game {
    /// A game at the starting position in which the human plays `human_player`.
    pub fn new(human_player: Player) -> (game: Game)
        ensures
            game.is_new(human_player),
    {
        Game { checkers: GameState::default(), human_player }
    }

    /// Whether this is a game at the starting position in which the human
    /// plays `human_player`.
    pub open spec fn is_new(&self, human_player: Player) -> bool {
        &&& self.human_player == human_player
        &&& self.checkers.current_player == Player::White
        &&& self.checkers.status == GameStatus::InProgress
        &&& forall|x: int, y: int|
            0 <= x < 10 && 0 <= y < 10 ==> (#[trigger] self.checkers.board[x][y]) == initial_cell(x, y)
    }

    /// Begins the turn of the program: says how to run it and what to write
    /// to it. `code` is the content of the file of the submission, or `None`
    /// where the file is missing. Without a program to run the game is over
    /// and the human has won.
    pub fn begin_ai_turn(&mut self, submission: &Submission, code: Option<&Vec<u8>>) -> (r: Result<
        (Launch, String),
        Error,
    >)
        requires
            code is Some ==> encodable(code.unwrap()@.len()),
        ensures
            final(self).human_player == old(self).human_player,
            final(self).checkers.board == old(self).checkers.board,
            final(self).checkers.current_player == old(self).checkers.current_player,
            r is Ok <==> Submission::runnable(code),
            r is Ok ==> {
                &&& final(self).checkers.status == old(self).checkers.status
                &&& r.unwrap().0.image@ == submission.lang.image()
                &&& r.unwrap().0.command@ == crate::api::submissions::shell_command(
                    submission.lang,
                    crate::api::submissions::base64_standard(code.unwrap()@),
                )
                &&& r.unwrap().1@ == old(self).spec_agent_input()
            },
            r is Err ==> {
                &&& final(self).checkers.status == old(self).forfeited()
                &&& r.unwrap_err() is AIFailed
                &&& r.unwrap_err()->error == AIError::EmptySubmission
                &&& r.unwrap_err()->ai_output@ == Seq::<char>::empty()
                &&& r.unwrap_err()->move_ is None
            },
    {
        match submission.start(code) {
            Ok(launch) => Ok((launch, self.agent_input())),
            Err(_) => Err(self.forfeit(AIError::EmptySubmission, String::new(), None)),
        }
    }

    /// The text that the program reads: the code of the side to move on a
    /// line of its own, then the board.
    pub open spec fn spec_agent_input(&self) -> Seq<char> {
        seq![self.checkers.current_player.code(), '\n'] + self.checkers.csv()
    }

    /// The text to write to the program, see [`Game::spec_agent_input`].
    pub fn agent_input(&self) -> (text: String)
        ensures
            text@ == self.spec_agent_input(),
    {
        let mut text = self.checkers.current_player.to_string();
        proof {
            reveal_strlit("\n");
        }
        text.append("\n");
        let board = self.checkers.to_csv_string();
        text.append(board.as_str());
        assert(text@ =~= self.spec_agent_input());
        text
    }

    /// Plays the turn of the human, if it is legal.
    pub fn play_human(&mut self, moves: Vec<Move>) -> (r: Result<(), Error>)
        ensures
            final(self).human_player == old(self).human_player,
            r is Ok <==> old(self).checkers.accepts(moves@),
            r is Err ==> r.unwrap_err() is InvalidMove && final(self).checkers == old(self).checkers,
            r is Ok ==> old(self).checkers.played(moves@, final(self).checkers),
    {
        self.checkers.apply_sequence(&moves)
    }

    /// The status of the game once the program has failed: the human has
    /// won, unless the game was over before.
    pub open spec fn forfeited(&self) -> GameStatus {
        match self.checkers.status {
            GameStatus::InProgress => GameStatus::Victory(self.human_player),
            GameStatus::Victory(winner) => GameStatus::Victory(winner),
        }
    }

    /// Ends the game in favour of the human, because the program failed, and
    /// gives the error that tells the caller so. A game that is over stays
    /// as it ended.
    pub fn forfeit(&mut self, error: AIError, ai_output: String, move_: Option<Vec<Move>>) -> (e: Error)
        ensures
            e == (Error::AIFailed { error, ai_output, move_ }),
            final(self).human_player == old(self).human_player,
            final(self).checkers.status == old(self).forfeited(),
            final(self).checkers.board == old(self).checkers.board,
            final(self).checkers.current_player == old(self).checkers.current_player,
    {
        match self.checkers.status {
            GameStatus::InProgress => {
                self.checkers.status = GameStatus::Victory(self.human_player);
            },
            GameStatus::Victory(_) => {},
        }
        Error::AIFailed { error, ai_output, move_ }
    }

    /// Plays the turn that the program replied, or ends the game.
    ///
    /// A reply that is a legal turn is played, and the diagnostic text of the
    /// program is handed back. A reply that could not be read, or that names a
    /// turn that is not legal, ends the game: the human has won, the board
    /// stays as it is, and the error holds the diagnostic text and, for a turn
    /// that is not legal, the turn.
    pub fn resolve_reply(&mut self, reply: Result<Vec<Move>, AIError>, ai_output: String) -> (r: Result<
        String,
        Error,
    >)
        ensures
            final(self).human_player == old(self).human_player,
            r is Ok <==> reply is Ok && old(self).checkers.accepts(reply.unwrap()@),
            r is Ok ==> r.unwrap() == ai_output && old(self).checkers.played(
                reply.unwrap()@,
                final(self).checkers,
            ),
            r is Err ==> {
                &&& final(self).checkers.status == old(self).forfeited()
                &&& final(self).checkers.board == old(self).checkers.board
                &&& final(self).checkers.current_player == old(self).checkers.current_player
                &&& r.unwrap_err() == match reply {
                    Ok(moves) => Error::AIFailed { error: AIError::InvalidMove, ai_output, move_: Some(moves) },
                    Err(error) => Error::AIFailed { error, ai_output, move_: None },
                }
            },
    {
        match reply {
            Ok(moves) => match self.checkers.apply_sequence(&moves) {
                Ok(()) => Ok(ai_output),
                Err(_) => Err(self.forfeit(AIError::InvalidMove, ai_output, Some(moves))),
            },
            Err(error) => Err(self.forfeit(error, ai_output, None)),
        }
    }

    /// Takes the reply of the program: the first line that it printed, and
    /// its diagnostic text. The line is trimmed, held against the reply
    /// pattern, read, and played, see [`read_reply`] and
    /// [`Game::resolve_reply`].
    pub fn play_ai(&mut self, line: &str, ai_output: String) -> (r: Result<String, Error>)
        ensures
            final(self).human_player == old(self).human_player,
            r is Ok <==> Self::reply_read(line@) && old(self).checkers.accepts(
                reply_moves(str_trim(line@)),
            ),
            r is Ok ==> r.unwrap() == ai_output && old(self).checkers.played(
                reply_moves(str_trim(line@)),
                final(self).checkers,
            ),
            r is Err ==> {
                &&& final(self).checkers.status == old(self).forfeited()
                &&& final(self).checkers.board == old(self).checkers.board
                &&& final(self).checkers.current_player == old(self).checkers.current_player
                &&& r.unwrap_err() is AIFailed
                &&& r.unwrap_err()->ai_output == ai_output
                &&& r.unwrap_err()->error == (if Self::reply_read(line@) {
                    AIError::InvalidMove
                } else {
                    AIError::InvalidOutput
                })
                &&& r.unwrap_err()->move_ is Some <==> Self::reply_read(line@)
                &&& r.unwrap_err()->move_ is Some ==> r.unwrap_err()->move_.unwrap()@ == reply_moves(
                    str_trim(line@),
                )
            },
    {
        let line = trim(line);
        let matched = is_match(AI_OUTPUT_REGEX, line);
        let reply = read_reply(line, matched);
        self.resolve_reply(reply, ai_output)
    }

    /// Whether a line of the program can be read as a turn: trimmed, it
    /// matches the reply pattern and follows the reply grammar.
    pub open spec fn reply_read(line: Seq<char>) -> bool {
        let trimmed = str_trim(line);
        regex_is_match(AI_OUTPUT_REGEX@, trimmed) == Some(true) && well_formed_reply(trimmed)
    }
}

/// The side that the human plays: the first player has `White`.
pub open spec fn human_side(is_first_player: bool) -> Player {
    if is_first_player {
        Player::White
    } else {
        Player::Black
    }
}

/// The position of the game of a user, if the user has one.
pub fn get_game(state: &State, user: &User) -> (r: Result<GameState, Error>)
    ensures
        r is Ok <==> state.games@.contains_key(user.name@),
        r is Ok ==> r.unwrap() == state.games@[user.name@].checkers,
        r is Err ==> r.unwrap_err() is NotFound,
{
    match state.games.get(user.name.as_str()) {
        Some(game) => Ok(game.checkers),
        None => Err(Error::NotFound),
    }
}

/// Starts a game for a user. `agent_running` says whether the program of an
/// earlier game of the user still runs: then no new game starts. The human
/// plays first or second; where the program plays first, the user needs a
/// submission, which is handed back with the game so that its turn can be
/// run. The game is not kept yet, see [`keep`].
pub fn start(state: &State, user: &User, is_first_player: bool, agent_running: bool) -> (r: Result<
    (Game, Option<Submission>),
    Error,
>)
    ensures
        r is Err <==> agent_running || (!is_first_player && !state.submissions@.contains_key(
            user.name@,
        )),
        r is Err ==> (if agent_running {
            r.unwrap_err() is GameAlreadyInProgress
        } else {
            r.unwrap_err() is NotFound
        }),
        r is Ok ==> {
            &&& r.unwrap().0.is_new(human_side(is_first_player))
            &&& r.unwrap().1 == (if is_first_player {
                None
            } else {
                Some(state.submissions@[user.name@])
            })
        },
{
    if agent_running {
        return Err(Error::GameAlreadyInProgress);
    }
    let human_player = if is_first_player {
        Player::White
    } else {
        Player::Black
    };
    let game = Game::new(human_player);
    if is_first_player {
        Ok((game, None))
    } else {
        match state.submissions.get(user.name.as_str()) {
            Some(submission) => Ok((game, Some(submission.clone()))),
            None => Err(Error::NotFound),
        }
    }
}

/// Keeps the game of a user, in place of an earlier one.
pub fn keep(state: &mut State, user: &User, game: Game)
    ensures
        final(state).games@ == old(state).games@.insert(user.name@, game),
        final(state).submissions@ == old(state).submissions@,
{
    state.games.insert(user.name.clone(), game);
}

/// Plays the turn of the human in the game of a user. A user without a
/// submission or without a game is not found; a turn that is not legal is
/// refused. Otherwise the game after the turn is handed back, with the
/// submission whose turn it now is. The state itself is not changed, see
/// [`keep`].
pub fn play(state: &State, user: &User, moves: Vec<Move>) -> (r: Result<(Game, Submission), Error>)
    ensures
        r is Ok <==> {
            &&& state.submissions@.contains_key(user.name@)
            &&& state.games@.contains_key(user.name@)
            &&& state.games@[user.name@].checkers.accepts(moves@)
        },
        r is Ok ==> {
            &&& r.unwrap().1 == state.submissions@[user.name@]
            &&& r.unwrap().0.human_player == state.games@[user.name@].human_player
            &&& state.games@[user.name@].checkers.played(moves@, r.unwrap().0.checkers)
        },
        r is Err ==> (if state.submissions@.contains_key(user.name@) && state.games@.contains_key(
            user.name@,
        ) {
            r.unwrap_err() is InvalidMove
        } else {
            r.unwrap_err() is NotFound
        }),
{
    let submission = match state.submissions.get(user.name.as_str()) {
        Some(submission) => submission.clone(),
        None => {
            return Err(Error::NotFound);
        },
    };
    let mut game = match state.games.get(user.name.as_str()) {
        Some(game) => *game,
        None => {
            return Err(Error::NotFound);
        },
    };
    match game.play_human(moves) {
        Ok(()) => Ok((game, submission)),
        Err(e) => Err(e),
    }
}

/// What stopping the game of `name` makes of the games, and whether there
/// was a game to stop.
pub open spec fn stop_outcome(games: Map<Seq<char>, Game>, name: Seq<char>) -> (Map<Seq<char>, Game>, bool) {
    (games.remove(name), games.contains_key(name))
}

/// Stops the game of a user and forgets it. A user without a game is not
/// found.
pub fn stop(state: &mut State, user: &User) -> (r: Result<(), Error>)
    ensures
        (final(state).games@, r is Ok) == stop_outcome(old(state).games@, user.name@),
        final(state).submissions@ == old(state).submissions@,
        r is Err ==> r.unwrap_err() is NotFound,
{
    if !state.games.contains_key(user.name.as_str()) {
        assert(state.games@.remove(user.name@) =~= state.games@);
        return Err(Error::NotFound);
    }
    state.games.remove(user.name.as_str());
    Ok(())
}

/// Stopping is safe to repeat: once the game of a user is stopped, stopping
/// it again finds no game and leaves the games as they are.
pub proof fn lemma_stop_twice(games: Map<Seq<char>, Game>, name: Seq<char>)
    ensures
        stop_outcome(stop_outcome(games, name).0, name) == (stop_outcome(games, name).0, false),
{
    assert(games.remove(name).remove(name) =~= games.remove(name));
}

} // verus!
