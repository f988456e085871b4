use checkers_backend::api::play::{
    get_game, keep, parse_reply, play, read_reply, start, stop, Game,
};
use checkers_backend::api::submissions::{get_submission, post_submission, Language, Submission};
use checkers_backend::api::{AIError, Error, State, User};
use checkers_backend::config::Config;
use checkers_backend::docker::{required_images, CPP_IMAGE, JAVA_IMAGE, PYTHON_IMAGE};
use checkers_backend::game::{default_board, GameStatus, Move, Piece, PieceType, Player};

fn user(name: &str) -> User {
    User { name: name.to_string() }
}

fn submission(name: &str, lang: Language) -> Submission {
    Submission { name: name.to_string(), lang, code: format!("/data/{}", name) }
}

fn m(x1: usize, y1: usize, x2: usize, y2: usize) -> Move {
    Move { from: (x1, y1), to: (x2, y2) }
}

#[test]
fn reply_of_two_steps_is_read() {
    assert_eq!(parse_reply("02,04;04,06;"), Some(vec![m(0, 2, 0, 4), m(0, 4, 0, 6)]));
    assert_eq!(parse_reply("71,60;"), Some(vec![m(7, 1, 6, 0)]));
    assert_eq!(parse_reply("99,00;"), Some(vec![m(9, 9, 0, 0)]));
}

#[test]
fn reply_outside_the_grammar_is_not_read() {
    for line in ["", "ab", "02,04", "02,04;0", "02;04,", "0a,04;", "02,04;;", "02.04;", " 02,04;", "٠٢,٠٤;"] {
        assert_eq!(parse_reply(line), None, "{:?}", line);
    }
}

#[test]
fn read_reply_needs_the_pattern_to_match() {
    assert_eq!(read_reply("71,60;", Some(true)), Ok(vec![m(7, 1, 6, 0)]));
    assert_eq!(read_reply("71,60;", Some(false)), Err(AIError::InvalidOutput));
    assert_eq!(read_reply("71,60;", None), Err(AIError::InvalidOutput));
    assert_eq!(read_reply("ab", Some(true)), Err(AIError::InvalidOutput));
}

#[test]
fn agent_reads_the_side_and_the_board() {
    let game = Game::new(Player::Black);
    let text = game.agent_input();
    let mut lines = text.split('\n');
    assert_eq!(lines.next(), Some("W"));
    assert_eq!(lines.next(), Some("MB;;MB;;MB;;MB;;MB;"));
    assert_eq!(text.split('\n').count(), 11);
    assert_eq!(text, format!("W\n{}", game.checkers.to_csv_string()));
}

#[test]
fn malformed_reply_forfeits_the_game() {
    let mut game = Game::new(Player::Black);
    let r = game.play_ai("ab", "trace".to_string());
    match r {
        Err(Error::AIFailed { error, ai_output, move_ }) => {
            assert_eq!(error, AIError::InvalidOutput);
            assert_eq!(ai_output, "trace");
            assert_eq!(move_, None);
        }
        _ => panic!(),
    }
    assert_eq!(game.checkers.status, GameStatus::Victory(Player::Black));
    assert_eq!(game.checkers.board, default_board());
    assert_eq!(game.checkers.current_player, Player::White);
}

#[test]
fn illegal_reply_forfeits_the_game() {
    let mut game = Game::new(Player::Black);
    let r = game.play_ai("71,51;\n", "oops".to_string());
    match r {
        Err(Error::AIFailed { error, ai_output, move_ }) => {
            assert_eq!(error, AIError::InvalidMove);
            assert_eq!(ai_output, "oops");
            assert_eq!(move_, Some(vec![m(7, 1, 5, 1)]));
        }
        _ => panic!(),
    }
    assert_eq!(game.checkers.status, GameStatus::Victory(Player::Black));
    assert_eq!(game.checkers.board, default_board());
}

#[test]
fn legal_reply_is_played() {
    let mut game = Game::new(Player::Black);
    let r = game.play_ai("  71,60;\n", "thinking".to_string());
    assert_eq!(r.ok(), Some("thinking".to_string()));
    assert_eq!(game.checkers.status, GameStatus::InProgress);
    assert_eq!(game.checkers.current_player, Player::Black);
    assert_eq!(game.checkers.board[7][1], None);
    assert_eq!(
        game.checkers.board[6][0],
        Some(Piece { type_: PieceType::Man, player: Player::White })
    );
}

#[test]
fn reply_with_more_than_the_pattern_is_refused() {
    let mut game = Game::new(Player::Black);
    let r = game.play_ai("71,60;x", String::new());
    assert!(matches!(r, Err(Error::AIFailed { error: AIError::InvalidOutput, .. })));
    assert_eq!(game.checkers.status, GameStatus::Victory(Player::Black));
}

#[test]
fn human_turn_is_checked_against_the_rules() {
    let mut game = Game::new(Player::White);
    assert!(matches!(game.play_human(vec![m(7, 1, 5, 3)]), Err(Error::InvalidMove)));
    assert_eq!(game.checkers.board, default_board());
    assert!(game.play_human(vec![m(7, 1, 6, 2)]).is_ok());
    assert_eq!(game.checkers.current_player, Player::Black);
    assert!(game.play_ai("20,31;", String::new()).is_ok());
    assert_eq!(game.checkers.current_player, Player::White);
}

#[test]
fn empty_submission_is_refused_and_nothing_runs() {
    let s = submission("ann", Language::Python);
    for code in [None, Some(&Vec::new())] {
        match s.start(code) {
            Err(Error::AIFailed { error, ai_output, move_ }) => {
                assert_eq!(error, AIError::EmptySubmission);
                assert_eq!(ai_output, "");
                assert_eq!(move_, None);
            }
            _ => panic!(),
        }
    }
    let mut game = Game::new(Player::Black);
    let r = game.begin_ai_turn(&s, Some(&Vec::new()));
    assert!(matches!(r, Err(Error::AIFailed { error: AIError::EmptySubmission, .. })));
    assert_eq!(game.checkers.status, GameStatus::Victory(Player::Black));
    assert_eq!(game.checkers.board, default_board());
}

#[test]
fn program_is_handed_over_in_base64() {
    let code = b"hello".to_vec();
    let launch = submission("ann", Language::Python).start(Some(&code)).unwrap();
    assert_eq!(launch.image, PYTHON_IMAGE);
    assert_eq!(launch.command, "echo aGVsbG8= | base64 -d > /script.py && python /script.py");
    assert_eq!(
        launch.arguments(),
        vec!["run", "-u", "root", "-i", PYTHON_IMAGE, "sh", "-c", launch.command.as_str()]
    );
    let launch = submission("ann", Language::Java).start(Some(&code)).unwrap();
    assert_eq!(launch.image, JAVA_IMAGE);
    assert_eq!(launch.command, "echo aGVsbG8= | base64 -d > /script.java && java /script.java");
    let launch = submission("ann", Language::Cpp).start(Some(&vec![0xfb, 0xff])).unwrap();
    assert_eq!(launch.image, CPP_IMAGE);
    assert_eq!(
        launch.command,
        "echo +/8= | base64 -d > /script.cpp && g++ /script.cpp -o /exe && /exe"
    );
}

#[test]
fn agent_turn_begins_with_launch_and_input() {
    let mut game = Game::new(Player::Black);
    let code = b"print('71,60;')".to_vec();
    let (launch, input) = game.begin_ai_turn(&submission("ann", Language::Python), Some(&code)).unwrap();
    assert_eq!(launch.image, PYTHON_IMAGE);
    assert!(launch.command.starts_with("echo cHJpbnQoJzcxLDYwOycp | base64 -d"));
    assert_eq!(input, game.agent_input());
    assert_eq!(game.checkers.status, GameStatus::InProgress);
}

#[test]
fn languages_by_name() {
    assert_eq!(Language::from_str("cpp").ok(), Some(Language::Cpp));
    assert_eq!(Language::from_str("java").ok(), Some(Language::Java));
    assert_eq!(Language::from_str("python").ok(), Some(Language::Python));
    assert!(matches!(Language::from_str("rust"), Err(Error::InvalidLanguage)));
    assert!(matches!(Language::from_str(""), Err(Error::InvalidLanguage)));
    assert!(matches!(Language::from_str("Cpp"), Err(Error::InvalidLanguage)));
    for lang in [Language::Cpp, Language::Java, Language::Python] {
        assert_eq!(Language::from_str(&lang.to_string()).ok(), Some(lang));
    }
}

#[test]
fn paths_of_submissions() {
    let config = Config { data_dir: "/data".to_string() };
    assert_eq!(config.empty_path("ann"), "/data/ann");
    assert_eq!(config.submission_path("ann", Language::Java), "/data/ann.java");
    let s = Submission::empty("ann".to_string(), config.empty_path("ann"));
    assert_eq!(s.name, "ann");
    assert_eq!(s.lang, Language::Cpp);
    assert_eq!(s.code, "/data/ann");
    assert_eq!(required_images(), vec![JAVA_IMAGE, PYTHON_IMAGE, CPP_IMAGE]);
}

#[test]
fn start_as_first_player_needs_no_submission() {
    let state = State::new();
    let (game, sub) = start(&state, &user("ann"), true, false).ok().unwrap();
    assert_eq!(game.human_player, Player::White);
    assert_eq!(game.checkers.board, default_board());
    assert_eq!(game.checkers.current_player, Player::White);
    assert!(sub.is_none());
}

#[test]
fn start_as_second_player_needs_a_submission() {
    let mut state = State::new();
    assert!(matches!(start(&state, &user("ann"), false, false), Err(Error::NotFound)));
    assert!(!state.knows("ann"));
    state.submit(submission("ann", Language::Java));
    assert!(state.knows("ann"));
    let (game, sub) = start(&state, &user("ann"), false, false).ok().unwrap();
    assert_eq!(game.human_player, Player::Black);
    let sub = sub.unwrap();
    assert_eq!(sub.name, "ann");
    assert_eq!(sub.lang, Language::Java);
}

#[test]
fn start_is_refused_while_the_agent_runs() {
    let mut state = State::new();
    state.submit(submission("ann", Language::Java));
    assert!(matches!(start(&state, &user("ann"), true, true), Err(Error::GameAlreadyInProgress)));
    assert!(matches!(start(&state, &user("ann"), false, true), Err(Error::GameAlreadyInProgress)));
}

#[test]
fn stop_twice_reports_not_found() {
    let mut state = State::new();
    keep(&mut state, &user("ann"), Game::new(Player::White));
    keep(&mut state, &user("bob"), Game::new(Player::Black));
    assert!(get_game(&state, &user("ann")).is_ok());
    assert!(stop(&mut state, &user("ann")).is_ok());
    assert!(matches!(stop(&mut state, &user("ann")), Err(Error::NotFound)));
    assert!(matches!(get_game(&state, &user("ann")), Err(Error::NotFound)));
    assert!(get_game(&state, &user("bob")).is_ok());
    assert!(matches!(stop(&mut state, &user("eve")), Err(Error::NotFound)));
}

#[test]
fn play_needs_a_submission_and_a_game() {
    let mut state = State::new();
    let ann = user("ann");
    assert!(matches!(play(&state, &ann, vec![m(7, 1, 6, 0)]), Err(Error::NotFound)));
    state.submit(submission("ann", Language::Cpp));
    assert!(matches!(play(&state, &ann, vec![m(7, 1, 6, 0)]), Err(Error::NotFound)));
    keep(&mut state, &ann, Game::new(Player::White));
    assert!(matches!(play(&state, &ann, vec![m(7, 1, 6, 1)]), Err(Error::InvalidMove)));
    let (game, sub) = play(&state, &ann, vec![m(7, 1, 6, 0)]).ok().unwrap();
    assert_eq!(sub.lang, Language::Cpp);
    assert_eq!(game.checkers.current_player, Player::Black);
    assert_eq!(get_game(&state, &ann).ok().unwrap().current_player, Player::White);
    keep(&mut state, &ann, game);
    let kept = get_game(&state, &ann).ok().unwrap();
    assert_eq!(kept.current_player, Player::Black);
    assert_eq!(kept.board[7][1], None);
}

#[test]
fn finished_game_stays_as_it_ended() {
    let mut game = Game::new(Player::Black);
    game.checkers.status = GameStatus::Victory(Player::White);
    let r = game.play_ai("71,60;", String::new());
    assert!(matches!(r, Err(Error::AIFailed { error: AIError::InvalidMove, .. })));
    assert_eq!(game.checkers.status, GameStatus::Victory(Player::White));
    assert_eq!(game.checkers.board, default_board());
    assert!(matches!(game.play_human(vec![m(7, 1, 6, 0)]), Err(Error::InvalidMove)));
}

#[test]
fn errors_have_their_status() {
    assert_eq!(Error::IO.status(), 500);
    assert_eq!(Error::Poison.status(), 500);
    assert_eq!(Error::NotFound.status(), 404);
    assert_eq!(Error::InvalidMove.status(), 400);
    assert_eq!(Error::GameAlreadyInProgress.status(), 400);
    assert_eq!(Error::InvalidLanguage.status(), 400);
    assert_eq!(Error::Unauthorized.status(), 401);
    let failed = Error::AIFailed { error: AIError::InvalidOutput, ai_output: String::new(), move_: None };
    assert_eq!(failed.status(), 406);
}

#[test]
fn user_comes_from_the_bearer_header() {
    assert_eq!(User::from_authorization(Some("Bearer ann")).ok().unwrap().name, "ann");
    assert_eq!(User::from_authorization(Some("Bearer ")).ok().unwrap().name, "");
    assert_eq!(User::from_authorization(Some("Bearer a b")).ok().unwrap().name, "a b");
    assert!(matches!(User::from_authorization(None), Err(Error::Unauthorized)));
    assert!(matches!(User::from_authorization(Some("ann")), Err(Error::Unauthorized)));
    assert!(matches!(User::from_authorization(Some("bearer ann")), Err(Error::Unauthorized)));
    assert!(matches!(User::from_authorization(Some("Bearer")), Err(Error::Unauthorized)));
}

#[test]
fn submission_comes_from_its_file_name() {
    let s = Submission::from_file_name("ann.java", "/data/ann.java".to_string()).unwrap();
    assert_eq!(s.name, "ann");
    assert_eq!(s.lang, Language::Java);
    assert_eq!(s.code, "/data/ann.java");
    let s = Submission::from_file_name("a.b.cpp", "x".to_string()).unwrap();
    assert_eq!(s.name, "a.b");
    assert_eq!(s.lang, Language::Cpp);
    assert!(Submission::from_file_name("ann", "x".to_string()).is_none());
    assert!(Submission::from_file_name("ann.rs", "x".to_string()).is_none());
    assert!(Submission::from_file_name("ann.", "x".to_string()).is_none());
    assert_eq!(Submission::from_file_name(".python", "x".to_string()).unwrap().name, "");
}

#[test]
fn turn_takes_exactly_the_captured_pieces_off() {
    let mut game = Game::new(Player::White);
    game.checkers.board = [[None; 10]; 10];
    game.checkers.board[5][2] = Some(Piece { type_: PieceType::Man, player: Player::White });
    game.checkers.board[4][3] = Some(Piece { type_: PieceType::Man, player: Player::Black });
    game.checkers.board[2][5] = Some(Piece { type_: PieceType::Man, player: Player::Black });
    game.checkers.board[0][9] = Some(Piece { type_: PieceType::King, player: Player::Black });
    let count = |g: &Game| g.checkers.board.iter().flatten().filter(|c| c.is_some()).count();
    assert_eq!(count(&game), 4);
    assert!(game.play_human(vec![m(5, 2, 3, 4), m(3, 4, 1, 6)]).is_ok());
    assert_eq!(count(&game), 2);
    assert_eq!(
        game.checkers.board[0][9],
        Some(Piece { type_: PieceType::King, player: Player::Black })
    );
}

#[test]
fn submissions_are_looked_up_and_made() {
    let config = Config { data_dir: "/data".to_string() };
    let mut state = State::new();
    let ann = user("ann");
    assert!(matches!(get_submission(&ann, &state), Err(Error::NotFound)));
    assert!(matches!(post_submission(&ann, "go", &config), Err(Error::InvalidLanguage)));
    let made = post_submission(&ann, "python", &config).ok().unwrap();
    assert_eq!(made.name, "ann");
    assert_eq!(made.lang, Language::Python);
    assert_eq!(made.code, "/data/ann.python");
    state.submit(made);
    let found = get_submission(&ann, &state).ok().unwrap();
    assert_eq!(found.code, "/data/ann.python");
    assert_eq!(found.lang, Language::Python);
    state.submit(post_submission(&ann, "cpp", &config).ok().unwrap());
    assert_eq!(get_submission(&ann, &state).ok().unwrap().lang, Language::Cpp);
}

#[test]
fn cell_is_named_by_row_and_column() {
    use_cell(&['0', '2'], (0, 2));
    use_cell(&['9', '0'], (9, 0));
    use_cell(&['4', '7', ','], (4, 7));
}

fn use_cell(id: &[char], expected: (usize, usize)) {
    assert_eq!(checkers_backend::api::play::convert_cell_id(id), expected);
}

#[test]
fn digits_of_other_scripts_name_no_cell() {
    let mut game = Game::new(Player::Black);
    let r = game.play_ai("٧١,٦٠;", "x".to_string());
    assert!(matches!(r, Err(Error::AIFailed { error: AIError::InvalidOutput, move_: None, .. })));
    assert_eq!(game.checkers.status, GameStatus::Victory(Player::Black));
    assert_eq!(game.checkers.board, default_board());
}
