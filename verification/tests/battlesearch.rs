use battlesearch::ids::{bytes_to_id, str_to_id};
use battlesearch::pool::{ToSend, Worker, WorkerPoolManager, WorkerState};
use battlesearch::search::{
    evaluate, format_report, get_filename, BattleSearchError, BattleSearcher, ExtractedFields,
    SearchOptions,
};

fn fields(
    p1: Option<&[u8]>,
    p2: Option<&[u8]>,
    winner: Option<&[u8]>,
    end_type: Option<&[u8]>,
) -> ExtractedFields {
    ExtractedFields {
        p1: p1.map(|b| b.to_vec()),
        p2: p2.map(|b| b.to_vec()),
        winner: winner.map(|b| b.to_vec()),
        end_type: end_type.map(|b| b.to_vec()),
    }
}

fn opts(user: &str, wins_only: bool, forfeits_only: bool) -> SearchOptions {
    SearchOptions::new(user, wins_only, forfeits_only)
}

#[test]
fn normalize_case_and_punctuation() {
    assert_eq!(str_to_id("Ann-Ika"), str_to_id("annika"));
    assert_eq!(str_to_id("Ann-Ika"), "annika");
    assert_eq!(str_to_id("A.B_c 9!"), "abc9");
}

#[test]
fn normalize_idempotent() {
    let once = str_to_id("Ann-Ika! 42");
    let twice = str_to_id(once.as_str());
    assert_eq!(once, twice);
    assert_eq!(str_to_id(""), "");
}

#[test]
fn bytes_to_id_strips_quotes_and_lowercases() {
    assert_eq!(bytes_to_id(&Some(b"\"Annika\"".to_vec())), Some("annika".to_owned()));
    assert_eq!(bytes_to_id(&Some(b"\"\"".to_vec())), Some(String::new()));
    assert_eq!(bytes_to_id(&None), None);
}

#[test]
fn filename_of_plain_paths() {
    assert_eq!(get_filename("a/b/c.log.json").unwrap(), "c.log.json");
    assert_eq!(get_filename("name").unwrap(), "name");
}

#[test]
fn filename_ignores_trailing_separators() {
    assert_eq!(get_filename("dir/").unwrap(), "dir");
    assert_eq!(get_filename("a/b//").unwrap(), "b");
}

#[test]
fn filename_skips_current_directory_components() {
    assert_eq!(get_filename("x/.").unwrap(), "x");
    assert_eq!(get_filename("x/./.").unwrap(), "x");
    assert_eq!(get_filename("x/./").unwrap(), "x");
    assert_eq!(get_filename("./x").unwrap(), "x");
}

#[test]
fn filename_errors_when_path_has_none() {
    assert!(matches!(get_filename(""), Err(BattleSearchError::Path(_))));
    assert!(matches!(get_filename("/"), Err(BattleSearchError::Path(_))));
    assert!(matches!(get_filename("."), Err(BattleSearchError::Path(_))));
    assert!(matches!(get_filename("./"), Err(BattleSearchError::Path(_))));
    assert!(matches!(get_filename("x/.."), Err(BattleSearchError::Path(_))));
    match get_filename("logs/..") {
        Err(BattleSearchError::Path(m)) => assert!(m.contains("logs/..")),
        other => panic!("expected a path error, got {:?}", other.is_ok()),
    }
}

#[test]
fn evaluate_ignores_other_players() {
    // Neither player id normalizes to the searched id: no report, for every
    // combination of winner and end type.
    let winners: [Option<&[u8]>; 3] = [None, Some(b"\"Carol\""), Some(b"null")];
    let ends: [Option<&[u8]>; 3] = [None, Some(b"\"normal\""), Some(b"\"forfeit\"")];
    for w in winners.iter() {
        for e in ends.iter() {
            let f = fields(Some(b"\"Carol\""), Some(b"\"Dave\""), *w, *e);
            let r = evaluate(&f, &opts("annika", false, false), "x.log.json", "d");
            assert!(matches!(r, Ok(None)));
        }
    }
}

#[test]
fn evaluate_reports_player_without_narrowing() {
    // The searched user is a player and no narrowing is on: a report comes
    // back regardless of winner and end type.
    let winners: [Option<&[u8]>; 3] = [None, Some(b"\"Bob\""), Some(b"null")];
    let ends: [Option<&[u8]>; 3] = [None, Some(b"\"normal\""), Some(b"\"forfeit\"")];
    for w in winners.iter() {
        for e in ends.iter() {
            let f = fields(Some(b"\"Annika\""), Some(b"\"Bob\""), *w, *e);
            let r = evaluate(&f, &opts("annika", false, false), "x.log.json", "d");
            assert!(matches!(r, Ok(Some(_))));
        }
    }
}

#[test]
fn evaluate_wins_only() {
    let o = opts("annika", true, false);
    let absent = fields(Some(b"\"Annika\""), Some(b"\"Bob\""), None, None);
    assert!(matches!(evaluate(&absent, &o, "x", "d"), Ok(None)));
    let null_winner = fields(Some(b"\"Annika\""), Some(b"\"Bob\""), Some(b"null"), None);
    assert!(matches!(evaluate(&null_winner, &o, "x", "d"), Ok(None)));
    let other = fields(Some(b"\"Annika\""), Some(b"\"Bob\""), Some(b"\"Bob\""), None);
    assert!(matches!(evaluate(&other, &o, "x", "d"), Ok(None)));
    let won = fields(Some(b"\"Annika\""), Some(b"\"Bob\""), Some(b"\"Annika\""), None);
    assert!(matches!(evaluate(&won, &o, "x", "d"), Ok(Some(_))));
}

#[test]
fn evaluate_forfeits_only() {
    let o = opts("annika", false, true);
    let absent = fields(Some(b"\"Annika\""), Some(b"\"Bob\""), None, None);
    assert!(matches!(evaluate(&absent, &o, "x", "d"), Ok(None)));
    let normal = fields(Some(b"\"Annika\""), Some(b"\"Bob\""), None, Some(b"\"normal\""));
    assert!(matches!(evaluate(&normal, &o, "x", "d"), Ok(None)));
    let forfeit = fields(Some(b"\"Annika\""), Some(b"\"Bob\""), None, Some(b"\"forfeit\""));
    assert!(matches!(evaluate(&forfeit, &o, "x", "d"), Ok(Some(_))));
}

#[test]
fn evaluate_missing_players_is_malformed() {
    let no_p1 = fields(None, Some(b"\"Bob\""), None, None);
    match evaluate(&no_p1, &opts("annika", false, false), "x", "d") {
        Err(BattleSearchError::FaultyJSON(m)) => assert_eq!(m, "No p1 value"),
        other => panic!("expected a faulty-JSON error, got {:?}", other.is_ok()),
    }
    let no_p2 = fields(Some(b"\"Annika\""), None, None, None);
    match evaluate(&no_p2, &opts("annika", false, false), "x", "d") {
        Err(BattleSearchError::FaultyJSON(m)) => assert_eq!(m, "No p2 value"),
        other => panic!("expected a faulty-JSON error, got {:?}", other.is_ok()),
    }
}

#[test]
fn evaluate_builds_the_full_report() {
    let f = fields(
        Some(b"\"Annika\""),
        Some(b"\"Bob\""),
        Some(b"\"Annika\""),
        Some(b"\"forfeit\""),
    );
    let r = evaluate(&f, &opts("annika", false, false), "battle-gen8-42.log.json", "2020-01");
    let rep = r.unwrap().unwrap();
    assert_eq!(rep.context_label, "2020-01");
    assert_eq!(rep.room_name, "battle-gen8-42");
    assert_eq!(rep.player1_id, "annika");
    assert_eq!(rep.player2_id, "bob");
    assert_eq!(rep.outcome_description, "annika won by forfeit");
    let line = format_report(&rep);
    assert_eq!(line, "(2020-01) <<battle-gen8-42>> annika vs. bob (annika won by forfeit)");
}

#[test]
fn room_name_strips_only_the_trailing_suffix() {
    let f = fields(Some(b"\"Annika\""), Some(b"\"Bob\""), None, None);
    let o = opts("annika", false, false);
    let rep = evaluate(&f, &o, "a.log.jsonb.log.json", "d").unwrap().unwrap();
    assert_eq!(rep.room_name, "a.log.jsonb");
    let rep2 = evaluate(&f, &o, "short", "d").unwrap().unwrap();
    assert_eq!(rep2.room_name, "short");
    let rep3 = evaluate(&f, &o, ".log.json", "d").unwrap().unwrap();
    assert_eq!(rep3.room_name, "");
}

#[test]
fn check_log_end_to_end_normal_win() {
    let mut searcher = BattleSearcher::new("annika", 2, false, false);
    let data = b"{\"p1\":\"Annika\",\"p2\":\"Bob\",\"winner\":\"Annika\",\"endType\":\"normal\"}";
    let r = searcher.check_log(data, "logs/battle-gen8-42.log.json", "2020-01");
    let rep = r.unwrap().unwrap();
    let line = format_report(&rep);
    assert!(line.contains("annika vs. bob"));
    assert!(line.contains("annika won normally"));
    assert_eq!(line, "(2020-01) <<battle-gen8-42>> annika vs. bob (annika won normally)");
}

#[test]
fn check_log_wins_only_excludes_loser() {
    let mut searcher = BattleSearcher::new("bob", 2, true, false);
    let data = b"{\"p1\":\"Annika\",\"p2\":\"Bob\",\"winner\":\"Annika\",\"endType\":\"normal\"}";
    let r = searcher.check_log(data, "logs/battle-gen8-42.log.json", "2020-01");
    assert!(matches!(r, Ok(None)));
}

#[test]
fn check_log_forfeit_without_winner() {
    let mut searcher = BattleSearcher::new("annika", 2, false, true);
    let data = b"{\"p1\":\"Annika\",\"p2\":\"Bob\",\"winner\":null,\"endType\":\"forfeit\"}";
    let r = searcher.check_log(data, "logs/battle-gen8-43.log.json", "2020-01");
    let rep = r.unwrap().unwrap();
    assert_eq!(rep.outcome_description, "there was no winner");
    let line = format_report(&rep);
    assert!(line.contains("there was no winner"));
}

#[test]
fn check_log_recovers_after_bad_documents() {
    let mut searcher = BattleSearcher::new("annika", 2, false, false);
    assert!(searcher.check_log(b"", "a.log.json", "d").is_err());
    assert!(searcher.check_log(b"this is not json", "a.log.json", "d").is_err());
    assert!(searcher.check_log(b"{\"p2\":\"Bob\"}", "a.log.json", "d").is_err());
    // The same searcher keeps working on the next, well-formed document.
    let data = b"{\"p1\":\"Annika\",\"p2\":\"Bob\",\"winner\":\"Bob\",\"endType\":\"normal\"}";
    let r = searcher.check_log(data, "logs/battle-gen8-44.log.json", "2020-01");
    assert!(matches!(r, Ok(Some(_))));
}

#[test]
fn round_robin_dispatch_order() {
    let mut pool = WorkerPoolManager::new(3);
    let mut seen: Vec<usize> = Vec::new();
    for t in 0..7 {
        let task = ToSend::File(format!("file-{}", t), "2020-01".to_owned());
        seen.push(pool.dispatch(&task));
    }
    assert_eq!(seen, vec![0, 1, 2, 0, 1, 2, 0]);
    pool.shutdown();
}

#[test]
fn single_worker_pool_gets_everything() {
    let mut pool = WorkerPoolManager::new(1);
    for t in 0..4 {
        let task = ToSend::File(format!("file-{}", t), "d".to_owned());
        assert_eq!(pool.dispatch(&task), 0);
    }
    pool.shutdown();
}

#[test]
fn worker_state_machine() {
    let mut w = Worker::new("annika", 2, false, false);
    assert!(matches!(w.state, WorkerState::Running));
    let data = b"{\"p1\":\"Annika\",\"p2\":\"Bob\",\"winner\":\"Annika\",\"endType\":\"normal\"}";
    let rep = w.process_file(data, "logs/battle-gen8-42.log.json", "2020-01");
    assert!(rep.is_some());
    // A bad document is logged; the worker keeps running.
    let none = w.process_file(b"{\"p2\":\"Bob\"}", "bad.log.json", "2020-01");
    assert!(none.is_none());
    assert!(matches!(w.state, WorkerState::Running));
    w.file_read_failed("gone.log.json", "no such file");
    assert!(matches!(w.state, WorkerState::Running));
    w.on_terminate();
    assert!(matches!(w.state, WorkerState::Terminated));
}

#[test]
fn error_descriptions() {
    let e = BattleSearchError::FaultyJSON("bad".to_owned());
    assert_eq!(e.describe(), "faulty JSON: bad");
    let p = BattleSearchError::Path("no name".to_owned());
    assert_eq!(p.describe(), "path error: no name");
    let io = BattleSearchError::IO("denied".to_owned());
    assert_eq!(io.describe(), "io error: denied");
}
