//! Match evaluation: given the four extracted top-level fields of one battle
//! record and the search options, decides whether the record is reported and
//! builds the report line.
//!
//! Field extraction itself is an outside collaborator (a JSON parser that
//! picks the queried fields' raw bytes out of a document); it is consumed
//! through trusted wrappers, and everything done with its output is verified.

use crate::ids::{
    bytes_to_id, lemma_normalize_idempotent, normalized_of, normalized_of_bytes, str_to_id,
};
use std::io::Write;
use vstd::prelude::*;

verus! {

/// The error taxonomy of a search run. Errors local to one file are carried
/// as `FaultyJSON`; the others are built by the surrounding program from
/// path, I/O, channel-send and thread-join failures.
#[derive(Debug)]
pub enum BattleSearchError {
    FaultyJSON(String),
    Path(String),
    IO(String),
    Thread(String),
    Join(String),
}

impl BattleSearchError {
    /// A one-line description of the error, for diagnostics.
    pub fn describe(&self) -> (s: String)
        ensures
            self matches BattleSearchError::FaultyJSON(m) ==> s@ == "faulty JSON: "@ + m@,
            self matches BattleSearchError::Path(m) ==> s@ == "path error: "@ + m@,
            self matches BattleSearchError::IO(m) ==> s@ == "io error: "@ + m@,
            self matches BattleSearchError::Thread(m) ==> s@ == "send error: "@ + m@,
            self matches BattleSearchError::Join(m) ==> s@ == "join error: "@ + m@,
    {
        match self {
            BattleSearchError::FaultyJSON(m) => {
                let mut s = "faulty JSON: ".to_owned();
                s.append(m.as_str());
                s
            },
            BattleSearchError::Path(m) => {
                let mut s = "path error: ".to_owned();
                s.append(m.as_str());
                s
            },
            BattleSearchError::IO(m) => {
                let mut s = "io error: ".to_owned();
                s.append(m.as_str());
                s
            },
            BattleSearchError::Thread(m) => {
                let mut s = "send error: ".to_owned();
                s.append(m.as_str());
                s
            },
            BattleSearchError::Join(m) => {
                let mut s = "join error: ".to_owned();
                s.append(m.as_str());
                s
            },
        }
    }
}

/// The validated search options, immutable after construction and shared
/// read-only by every worker.
pub struct SearchOptions {
    /// The searched player, already normalized.
    pub searched_user_id: String,
    /// Report only matches the searched user won.
    pub wins_only: bool,
    /// Report only matches that ended by forfeit.
    pub forfeits_only: bool,
}

impl SearchOptions {
    /// The options' invariant: the searched id is a normalized key, so it can
    /// be compared directly against normalized player ids.
    pub open spec fn wf(&self) -> bool {
        normalized_of(self.searched_user_id@) == self.searched_user_id@
    }

    /// Builds options from the raw searched username, normalizing it.
    pub fn new(username: &str, wins_only: bool, forfeits_only: bool) -> (r: Self)
        ensures
            r.wf(),
            r.searched_user_id@ == normalized_of(username@),
            r.wins_only == wins_only,
            r.forfeits_only == forfeits_only,
    {
        let searched_user_id = str_to_id(username);
        proof {
            lemma_normalize_idempotent(username@);
        }
        SearchOptions { searched_user_id, wins_only, forfeits_only }
    }
}

/// The four-element result of field extraction for one record: the raw bytes
/// of the two player ids, the winner and the end type, each absent when the
/// document lacks the field.
pub struct ExtractedFields {
    pub p1: Option<Vec<u8>>,
    pub p2: Option<Vec<u8>>,
    pub winner: Option<Vec<u8>>,
    pub end_type: Option<Vec<u8>>,
}

/// A report for one matching battle, built only when the evaluator decides
/// to report, and immediately serialized to one output line.
pub struct MatchReport {
    pub context_label: String,
    pub room_name: String,
    pub player1_id: String,
    pub player2_id: String,
    pub outcome_description: String,
}

/// The raw bytes of the JSON literal `null`: a winner field holding it is
/// treated as absent.
pub open spec fn null_bytes() -> Seq<u8> {
    seq![110u8, 117u8, 108u8, 108u8]
}

/// The raw bytes of the JSON string `"forfeit"`, quotes included: the one
/// end-type value that marks a forfeit.
pub open spec fn forfeit_bytes() -> Seq<u8> {
    seq![34u8, 102u8, 111u8, 114u8, 102u8, 101u8, 105u8, 116u8, 34u8]
}

/// The bytes of an extracted field, when present.
pub open spec fn opt_view(o: Option<Vec<u8>>) -> Option<Seq<u8>> {
    match o {
        Option::Some(v) => Option::Some(v@),
        Option::None => Option::None,
    }
}

/// The winner's normalized id: absent when the field is absent or holds the
/// JSON literal `null`.
pub open spec fn spec_winner_id(w: Option<Seq<u8>>) -> Option<Seq<char>> {
    match w {
        Option::None => Option::None,
        Option::Some(b) => if b == null_bytes() {
            Option::None
        } else {
            Option::Some(normalized_of_bytes(b))
        },
    }
}

/// Whether the searched user won: a winner is present and its normalized id
/// equals the searched id.
pub open spec fn spec_user_won(w: Option<Seq<u8>>, user: Seq<char>) -> bool {
    spec_winner_id(w) matches Option::Some(x) && x == user
}

/// Whether the record ended by forfeit: the end-type field is present and
/// holds exactly the string "forfeit". An absent end type is never an error,
/// just not a forfeit.
pub open spec fn spec_is_forfeit(e: Option<Seq<u8>>) -> bool {
    e matches Option::Some(b) && b == forfeit_bytes()
}

/// Whether a raw player field names the searched user.
pub open spec fn spec_is_player(p: Seq<u8>, user: Seq<char>) -> bool {
    normalized_of_bytes(p) == user
}

/// The whole reporting decision: the searched user is a player, and the
/// wins-only and forfeits-only narrowings (when set) both pass.
pub open spec fn spec_should_report(
    p1: Seq<u8>,
    p2: Seq<u8>,
    w: Option<Seq<u8>>,
    e: Option<Seq<u8>>,
    opts: SearchOptions,
) -> bool {
    let user = opts.searched_user_id@;
    &&& (spec_is_player(p1, user) || spec_is_player(p2, user))
    &&& (opts.wins_only ==> spec_user_won(w, user))
    &&& (opts.forfeits_only ==> spec_is_forfeit(e))
}

/// The outcome description of a reported match: who won and how, or that
/// there was no winner.
pub open spec fn outcome_of(winner: Option<Seq<char>>, is_forfeit: bool) -> Seq<char> {
    match winner {
        Option::Some(wid) => if is_forfeit {
            wid + " won by forfeit"@
        } else {
            wid + " won normally"@
        },
        Option::None => "there was no winner"@,
    }
}

/// The suffix that battle-log file names carry.
pub open spec fn log_json_suffix() -> Seq<char> {
    seq!['.', 'l', 'o', 'g', '.', 'j', 's', 'o', 'n']
}

/// The room name shown for a file: its name with one trailing ".log.json"
/// removed, when it ends so.
pub open spec fn room_of(file_name: Seq<char>) -> Seq<char> {
    if file_name.len() >= 9 && file_name.subrange(
        file_name.len() - 9,
        file_name.len() as int,
    ) == log_json_suffix() {
        file_name.take(file_name.len() - 9)
    } else {
        file_name
    }
}

/// The characters after the last separator (the whole sequence when it has
/// none); empty when the sequence is empty or ends with a separator.
pub open spec fn last_component(p: Seq<char>) -> Seq<char>
    decreases p.len(),
{
    if p.len() == 0 {
        Seq::empty()
    } else if p.last() == '/' {
        Seq::empty()
    } else {
        last_component(p.drop_last()).push(p.last())
    }
}

/// The parent-directory component, which names no file.
pub open spec fn dot_dot() -> Seq<char> {
    seq!['.', '.']
}

/// The current-directory component, which path handling skips.
pub open spec fn dot() -> Seq<char> {
    seq!['.']
}

/// The file name a path yields, read as std's path handling reads it:
/// trailing separators are ignored, a final `.` component is skipped, and a
/// path that is empty, holds only separators and `.` components, or ends in
/// the parent-directory component `..`, names no file.
pub open spec fn file_name_of(p: Seq<char>) -> Seq<char>
    decreases p.len(),
{
    if p.len() == 0 {
        Seq::empty()
    } else if p.last() == '/' {
        file_name_of(p.drop_last())
    } else {
        let c = last_component(p);
        if c == dot() {
            file_name_of(p.take(p.len() - 1))
        } else if c == dot_dot() {
            Seq::empty()
        } else {
            c
        }
    }
}

/// The name a record is displayed under when its path yields no file name.
pub open spec fn display_file_name(p: Seq<char>) -> Seq<char> {
    if file_name_of(p).len() == 0 {
        "unknown file"@
    } else {
        file_name_of(p)
    }
}

/// When no separator stands at or after position `i`, and `i` is the start
/// of the sequence or preceded by a separator, the last component is exactly
/// the suffix from `i`.
proof fn lemma_last_component_suffix(p: Seq<char>, i: int)
    requires
        0 <= i <= p.len(),
        forall|j: int| i <= j < p.len() ==> p[j] != '/',
        i > 0 ==> p[i - 1] == '/',
    ensures
        last_component(p) == p.subrange(i, p.len() as int),
    decreases p.len(),
{
    if i == p.len() {
        assert(p.subrange(i, p.len() as int) =~= Seq::<char>::empty());
        if i > 0 {
            assert(p.last() == '/');
        }
    } else {
        assert(p.last() != '/');
        lemma_last_component_suffix(p.drop_last(), i);
        assert(p.drop_last().subrange(i, p.drop_last().len() as int) =~= p.subrange(
            i,
            p.len() - 1,
        ));
        assert(last_component(p) =~= p.subrange(i, p.len() as int));
    }
}

/// The file name a path yields, or a `Path` error naming the path when it
/// yields none (it is empty, holds only separators and `.` components, or
/// ends in `..`).
#[verifier::rlimit(30)]
pub fn get_filename(file: &str) -> (r: Result<String, BattleSearchError>)
    ensures
        file_name_of(file@).len() > 0 ==> (r matches Ok(f) && f@ == file_name_of(file@)),
        file_name_of(file@).len() == 0 ==> (r matches Err(e) && e matches BattleSearchError::Path(
            m,
        ) && m@ == "no file name in path: "@ + file@),
{
    let ghost orig = file@;
    let n = file.unicode_len();
    let mut e: usize = n;
    let mut i: usize = n;
    proof {
        assert(orig.take(n as int) =~= orig);
    }
    loop
        invariant
            file@ == orig,
            n == orig.len(),
            e <= n,
            file_name_of(orig) == file_name_of(orig.take(e as int)),
        ensures
            file@ == orig,
            n == orig.len(),
            i <= e <= n,
            file_name_of(orig) == (if orig.subrange(i as int, e as int) == dot_dot() {
                Seq::<char>::empty()
            } else {
                orig.subrange(i as int, e as int)
            }),
        decreases e,
    {
        let ghost e0 = e;
        while e > 0 && file.get_char(e - 1) == '/'
            invariant
                file@ == orig,
                n == orig.len(),
                e <= e0 <= n,
                file_name_of(orig) == file_name_of(orig.take(e as int)),
            decreases e,
        {
            proof {
                let p = orig.take(e as int);
                assert(p.last() == orig[e - 1]);
                assert(p.drop_last() =~= orig.take(e - 1));
            }
            e = e - 1;
        }
        i = e;
        while i > 0 && file.get_char(i - 1) != '/'
            invariant
                file@ == orig,
                n == orig.len(),
                i <= e <= n,
                forall|j: int| i <= j < e ==> orig[j] != '/',
            decreases i,
        {
            i = i - 1;
        }
        proof {
            let p = orig.take(e as int);
            lemma_last_component_suffix(p, i as int);
            assert(p.subrange(i as int, e as int) =~= orig.subrange(i as int, e as int));
        }
        if i == e {
            proof {
                if e > 0 {
                    let p = orig.take(e as int);
                    assert(p.last() != '/');
                    assert(last_component(p).len() > 0);
                }
                assert(orig.take(0).len() == 0);
                assert(orig.subrange(i as int, e as int) =~= Seq::<char>::empty());
            }
            break ;
        }
        if i + 1 == e && file.get_char(i) == '.' {
            // A final `.` component is skipped, like the separators before it.
            proof {
                let p = orig.take(e as int);
                assert(p.last() != '/');
                assert(p.subrange(i as int, e as int) =~= dot());
                assert(last_component(p) == dot());
                assert(p.take(p.len() - 1) =~= orig.take((e - 1) as int));
            }
            e = e - 1;
        } else {
            proof {
                let p = orig.take(e as int);
                let c = orig.subrange(i as int, e as int);
                assert(p.last() != '/');
                if c.len() == 1 {
                    assert(c[0] == orig[i as int]);
                    assert(c != dot());
                }
                assert(last_component(p) != dot());
            }
            break ;
        }
    }
    if i == e {
        let mut m = "no file name in path: ".to_owned();
        m.append(file);
        return Result::Err(BattleSearchError::Path(m));
    }
    let is_dot_dot = e >= 2 && i == e - 2 && file.get_char(i) == '.' && file.get_char(i + 1)
        == '.';
    proof {
        let c = orig.subrange(i as int, e as int);
        if is_dot_dot {
            assert(c =~= dot_dot());
        } else {
            if c.len() == 2 {
                assert(c[0] == orig[i as int] && c[1] == orig[i as int + 1]);
            }
            assert(c != dot_dot());
        }
    }
    if is_dot_dot {
        let mut m = "no file name in path: ".to_owned();
        m.append(file);
        Result::Err(BattleSearchError::Path(m))
    } else {
        let f = file.substring_char(i, e);
        Result::Ok(f.to_owned())
    }
}

fn is_null_vec(b: &Vec<u8>) -> (r: bool)
    ensures
        r == (b@ == null_bytes()),
{
    if b.len() != 4 {
        assert(b@ != null_bytes());
        return false;
    }
    let r = b[0] == 110 && b[1] == 117 && b[2] == 108 && b[3] == 108;
    proof {
        if r {
            assert(b@ =~= null_bytes());
        }
    }
    r
}

fn is_forfeit_vec(b: &Vec<u8>) -> (r: bool)
    ensures
        r == (b@ == forfeit_bytes()),
{
    if b.len() != 9 {
        assert(b@ != forfeit_bytes());
        return false;
    }
    let r = b[0] == 34 && b[1] == 102 && b[2] == 111 && b[3] == 114 && b[4] == 102 && b[5] == 101
        && b[6] == 105 && b[7] == 116 && b[8] == 34;
    proof {
        if r {
            assert(b@ =~= forfeit_bytes());
        }
    }
    r
}

/// Whether a built report carries exactly what the record's fields, the file
/// name and the context label say it should.
pub open spec fn report_matches(
    rep: MatchReport,
    p1: Seq<u8>,
    p2: Seq<u8>,
    w: Option<Seq<u8>>,
    e: Option<Seq<u8>>,
    file_name: Seq<char>,
    label: Seq<char>,
) -> bool {
    &&& rep.context_label@ == label
    &&& rep.room_name@ == room_of(file_name)
    &&& rep.player1_id@ == normalized_of_bytes(p1)
    &&& rep.player2_id@ == normalized_of_bytes(p2)
    &&& rep.outcome_description@ == outcome_of(spec_winner_id(w), spec_is_forfeit(e))
}

fn room_from_file_name(file_name: &str) -> (r: String)
    ensures
        r@ == room_of(file_name@),
{
    let n = file_name.unicode_len();
    if n < 9 {
        return file_name.to_owned();
    }
    let mut j: usize = 0;
    while j < 9 && file_name.get_char(n - 9 + j) == suffix_char(j)
        invariant
            j <= 9,
            9 <= n == file_name@.len(),
            forall|m: int| 0 <= m < j ==> file_name@[n - 9 + m] == log_json_suffix()[m],
        decreases 9 - j,
    {
        j = j + 1;
    }
    if j == 9 {
        proof {
            assert(file_name@.subrange(n - 9, n as int) =~= log_json_suffix());
        }
        let base = file_name.substring_char(0, n - 9);
        proof {
            assert(file_name@.subrange(0, (n - 9) as int) =~= file_name@.take(n - 9));
        }
        base.to_owned()
    } else {
        proof {
            let s = file_name@.subrange(n - 9, n as int);
            assert(s[j as int] == file_name@[n - 9 + j]);
            assert(s != log_json_suffix());
        }
        file_name.to_owned()
    }
}

fn suffix_char(j: usize) -> (c: char)
    requires
        j < 9,
    ensures
        c == log_json_suffix()[j as int],
{
    match j {
        0 => '.',
        1 => 'l',
        2 => 'o',
        3 => 'g',
        4 => '.',
        5 => 'j',
        6 => 's',
        7 => 'o',
        8 => 'n',
        _ => ' ',
    }
}

/// The full report line for one matching battle.
pub open spec fn report_line(
    label: Seq<char>,
    room: Seq<char>,
    p1: Seq<char>,
    p2: Seq<char>,
    outcome: Seq<char>,
) -> Seq<char> {
    "("@ + label + ") <<"@ + room + ">> "@ + p1 + " vs. "@ + p2 + " ("@ + outcome + ")"@
}

/// Serializes a report to its one output line.
pub fn format_report(rep: &MatchReport) -> (s: String)
    ensures
        s@ == report_line(
            rep.context_label@,
            rep.room_name@,
            rep.player1_id@,
            rep.player2_id@,
            rep.outcome_description@,
        ),
{
    let mut s = "(".to_owned();
    s.append(rep.context_label.as_str());
    s.append(") <<");
    s.append(rep.room_name.as_str());
    s.append(">> ");
    s.append(rep.player1_id.as_str());
    s.append(" vs. ");
    s.append(rep.player2_id.as_str());
    s.append(" (");
    s.append(rep.outcome_description.as_str());
    s.append(")");
    s
}

/// Decides whether one record is reported and, if so, builds the report.
/// Absent players are a malformed document; an absent winner is a valid,
/// reportable state that only disqualifies wins-only searches; an absent end
/// type is treated as "not a forfeit", never an error.
pub fn evaluate(
    fields: &ExtractedFields,
    opts: &SearchOptions,
    file_name: &str,
    context_label: &str,
) -> (r: Result<Option<MatchReport>, BattleSearchError>)
    ensures
        r is Err <==> (fields.p1 is None || fields.p2 is None),
        fields.p1 is None ==> (r matches Err(e) && e matches BattleSearchError::FaultyJSON(m)
            && m@ == "No p1 value"@),
        fields.p1 is Some && fields.p2 is None ==> (r matches Err(e) && e matches
            BattleSearchError::FaultyJSON(m) && m@ == "No p2 value"@),
        fields.p1 is Some && fields.p2 is Some ==> ((r matches Ok(Some(_))) <==> spec_should_report(
            fields.p1->0@,
            fields.p2->0@,
            opt_view(fields.winner),
            opt_view(fields.end_type),
            *opts,
        )),
        r matches Ok(Some(rep)) ==> report_matches(
            rep,
            fields.p1->0@,
            fields.p2->0@,
            opt_view(fields.winner),
            opt_view(fields.end_type),
            file_name@,
            context_label@,
        ),
{
    let p1id = match bytes_to_id(&fields.p1) {
        Option::Some(x) => x,
        Option::None => {
            return Result::Err(BattleSearchError::FaultyJSON("No p1 value".to_owned()));
        },
    };
    let p2id = match bytes_to_id(&fields.p2) {
        Option::Some(x) => x,
        Option::None => {
            return Result::Err(BattleSearchError::FaultyJSON("No p2 value".to_owned()));
        },
    };
    let p1_is_searched_user = p1id == opts.searched_user_id;
    let p2_is_searched_user = p2id == opts.searched_user_id;
    if !p1_is_searched_user && !p2_is_searched_user {
        return Result::Ok(Option::None);
    }
    let winner_id: Option<String> = match &fields.winner {
        Option::None => Option::None,
        Option::Some(b) => {
            if is_null_vec(b) {
                Option::None
            } else {
                match bytes_to_id(&fields.winner) {
                    Option::Some(x) => Option::Some(x),
                    Option::None => Option::None,
                }
            }
        },
    };
    let searched_user_won = match &winner_id {
        Option::Some(w) => *w == opts.searched_user_id,
        Option::None => false,
    };
    if opts.wins_only && !searched_user_won {
        return Result::Ok(Option::None);
    }
    let is_forfeit = match &fields.end_type {
        Option::Some(b) => is_forfeit_vec(b),
        Option::None => false,
    };
    if opts.forfeits_only && !is_forfeit {
        return Result::Ok(Option::None);
    }
    let outcome_description = match &winner_id {
        Option::Some(w) => {
            let mut o = w.clone();
            if is_forfeit {
                o.append(" won by forfeit");
            } else {
                o.append(" won normally");
            }
            o
        },
        Option::None => "there was no winner".to_owned(),
    };
    let room_name = room_from_file_name(file_name);
    Result::Ok(
        Option::Some(
            MatchReport {
                context_label: context_label.to_owned(),
                room_name,
                player1_id: p1id,
                player2_id: p2id,
                outcome_description,
            },
        ),
    )
}

#[verifier::external_type_specification]
#[verifier::external_body]
pub struct ExPikkr<'a>(pikkr_annika::Pikkr<'a>);

/// A single-level field query of the shape `$.field`: the two-character root
/// prefix, then a nonempty field name with no further dot, all ASCII. Such a
/// string's bytes are its characters, and they pass the extraction engine's
/// own query validation.
pub open spec fn valid_query_path(q: Seq<char>) -> bool {
    &&& q.len() >= 3
    &&& q[0] == '$'
    &&& q[1] == '.'
    &&& (forall|j: int| #![trigger q[j]] 0 <= j < q.len() ==> (q[j] as u32) < 128)
    &&& (forall|j: int| #![trigger q[j]] 2 <= j < q.len() ==> q[j] != '.')
}

/// Relies on pikkr_annika::Pikkr::new. For ASCII query strings of the
/// `$.field` shape, the engine's query validation (is_valid_query_str)
/// accepts their bytes, so the query tree is built with Ok, the parser
/// construction only allocates, and the unwrap cannot fail.
#[verifier::external_body]
fn new_parser(
    q1: &'static str,
    q2: &'static str,
    q3: &'static str,
    q4: &'static str,
    train_num: usize,
) -> pikkr_annika::Pikkr<'static>
    requires
        valid_query_path(q1@),
        valid_query_path(q2@),
        valid_query_path(q3@),
        valid_query_path(q4@),
{
    pikkr_annika::Pikkr::new(&vec![q1, q2, q3, q4], train_num).unwrap()
}

/// Relies on pikkr_annika::Pikkr::parse: picks, for each query path the
/// parser was built with, the raw bytes of that top-level field out of one
/// JSON record, or an absent marker. An empty record is always rejected;
/// other malformed records may be rejected too. Nothing is assumed about
/// which field values come back.
#[verifier::external_body]
fn parse_fields(parser: &mut pikkr_annika::Pikkr<'static>, data: &[u8]) -> (r: Result<
    Vec<Option<Vec<u8>>>,
    String,
>)
    ensures
        data@.len() == 0 ==> r is Err,
{
    match parser.parse(data) {
        Ok(v) => Ok(v.into_iter().map(|o| o.map(|b| b.to_vec())).collect()),
        Err(e) => Err(format!("{}", e)),
    }
}

/// Relies on std::io::stdout and the writeln macro: writes the line, followed
/// by a newline, to standard output as one write.
#[verifier::external_body]
pub fn print_line(line: &str) {
    let _ = writeln!(std::io::stdout(), "{}", line);
}

/// Relies on std::io::stderr and the writeln macro: writes one diagnostic
/// line to the error stream, apart from the report output.
#[verifier::external_body]
pub fn log_line(line: &str) {
    let _ = writeln!(std::io::stderr(), "{}", line);
}

/// Decides what one extraction result yields: a report, nothing, or a
/// malformed-document error. Takes whatever the extraction engine returned;
/// the decision is exact for every such value. Printing is the caller's.
pub fn check_extracted(json: Vec<Option<Vec<u8>>>, opts: &SearchOptions, path: &str, date: &str) -> (r:
    Result<Option<MatchReport>, BattleSearchError>)
    ensures
        r matches Err(e) ==> e matches BattleSearchError::FaultyJSON(_),
        json@.len() != 4 ==> (r matches Err(e) && e matches BattleSearchError::FaultyJSON(m)
            && m@ == "unexpected number of extracted fields"@),
        json@.len() == 4 ==> {
            &&& (r is Err <==> (json@[0] is None || json@[1] is None))
            &&& (json@[0] is Some && json@[1] is Some ==> ((r matches Ok(Some(_)))
                <==> spec_should_report(json@[0]->0@, json@[1]->0@, opt_view(json@[2]), opt_view(json@[3]), *opts)))
            &&& (r matches Ok(Some(rep)) ==> report_matches(
                rep,
                json@[0]->0@,
                json@[1]->0@,
                opt_view(json@[2]),
                opt_view(json@[3]),
                display_file_name(path@),
                date@,
            ))
        },
{
    let mut json = json;
    if json.len() != 4 {
        return Result::Err(
            BattleSearchError::FaultyJSON("unexpected number of extracted fields".to_owned()),
        );
    }
    let end_type = json.pop().unwrap();
    let winner = json.pop().unwrap();
    let p2 = json.pop().unwrap();
    let p1 = json.pop().unwrap();
    let fields = ExtractedFields { p1, p2, winner, end_type };
    let file_name = match get_filename(path) {
        Result::Ok(f) => f,
        Result::Err(_) => "unknown file".to_owned(),
    };
    proof {
        assert(file_name@ == display_file_name(path@));
    }
    evaluate(&fields, opts, file_name.as_str(), date)
}

/// The per-worker searcher: the search options together with this worker's
/// exclusively-owned field-extraction engine.
pub struct BattleSearcher {
    user_id: String,
    json_parser: pikkr_annika::Pikkr<'static>,
    wins_only: bool,
    forfeits_only: bool,
}

impl BattleSearcher {
    /// The searcher's invariant: its searched id is a normalized key.
    pub closed spec fn wf(&self) -> bool {
        normalized_of(self.user_id@) == self.user_id@
    }

    /// The searched player's normalized id.
    pub closed spec fn spec_user_id(&self) -> Seq<char> {
        self.user_id@
    }

    /// Whether only won matches are reported.
    pub closed spec fn spec_wins_only(&self) -> bool {
        self.wins_only
    }

    /// Whether only forfeited matches are reported.
    pub closed spec fn spec_forfeits_only(&self) -> bool {
        self.forfeits_only
    }

    /// The options this searcher evaluates every record with.
    pub closed spec fn spec_options(&self) -> SearchOptions {
        SearchOptions {
            searched_user_id: self.user_id,
            wins_only: self.wins_only,
            forfeits_only: self.forfeits_only,
        }
    }

    /// Builds a searcher for one worker: normalizes the searched username
    /// and builds this worker's own extraction engine, set to adapt after
    /// the given number of training rounds.
    pub fn new(
        username: &str,
        pikkr_training_rounds: usize,
        wins_only: bool,
        forfeits_only: bool,
    ) -> (r: Self)
        ensures
            r.wf(),
            r.spec_user_id() == normalized_of(username@),
            r.spec_wins_only() == wins_only,
            r.spec_forfeits_only() == forfeits_only,
            r.spec_options().searched_user_id@ == normalized_of(username@),
            r.spec_options().wins_only == wins_only,
            r.spec_options().forfeits_only == forfeits_only,
            r.spec_options().wf(),
    {
        let user_id = str_to_id(username);
        proof {
            lemma_normalize_idempotent(username@);
            reveal_strlit("$.p1");
            reveal_strlit("$.p2");
            reveal_strlit("$.winner");
            reveal_strlit("$.endType");
        }
        let json_parser = new_parser("$.p1", "$.p2", "$.winner", "$.endType", pikkr_training_rounds);
        BattleSearcher { user_id, json_parser, wins_only, forfeits_only }
    }

    /// Examines one record's bytes: extracts the four fields, evaluates
    /// them, and prints the report line when one is produced. Returns the
    /// report too, or the per-file error. The decision on the extracted
    /// values is exact (see `check_extracted`); of extraction itself only
    /// what its wrapper states is known.
    pub fn check_log(&mut self, data: &[u8], path: &str, date: &str) -> (r: Result<
        Option<MatchReport>,
        BattleSearchError,
    >)
        requires
            old(self).wf(),
        ensures
            final(self).wf(),
            final(self).spec_user_id() == old(self).spec_user_id(),
            final(self).spec_wins_only() == old(self).spec_wins_only(),
            final(self).spec_forfeits_only() == old(self).spec_forfeits_only(),
            final(self).spec_options() == old(self).spec_options(),
            data@.len() == 0 ==> r is Err,
            r matches Err(e) ==> e matches BattleSearchError::FaultyJSON(_),
            r matches Ok(Some(rep)) ==> rep.context_label@ == date@ && rep.room_name@ == room_of(
                display_file_name(path@),
            ),
            r matches Ok(Some(rep)) ==> (exists|p1: Seq<u8>, p2: Seq<u8>, w: Option<Seq<u8>>, et: Option<Seq<u8>>|
                {
                    &&& #[trigger] spec_should_report(p1, p2, w, et, old(self).spec_options())
                    &&& report_matches(rep, p1, p2, w, et, display_file_name(path@), date@)
                }),
    {
        let parsed = parse_fields(&mut self.json_parser, data);
        match parsed {
            Result::Err(m) => Result::Err(BattleSearchError::FaultyJSON(m)),
            Result::Ok(json) => {
                let ghost jv = json@;
                let opts = SearchOptions {
                    searched_user_id: self.user_id.clone(),
                    wins_only: self.wins_only,
                    forfeits_only: self.forfeits_only,
                };
                proof {
                    assert(opts == old(self).spec_options());
                }
                let r = check_extracted(json, &opts, path, date);
                if let Result::Ok(Option::Some(rep)) = &r {
                    let line = format_report(rep);
                    print_line(line.as_str());
                    proof {
                        assert(spec_should_report(
                            jv[0]->0@,
                            jv[1]->0@,
                            opt_view(jv[2]),
                            opt_view(jv[3]),
                            old(self).spec_options(),
                        ));
                        assert(report_matches(
                            *rep,
                            jv[0]->0@,
                            jv[1]->0@,
                            opt_view(jv[2]),
                            opt_view(jv[3]),
                            display_file_name(path@),
                            date@,
                        ));
                    }
                }
                r
            },
        }
    }
}

} // verus!
