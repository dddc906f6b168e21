use socha::incoming::{
    Field, ReceivedAggregation, ReceivedBoard, ReceivedComMessage, ReceivedData,
    ReceivedDefinition, ReceivedEntry, ReceivedFragment, ReceivedPartScore, ReceivedPlayer,
    ReceivedRelevantForRanking, ReceivedRoom, ReceivedScore, ReceivedScores, ReceivedState,
    ReceivedWinner, ReicevedRow,
};
use socha::internal::{AggregationTypes, GameResult, RoomMessage, Row, ScoreTypes, Scores};
use socha::neutral::{PiranhaField, Size, Team};

fn s(v: &str) -> String {
    v.to_string()
}

fn fragment(name: &str, agg: &str, rel: &str) -> ReceivedFragment {
    ReceivedFragment {
        frag_name: Some(s(name)),
        aggregation: Some(ReceivedAggregation { agr_content: s(agg) }),
        relevant_for_ranking: Some(ReceivedRelevantForRanking { rfr_content: s(rel) }),
    }
}

fn entry(team: &str, parts: &[&str]) -> ReceivedEntry {
    ReceivedEntry {
        player: ReceivedPlayer { team: Some(s(team)) },
        score: Some(ReceivedScore {
            parts: parts
                .iter()
                .map(|p| ReceivedPartScore { part_content: s(p) })
                .collect(),
        }),
    }
}

fn result_data(entries: Vec<ReceivedEntry>) -> ReceivedData {
    ReceivedData {
        class: Some(s("result")),
        definition: Some(ReceivedDefinition {
            fragments: vec![
                fragment("Siegpunkte", "SUM", "true"),
                fragment("Schwarmgröße", "AVERAGE", "true"),
            ],
        }),
        scores: Some(ReceivedScores { entries }),
        winner: Some(ReceivedWinner {
            team: Some(s("TWO")),
            regular: Some(s("false")),
            reason: Some(s(
                "ONE hat innerhalb von 2 Sekunden nach Aufforderung keinen Zug gesendet.",
            )),
        }),
        state: None,
    }
}

fn board_of(rows: [[&str; 10]; 10]) -> ReceivedBoard {
    ReceivedBoard {
        rows: rows
            .iter()
            .map(|r| ReicevedRow {
                fields: r.iter().map(|t| Field { raw: s(t) }).collect(),
            })
            .collect(),
    }
}

#[test]
fn test_parse_scores() {
    let data = result_data(vec![entry("ONE", &["0", "0"]), entry("TWO", &["2", "17"])]);
    let res = GameResult::try_from(data).unwrap();
    assert_eq!(
        res.player2_result,
        vec![
            Scores {
                score_type: ScoreTypes::Siegpunkte,
                value: 2,
                aggregation_type: AggregationTypes::Sum,
                relevant_for_ranking: true,
            },
            Scores {
                score_type: ScoreTypes::Schwarmgroesse,
                value: 17,
                aggregation_type: AggregationTypes::Average,
                relevant_for_ranking: true,
            },
        ]
    );
    assert_eq!(res.player1_result[0].value, 0);
    assert_eq!(res.player1_result[1].score_type, ScoreTypes::Schwarmgroesse);
    let winner = res.winner.unwrap();
    assert_eq!(winner.team, Team::Two);
    assert!(!winner.regular);
}

#[test]
fn result_with_mismatched_part_count_is_rejected() {
    let data = result_data(vec![entry("ONE", &["0", "0"]), entry("TWO", &["2"])]);
    assert!(GameResult::try_from(data).is_err());
}

#[test]
fn result_with_bad_part_or_unknown_kind_is_rejected() {
    let data = result_data(vec![entry("ONE", &["0", "x"]), entry("TWO", &["2", "3"])]);
    assert!(GameResult::try_from(data).is_err());
    let mut data = result_data(vec![]);
    data.definition = Some(ReceivedDefinition {
        fragments: vec![fragment("Punkte", "SUM", "true")],
    });
    assert!(GameResult::try_from(data).is_err());
    let mut data = result_data(vec![]);
    data.scores = None;
    assert!(GameResult::try_from(data).is_err());
}

#[test]
fn result_room_message_is_decoded() {
    let room = ReceivedRoom {
        room_id: Some(s("r")),
        data: Some(result_data(vec![entry("ONE", &["1", "2"]), entry("TWO", &["3", "4"])])),
    };
    match RoomMessage::try_from(room).unwrap() {
        RoomMessage::Result(r) => {
            assert_eq!(r.player1_result[1].value, 2);
            assert_eq!(r.player2_result[0].value, 3);
        }
        _ => panic!("expected result"),
    }
}

#[test]
fn test_parse_game_state() {
    let board = board_of([
        ["EMPTY", "TWO_M", "TWO_S", "TWO_L", "TWO_S", "TWO_L", "TWO_L", "TWO_M", "TWO_S", "EMPTY"],
        ["ONE_M", "EMPTY", "EMPTY", "EMPTY", "EMPTY", "EMPTY", "EMPTY", "EMPTY", "EMPTY", "ONE_S"],
        ["ONE_S", "EMPTY", "EMPTY", "EMPTY", "EMPTY", "EMPTY", "SQUID", "EMPTY", "EMPTY", "ONE_S"],
        ["ONE_L", "EMPTY", "EMPTY", "EMPTY", "EMPTY", "EMPTY", "EMPTY", "EMPTY", "EMPTY", "ONE_L"],
        ["ONE_S", "EMPTY", "EMPTY", "EMPTY", "EMPTY", "EMPTY", "EMPTY", "EMPTY", "EMPTY", "ONE_M"],
        ["ONE_L", "EMPTY", "EMPTY", "EMPTY", "EMPTY", "EMPTY", "EMPTY", "EMPTY", "EMPTY", "ONE_M"],
        ["ONE_L", "EMPTY", "EMPTY", "SQUID", "EMPTY", "EMPTY", "EMPTY", "EMPTY", "EMPTY", "ONE_S"],
        ["ONE_M", "EMPTY", "EMPTY", "EMPTY", "EMPTY", "EMPTY", "EMPTY", "EMPTY", "EMPTY", "ONE_S"],
        ["ONE_S", "EMPTY", "EMPTY", "EMPTY", "EMPTY", "EMPTY", "EMPTY", "EMPTY", "EMPTY", "ONE_L"],
        ["EMPTY", "TWO_S", "TWO_S", "TWO_L", "TWO_M", "TWO_M", "TWO_S", "TWO_S", "TWO_L", "EMPTY"],
    ]);
    let received_com_message = ReceivedComMessage {
        left: None,
        joined: None,
        room: vec![ReceivedRoom {
            room_id: Some(s("b5f43e86-df4e-4221-b83d-337497950ac1")),
            data: Some(ReceivedData {
                class: Some(s("memento")),
                definition: None,
                scores: None,
                winner: None,
                state: Some(ReceivedState {
                    class: Some(s("state")),
                    start_team: Some(s("ONE")),
                    turn: Some(0),
                    last_move: None,
                    board: Some(board),
                }),
            }),
        }],
        admin_prepared: None,
    };
    println!("{:?}", received_com_message);
    for room in received_com_message.room {
        let room = RoomMessage::try_from(room).unwrap();
        match room {
            RoomMessage::Memento(state) => {
                assert_eq!(state.turn, 0);
                assert_eq!(state.class, Some("state".to_string()));
                assert_eq!(state.start_team, Team::One);

                assert_eq!(state.board.rows.len(), 10);
                assert_eq!(state.board.rows[0].fields.len(), 10);
                let two = |size| PiranhaField::Fish { team: Team::Two, size };
                let one = |size| PiranhaField::Fish { team: Team::One, size };
                assert_eq!(
                    state.board.rows[0],
                    Row {
                        fields: [
                            PiranhaField::Empty,
                            two(Size::M),
                            two(Size::S),
                            two(Size::L),
                            two(Size::S),
                            two(Size::L),
                            two(Size::L),
                            two(Size::M),
                            two(Size::S),
                            PiranhaField::Empty
                        ]
                    },
                );
                assert_eq!(
                    state.board.rows[1],
                    Row {
                        fields: [
                            one(Size::M),
                            PiranhaField::Empty,
                            PiranhaField::Empty,
                            PiranhaField::Empty,
                            PiranhaField::Empty,
                            PiranhaField::Empty,
                            PiranhaField::Empty,
                            PiranhaField::Empty,
                            PiranhaField::Empty,
                            one(Size::S),
                        ]
                    },
                );
                assert_eq!(
                    state.board.rows[6],
                    Row {
                        fields: [
                            one(Size::L),
                            PiranhaField::Empty,
                            PiranhaField::Empty,
                            PiranhaField::Squid,
                            PiranhaField::Empty,
                            PiranhaField::Empty,
                            PiranhaField::Empty,
                            PiranhaField::Empty,
                            PiranhaField::Empty,
                            one(Size::S),
                        ]
                    },
                );
                assert_eq!(
                    state.board.rows[9],
                    Row {
                        fields: [
                            PiranhaField::Empty,
                            two(Size::S),
                            two(Size::S),
                            two(Size::L),
                            two(Size::M),
                            two(Size::M),
                            two(Size::S),
                            two(Size::S),
                            two(Size::L),
                            PiranhaField::Empty,
                        ]
                    },
                );

                println!("turn: {}", state.turn);
                println!("class: {:?}", state.class);
                println!("start_team: {:?}", state.start_team);
            }
            _ => panic!("expected memento"),
        }
    }
}

#[test]
fn state_errors_are_reported() {
    let rows = [["EMPTY"; 10]; 10];
    let state = |turn: Option<u32>, team: &str, board: ReceivedBoard| ReceivedState {
        class: Some(s("state")),
        start_team: Some(s(team)),
        turn,
        last_move: None,
        board: Some(board),
    };
    assert!(socha::internal::GameState::try_from(state(None, "ONE", board_of(rows))).is_err());
    assert!(socha::internal::GameState::try_from(state(Some(1), "THREE", board_of(rows))).is_err());
    let mut short = board_of(rows);
    short.rows.pop();
    assert!(socha::internal::GameState::try_from(state(Some(1), "ONE", short)).is_err());
    let mut bad = rows;
    bad[4][7] = "ONE_XL";
    assert!(socha::internal::GameState::try_from(state(Some(1), "ONE", board_of(bad))).is_err());
    let mut padded = rows;
    padded[2][3] = "  TWO_L\n";
    let g = socha::internal::GameState::try_from(state(Some(3), "TWO", board_of(padded))).unwrap();
    assert_eq!(
        *g.board.get(3, 2),
        PiranhaField::Fish { team: Team::Two, size: Size::L }
    );
    assert_eq!(g.current_team(), Team::One);
}

#[test]
fn room_message_classes() {
    let room = |class: Option<&str>| ReceivedRoom {
        room_id: Some(s("r")),
        data: Some(ReceivedData {
            class: class.map(s),
            definition: None,
            scores: None,
            winner: None,
            state: None,
        }),
    };
    assert_eq!(RoomMessage::try_from(room(Some("welcomeMessage"))), Ok(RoomMessage::WelcomeMessage));
    assert_eq!(RoomMessage::try_from(room(Some("moveRequest"))), Ok(RoomMessage::MoveRequest));
    assert!(RoomMessage::try_from(room(Some("memento"))).is_err());
    assert!(RoomMessage::try_from(room(Some("sandwich"))).is_err());
    assert!(RoomMessage::try_from(room(None)).is_err());
    assert!(RoomMessage::try_from(ReceivedRoom { room_id: None, data: None }).is_err());
}
