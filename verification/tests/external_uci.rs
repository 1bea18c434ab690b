use engine::external_uci::parse::{is_parsable, parse_uci, OptionType, UciMessage, UciParseError};
use engine::utils::text::{chars_of, parse_isize_chars, parse_u64_chars, split_tokens, trim_chars};
use engine::external_uci::{UciEvaluation, UciState, UciStateEnum};
use engine::uci::{go_options, position_command};

fn s(x: &str) -> String {
    String::from(x)
}

fn chars(x: &str) -> Vec<char> {
    x.chars().collect()
}

#[test]
fn test_parse_simple_replies() {
    assert_eq!(parse_uci(s("uciok")).unwrap(), UciMessage::UciOk);
    assert_eq!(parse_uci(s("  readyok \n")).unwrap(), UciMessage::ReadyOk);
    assert_eq!(parse_uci(s("bestmove e2e4 ponder e7e5")).unwrap(), UciMessage::FinishedThinkingSignal);
    assert_eq!(parse_uci(s("Nodes searched: 20")).unwrap(), UciMessage::FinishedThinkingSignal);
    assert_eq!(parse_uci(s("hello")).unwrap_err(), UciParseError::PerftError);
    assert_eq!(parse_uci(s("xyzzy")).unwrap_err(), UciParseError::ParseError);
    assert_eq!(parse_uci(s("")).unwrap_err(), UciParseError::ParseError);
    assert_eq!(parse_uci(s("   ")).unwrap_err(), UciParseError::ParseError);
}

#[test]
fn test_parse_info_line() {
    let msg = parse_uci(s("info depth 5 seldepth 7 multipv 1 score cp 13 nodes 100 time 4 pv e2e4 e7e5")).unwrap();
    assert_eq!(
        msg,
        UciMessage::Info {
            cp: Some(13),
            mate: None,
            depth: Some(5),
            seldepth: Some(7),
            nodes: Some(100),
            time: Some(4),
            multipv: Some(1),
            pv: Some(vec![s("e2e4"), s("e7e5")]),
        }
    );
    let msg = parse_uci(s("info score mate -3 depth")).unwrap();
    assert_eq!(
        msg,
        UciMessage::Info {
            cp: None,
            mate: Some(-3),
            depth: Some(0),
            seldepth: None,
            nodes: None,
            time: None,
            multipv: None,
            pv: None,
        }
    );
    let msg = parse_uci(s("info cp x12 pv")).unwrap();
    assert_eq!(
        msg,
        UciMessage::Info {
            cp: None,
            mate: None,
            depth: None,
            seldepth: None,
            nodes: None,
            time: None,
            multipv: None,
            pv: Some(vec![]),
        }
    );
}

#[test]
fn test_parse_option_lines() {
    assert_eq!(
        parse_uci(s("option name Hash type spin default 16 min 1 max 33554432")).unwrap(),
        UciMessage::Option { name: s("Hash"), opt_type: OptionType::Spin { default: 16, min: 1, max: 33554432 } }
    );
    assert_eq!(
        parse_uci(s("option name Ponder type check default false")).unwrap(),
        UciMessage::Option { name: s("Ponder"), opt_type: OptionType::Check { default: false } }
    );
    assert_eq!(
        parse_uci(s("option name Style type combo default Normal var Solid var Normal var Risky")).unwrap(),
        UciMessage::Option {
            name: s("Style"),
            opt_type: OptionType::Combo { default: s("Normal"), options: vec![s("Solid"), s("Normal"), s("Risky")] }
        }
    );
    assert_eq!(
        parse_uci(s("option name Clear type button")).unwrap(),
        UciMessage::Option { name: s("Clear"), opt_type: OptionType::Button }
    );
    assert_eq!(
        parse_uci(s("option name Path type string default <empty>")).unwrap(),
        UciMessage::Option { name: s("Path"), opt_type: OptionType::String { default: s("<empty>") } }
    );
    assert_eq!(parse_uci(s("option name Odd type weird")).unwrap_err(), UciParseError::ParseError);
}

#[test]
fn test_incomplete_option_lines() {
    assert!(!is_parsable(&s("option name Hash type spin default 16 min 1")));
    assert!(!is_parsable(&s("option type button")));
    assert!(!is_parsable(&s("option name Ponder type check default maybe")));
    assert!(!is_parsable(&s("option name Style type combo default A var")));
    assert!(is_parsable(&s("option name Hash type spin default 16 min 1 max 2")));
    assert!(is_parsable(&s("option name Odd type weird")));
    assert!(is_parsable(&s("info depth 1")));
}

#[test]
fn test_parse_perft_lines() {
    assert_eq!(parse_uci(s("e2e4: 20")).unwrap(), UciMessage::Perft { m: s("e2e4"), nodes: 20 });
    assert_eq!(parse_uci(s("  a2a3:+380:x")).unwrap(), UciMessage::Perft { m: s("a2a3"), nodes: 380 });
    assert_eq!(parse_uci(s("e2e4 20")).unwrap_err(), UciParseError::PerftError);
    assert_eq!(parse_uci(s("e2e4: -20")).unwrap_err(), UciParseError::PerftError);
    assert_eq!(parse_uci(s("h7h8q: 18446744073709551616")).unwrap_err(), UciParseError::PerftError);
    assert_eq!(
        parse_uci(s("h7h8q: 18446744073709551615")).unwrap(),
        UciMessage::Perft { m: s("h7h8q"), nodes: 18446744073709551615 }
    );
}

#[test]
fn test_text_helpers() {
    assert_eq!(chars_of(&s("a\u{3000}b")), vec!['a', '\u{3000}', 'b']);
    assert_eq!(split_tokens(&chars(" ab \t c\u{a0}d ")), vec![chars("ab"), chars("c"), chars("d")]);
    assert_eq!(trim_chars(&chars("\n x y \u{2003}")), chars("x y"));
    assert_eq!(parse_isize_chars(&chars("-0")), Some(0));
    assert_eq!(parse_isize_chars(&chars("+17")), Some(17));
    assert_eq!(parse_isize_chars(&chars("-")), None);
    assert_eq!(parse_isize_chars(&chars("1 2")), None);
    assert_eq!(parse_isize_chars(&chars("-9223372036854775808")), Some(isize::MIN));
    assert_eq!(parse_isize_chars(&chars("9223372036854775808")), None);
    assert_eq!(parse_u64_chars(&chars("+")), None);
    assert_eq!(parse_u64_chars(&chars("007")), Some(7));
}

#[test]
fn test_state_follows_messages() {
    let mut st = UciState::new();
    assert_eq!(st.state, UciStateEnum::Uninitialized);
    assert!(!st.process_message(parse_uci(s("uciok")).unwrap()));
    assert_eq!(st.state, UciStateEnum::Initialized);
    st.process_message(parse_uci(s("option name Hash type spin default 16 min 1 max 64")).unwrap());
    assert_eq!(st.options.len(), 1);
    assert_eq!(st.options[0].name, s("Hash"));
    assert!(!st.process_message(parse_uci(s("readyok")).unwrap()));
    assert_eq!(st.state, UciStateEnum::Ready);
    st.state = UciStateEnum::Thinking;
    st.process_message(parse_uci(s("info depth 3 score cp 20 pv e2e4")).unwrap());
    st.process_message(parse_uci(s("info nodes 500")).unwrap());
    let ev = st.evaluation.clone().unwrap();
    assert_eq!(
        ev,
        UciEvaluation { score: 20, mate: 0, depth: 3, nodes: 500, seldepth: 0, multipv: 0, pv: vec![s("e2e4")], time: 0 }
    );
    st.process_message(parse_uci(s("e2e4: 20")).unwrap());
    assert_eq!(st.perfts.len(), 1);
    assert_eq!(st.perfts[0].nodes, 20);
    assert!(st.process_message(parse_uci(s("bestmove e2e4")).unwrap()));
    assert_eq!(st.state, UciStateEnum::Ready);
    assert_eq!(UciEvaluation::default().pv.len(), 0);
}

#[test]
fn test_position_command() {
    let pc = position_command(&s("position startpos moves e2e4 e7e5")).unwrap();
    assert_eq!(pc.fen, None);
    assert_eq!(pc.moves, vec![s("e2e4"), s("e7e5")]);
    let pc = position_command(&s("position fen rnbqkbnr/pppppppp/8/8/4P3/8/PPPP1PPP/RNBQKBNR  b KQkq e3 0 1 moves e7e5")).unwrap();
    assert_eq!(pc.fen, Some(s("rnbqkbnr/pppppppp/8/8/4P3/8/PPPP1PPP/RNBQKBNR b KQkq e3 0 1")));
    assert_eq!(pc.moves, vec![s("e7e5")]);
    let pc = position_command(&s("position fen 8/8/8/8/8/8/8/K6k w - - 0 1")).unwrap();
    assert_eq!(pc.moves.len(), 0);
    assert!(position_command(&s("position fen 8/8 w")).is_none());
    assert!(position_command(&s("position")).is_none());
}

#[test]
fn test_go_options() {
    let o = go_options(&s("go movetime 500")).unwrap();
    assert_eq!((o.movetime, o.depth), (Some(500), None));
    let o = go_options(&s("go depth 6")).unwrap();
    assert_eq!((o.movetime, o.depth), (None, Some(6)));
    let o = go_options(&s("go infinite")).unwrap();
    assert_eq!((o.movetime, o.depth), (None, None));
    assert!(go_options(&s("go depth x")).is_none());
    assert!(go_options(&s("go movetime")).is_none());
    assert!(go_options(&s("go depth 70000")).is_none());
    let o = go_options(&s("go movetime 4294967295 depth 3")).unwrap();
    assert_eq!((o.movetime, o.depth), (Some(4294967295), None));
}
