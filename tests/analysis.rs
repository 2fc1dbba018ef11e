use uci_analysis::analysis::{AnalysisInfo, ParsingState, Score};

const FULL: &str =
    "info depth 12 seldepth 18 multipv 1 score cp 34 nodes 100000 nps 50000 time 2000 pv e2e4 e7e5";

fn same(a: &AnalysisInfo, b: &AnalysisInfo) -> bool {
    a.bestmove() == b.bestmove()
        && a.ponder() == b.ponder()
        && a.pv() == b.pv()
        && a.multipv == b.multipv
        && a.depth == b.depth
        && a.seldepth == b.seldepth
        && a.tbhits == b.tbhits
        && a.nodes == b.nodes
        && a.time == b.time
        && a.nps == b.nps
        && a.score == b.score
}

#[test]
fn new_record_is_empty() {
    let info = AnalysisInfo::new();
    assert_eq!(info.bestmove(), None);
    assert_eq!(info.ponder(), None);
    assert_eq!(info.pv(), None);
    assert_eq!(info.multipv, 0);
    assert_eq!(info.depth, 0);
    assert_eq!(info.seldepth, 0);
    assert_eq!(info.tbhits, 0);
    assert_eq!(info.nodes, 0);
    assert_eq!(info.time, 0);
    assert_eq!(info.nps, 0);
    assert_eq!(info.score, Score::Cp(0));
}

#[test]
fn decoding_is_deterministic() {
    let mut a = AnalysisInfo::new();
    let mut b = AnalysisInfo::new();
    a.parse(FULL);
    b.parse(FULL);
    assert!(same(&a, &b));
    let mut c = AnalysisInfo::new();
    let mut d = AnalysisInfo::new();
    c.parse("info depth 20 score mate 3 pv g1f3");
    d.parse("info depth 20 score mate 3 pv g1f3");
    assert!(same(&c, &d));
}

#[test]
fn non_info_line_changes_nothing() {
    let mut info = AnalysisInfo::new();
    info.parse(FULL);
    let before = info;
    info.parse("bestmove e2e4");
    assert!(same(&info, &before));
    assert_eq!(info.bestmove(), Some("e2e4".to_string()));
    assert_eq!(info.depth, 12);
}

#[test]
fn info_string_line_changes_nothing() {
    let mut info = AnalysisInfo::new();
    info.parse(FULL);
    let before = info;
    info.parse("info string NNUE evaluation using nn-abc.nnue depth 30 pv a2a3");
    assert!(same(&info, &before));
    assert_eq!(info.depth, 12);
    assert_eq!(info.pv(), Some("e2e4 e7e5".to_string()));
}

#[test]
fn full_line_decodes_every_field() {
    let mut info = AnalysisInfo::new();
    info.parse(FULL);
    assert_eq!(info.depth, 12);
    assert_eq!(info.seldepth, 18);
    assert_eq!(info.multipv, 1);
    assert_eq!(info.score, Score::Cp(34));
    assert_eq!(info.nodes, 100000);
    assert_eq!(info.nps, 50000);
    assert_eq!(info.time, 2000);
    assert_eq!(info.bestmove(), Some("e2e4".to_string()));
    assert_eq!(info.ponder(), Some("e7e5".to_string()));
    assert_eq!(info.pv(), Some("e2e4 e7e5".to_string()));
}

#[test]
fn mate_score_with_single_move() {
    let mut info = AnalysisInfo::new();
    info.parse("info depth 20 score mate 3 pv g1f3");
    assert_eq!(info.depth, 20);
    assert_eq!(info.score, Score::Mate(3));
    assert_eq!(info.bestmove(), Some("g1f3".to_string()));
    assert_eq!(info.ponder(), None);
    assert_eq!(info.pv(), Some("g1f3".to_string()));
}

#[test]
fn bad_number_keeps_field_and_goes_on() {
    let mut info = AnalysisInfo::new();
    info.depth = 7;
    info.parse("info depth notanumber nodes 500");
    assert_eq!(info.depth, 7);
    assert_eq!(info.nodes, 500);
}

#[test]
fn unknown_key_is_skipped_with_its_value() {
    let mut info = AnalysisInfo::new();
    info.parse("info hashfull 800 depth 5");
    assert_eq!(info.depth, 5);
    assert_eq!(info.nodes, 0);
}

#[test]
fn bad_score_kind_stops_decoding() {
    let mut info = AnalysisInfo::new();
    info.parse(FULL);
    info.parse("info depth 3 score upperbound 5 nodes 9 pv a2a3");
    assert_eq!(info.depth, 3);
    assert_eq!(info.nodes, 100000);
    assert_eq!(info.score, Score::Cp(34));
    assert_eq!(info.bestmove(), Some("e2e4".to_string()));
    assert_eq!(info.pv(), Some("e2e4 e7e5".to_string()));
}

#[test]
fn string_in_key_position_stops_decoding() {
    let mut info = AnalysisInfo::new();
    info.parse("info depth 9 string nodes 77");
    assert_eq!(info.depth, 9);
    assert_eq!(info.nodes, 0);
}

#[test]
fn long_variation_is_cut_to_capacity() {
    let mut info = AnalysisInfo::new();
    info.parse("info depth 4 pv e2e4 e7e5 g1f3 b8c6");
    assert_eq!(info.bestmove(), Some("e2e4".to_string()));
    assert_eq!(info.ponder(), Some("e7e5".to_string()));
    assert_eq!(info.pv(), Some("e2e4 e7e5 ".to_string()));
}

#[test]
fn keys_after_pv_are_moves() {
    let mut info = AnalysisInfo::new();
    info.parse("info pv e2e4 e7e5 multipv 3");
    assert_eq!(info.multipv, 0);
    assert_eq!(info.pv(), Some("e2e4 e7e5 ".to_string()));
}

#[test]
fn long_move_is_cut_to_capacity() {
    let mut info = AnalysisInfo::new();
    info.parse("info pv e7e8qx a1a2");
    assert_eq!(info.bestmove(), Some("e7e8q".to_string()));
    assert_eq!(info.ponder(), Some("a1a2".to_string()));
    assert_eq!(info.pv(), Some("e7e8qx a1a".to_string()));
}

#[test]
fn line_without_pv_clears_stored_pv() {
    let mut info = AnalysisInfo::new();
    info.parse(FULL);
    info.parse("info depth 13");
    assert_eq!(info.depth, 13);
    assert_eq!(info.pv(), None);
    assert_eq!(info.bestmove(), Some("e2e4".to_string()));
    assert_eq!(info.ponder(), Some("e7e5".to_string()));
}

#[test]
fn pv_as_last_token_reads_no_ponder() {
    let mut info = AnalysisInfo::new();
    info.parse("info depth 2 pv");
    assert_eq!(info.depth, 2);
    assert_eq!(info.bestmove(), None);
    assert_eq!(info.pv(), None);
}

#[test]
fn double_space_makes_an_empty_token() {
    let mut info = AnalysisInfo::new();
    info.parse("info  depth 5 nodes 6");
    assert_eq!(info.depth, 0);
    assert_eq!(info.nodes, 0);
    info.parse("info  x depth 5");
    assert_eq!(info.depth, 5);
}

#[test]
fn numbers_at_the_edges_of_their_range() {
    let mut info = AnalysisInfo::new();
    info.parse("info score cp -2147483648 nodes 18446744073709551615 tbhits +12");
    assert_eq!(info.score, Score::Cp(-2147483648));
    assert_eq!(info.nodes, u64::MAX);
    assert_eq!(info.tbhits, 12);
    info.parse("info score cp 2147483648 nodes 18446744073709551616 tbhits -1");
    assert_eq!(info.score, Score::Cp(-2147483648));
    assert_eq!(info.nodes, u64::MAX);
    assert_eq!(info.tbhits, 12);
    info.parse("info score mate -4 nps 0012");
    assert_eq!(info.score, Score::Mate(-4));
    assert_eq!(info.nps, 12);
}

#[test]
fn empty_line_is_rejected() {
    let mut info = AnalysisInfo::new();
    info.parse(FULL);
    let before = info;
    info.parse("");
    assert!(same(&info, &before));
}

#[test]
fn advance_walks_the_states() {
    let mut info = AnalysisInfo::new();
    let mut pv: Vec<u8> = Vec::new();
    assert_eq!(info.advance(ParsingState::Info, &mut pv, b"info"), Some(ParsingState::Key));
    assert_eq!(info.advance(ParsingState::Info, &mut pv, b"id"), None);
    assert_eq!(info.advance(ParsingState::Key, &mut pv, b"depth"), Some(ParsingState::Depth));
    assert_eq!(info.advance(ParsingState::Key, &mut pv, b"hashfull"), Some(ParsingState::Unknown));
    assert_eq!(info.advance(ParsingState::Key, &mut pv, b"string"), None);
    assert_eq!(info.advance(ParsingState::Depth, &mut pv, b"8"), Some(ParsingState::Key));
    assert_eq!(info.depth, 8);
    assert_eq!(info.advance(ParsingState::Score, &mut pv, b"mate"), Some(ParsingState::ScoreMate));
    assert_eq!(info.advance(ParsingState::Score, &mut pv, b"lowerbound"), None);
    assert_eq!(
        info.advance(ParsingState::PvBestmove, &mut pv, b"d2d4"),
        Some(ParsingState::PvPonder)
    );
    assert_eq!(info.advance(ParsingState::PvPonder, &mut pv, b"d7d5"), Some(ParsingState::PvRest));
    assert_eq!(info.advance(ParsingState::PvRest, &mut pv, b"c2c4"), Some(ParsingState::PvRest));
    assert_eq!(pv, b"d2d4 d7d5 c2c4".to_vec());
    assert_eq!(info.bestmove(), Some("d2d4".to_string()));
    assert_eq!(info.ponder(), Some("d7d5".to_string()));
}
