//! The record of search statistics, and the state machine that fills it from
//! one `info` line.

use crate::number::{i32_value, parse_i32, parse_unsigned, unsigned_value};
use crate::text::{lossy_text, truncate, FixedText};
use vstd::prelude::*;
use vstd::string::StringSliceAdditionalSpecFns;
use vstd::utf8::{decode_utf8, valid_utf8};

verus! {

/// Capacity of a move in coordinate notation (`e7e8q`).
pub const UCI_MAX_LENGTH: usize = 5;

/// Capacity of the principal variation text: two moves of four characters,
/// each with a separator.
pub const PV_BUFF_SIZE: usize = 10;

/// A move.
pub type UciBuff = FixedText<UCI_MAX_LENGTH>;

/// The start of a principal variation.
pub type PvBuff = FixedText<PV_BUFF_SIZE>;

/// An evaluation: in hundredths of a pawn, or as moves to a forced mate.
#[derive(Debug, Clone, Copy, PartialEq, Eq, Structural)]
pub enum Score {
    Cp(i32),
    Mate(i32),
}

/// The statistics reported by an engine's `info` lines.
#[derive(Clone, Copy, Debug)]
pub struct AnalysisInfo {
    /// best move
    pub bestmove: UciBuff,
    /// expected reply
    pub ponder: UciBuff,
    /// principal variation, as far as it fits
    pub pv: PvBuff,
    /// rank of this line among several requested variations
    pub multipv: usize,
    /// search depth
    pub depth: usize,
    /// selective search depth
    pub seldepth: usize,
    /// tablebase hits
    pub tbhits: u64,
    /// nodes searched
    pub nodes: u64,
    /// milliseconds spent
    pub time: usize,
    /// nodes per second
    pub nps: u64,
    /// evaluation
    pub score: Score,
}

/// What an `AnalysisInfo` holds, with each text as its bytes.
pub struct InfoModel {
    pub bestmove: Seq<u8>,
    pub ponder: Seq<u8>,
    pub pv: Seq<u8>,
    pub multipv: usize,
    pub depth: usize,
    pub seldepth: usize,
    pub tbhits: u64,
    pub nodes: u64,
    pub time: usize,
    pub nps: u64,
    pub score: Score,
}

impl View for AnalysisInfo {
    type V = InfoModel;

    open spec fn view(&self) -> InfoModel {
        InfoModel {
            bestmove: self.bestmove@,
            ponder: self.ponder@,
            pv: self.pv@,
            multipv: self.multipv,
            depth: self.depth,
            seldepth: self.seldepth,
            tbhits: self.tbhits,
            nodes: self.nodes,
            time: self.time,
            nps: self.nps,
            score: self.score,
        }
    }
}

/// The contents of a new record.
pub open spec fn empty_model() -> InfoModel {
    InfoModel {
        bestmove: Seq::empty(),
        ponder: Seq::empty(),
        pv: Seq::empty(),
        multipv: 0,
        depth: 0,
        seldepth: 0,
        tbhits: 0,
        nodes: 0,
        time: 0,
        nps: 0,
        score: Score::Cp(0),
    }
}

/// What the decoder expects the next token of a line to be.
#[derive(Debug, Clone, Copy, PartialEq, Eq, Structural)]
pub enum ParsingState {
    /// the word `info` that opens the line
    Info,
    /// a key
    Key,
    /// the value of a key that is not recognised
    Unknown,
    Multipv,
    Depth,
    Seldepth,
    Tbhits,
    Nodes,
    Time,
    Nps,
    /// `cp` or `mate`
    Score,
    ScoreCp,
    ScoreMate,
    /// the first move of the principal variation
    PvBestmove,
    /// its second move
    PvPonder,
    /// any later move
    PvRest,
}

/// The ASCII space that separates tokens.
pub const SPACE: u8 = 32;

/// The tokens of `line`: the pieces between single spaces, empty ones
/// included, so that a line with `k` spaces has `k + 1` tokens.
pub open spec fn split_spaces(line: Seq<u8>) -> Seq<Seq<u8>>
    decreases line.len(),
{
    if line.len() == 0 {
        seq![Seq::<u8>::empty()]
    } else {
        let prev = split_spaces(line.drop_last());
        if line.last() == SPACE {
            prev.push(Seq::<u8>::empty())
        } else {
            prev.update(prev.len() - 1, prev.last().push(line.last()))
        }
    }
}

/// `info`
pub open spec fn word_info() -> Seq<u8> {
    seq![105u8, 110, 102, 111]
}

/// `string`
pub open spec fn word_string() -> Seq<u8> {
    seq![115u8, 116, 114, 105, 110, 103]
}

/// `multipv`
pub open spec fn word_multipv() -> Seq<u8> {
    seq![109u8, 117, 108, 116, 105, 112, 118]
}

/// `depth`
pub open spec fn word_depth() -> Seq<u8> {
    seq![100u8, 101, 112, 116, 104]
}

/// `seldepth`
pub open spec fn word_seldepth() -> Seq<u8> {
    seq![115u8, 101, 108, 100, 101, 112, 116, 104]
}

/// `tbhits`
pub open spec fn word_tbhits() -> Seq<u8> {
    seq![116u8, 98, 104, 105, 116, 115]
}

/// `nodes`
pub open spec fn word_nodes() -> Seq<u8> {
    seq![110u8, 111, 100, 101, 115]
}

/// `time`
pub open spec fn word_time() -> Seq<u8> {
    seq![116u8, 105, 109, 101]
}

/// `nps`
pub open spec fn word_nps() -> Seq<u8> {
    seq![110u8, 112, 115]
}

/// `score`
pub open spec fn word_score() -> Seq<u8> {
    seq![115u8, 99, 111, 114, 101]
}

/// `pv`
pub open spec fn word_pv() -> Seq<u8> {
    seq![112u8, 118]
}

/// `cp`
pub open spec fn word_cp() -> Seq<u8> {
    seq![99u8, 112]
}

/// `mate`
pub open spec fn word_mate() -> Seq<u8> {
    seq![109u8, 97, 116, 101]
}

/// The state that a key selects.
pub open spec fn key_state(tok: Seq<u8>) -> ParsingState {
    if tok == word_multipv() {
        ParsingState::Multipv
    } else if tok == word_depth() {
        ParsingState::Depth
    } else if tok == word_seldepth() {
        ParsingState::Seldepth
    } else if tok == word_tbhits() {
        ParsingState::Tbhits
    } else if tok == word_nodes() {
        ParsingState::Nodes
    } else if tok == word_time() {
        ParsingState::Time
    } else if tok == word_nps() {
        ParsingState::Nps
    } else if tok == word_score() {
        ParsingState::Score
    } else if tok == word_pv() {
        ParsingState::PvBestmove
    } else {
        ParsingState::Unknown
    }
}

/// The record after the value `tok` of a numeric key is read in state `ps`:
/// the field changes where `tok` is a number in its range, else nothing does.
pub open spec fn read_value(m: InfoModel, ps: ParsingState, tok: Seq<u8>) -> InfoModel {
    match ps {
        ParsingState::Multipv => match unsigned_value(tok, usize::MAX as nat) {
            Some(v) => InfoModel { multipv: v as usize, ..m },
            None => m,
        },
        ParsingState::Depth => match unsigned_value(tok, usize::MAX as nat) {
            Some(v) => InfoModel { depth: v as usize, ..m },
            None => m,
        },
        ParsingState::Seldepth => match unsigned_value(tok, usize::MAX as nat) {
            Some(v) => InfoModel { seldepth: v as usize, ..m },
            None => m,
        },
        ParsingState::Tbhits => match unsigned_value(tok, u64::MAX as nat) {
            Some(v) => InfoModel { tbhits: v as u64, ..m },
            None => m,
        },
        ParsingState::Nodes => match unsigned_value(tok, u64::MAX as nat) {
            Some(v) => InfoModel { nodes: v as u64, ..m },
            None => m,
        },
        ParsingState::Time => match unsigned_value(tok, usize::MAX as nat) {
            Some(v) => InfoModel { time: v as usize, ..m },
            None => m,
        },
        ParsingState::Nps => match unsigned_value(tok, u64::MAX as nat) {
            Some(v) => InfoModel { nps: v as u64, ..m },
            None => m,
        },
        ParsingState::ScoreCp => match i32_value(tok) {
            Some(v) => InfoModel { score: Score::Cp(v as i32), ..m },
            None => m,
        },
        ParsingState::ScoreMate => match i32_value(tok) {
            Some(v) => InfoModel { score: Score::Mate(v as i32), ..m },
            None => m,
        },
        _ => m,
    }
}

/// One transition: the record, the next state (`None` where the line is
/// rejected and decoding stops) and the principal variation text gathered so
/// far, after token `tok` is read in state `ps`.
pub open spec fn step(m: InfoModel, ps: ParsingState, pv: Seq<u8>, tok: Seq<u8>) -> (
    InfoModel,
    Option<ParsingState>,
    Seq<u8>,
) {
    match ps {
        ParsingState::Info => if tok == word_info() {
            (m, Some(ParsingState::Key), pv)
        } else {
            (m, None, pv)
        },
        ParsingState::Key => if tok == word_string() {
            (m, None, pv)
        } else {
            (m, Some(key_state(tok)), pv)
        },
        ParsingState::Unknown => (m, Some(ParsingState::Key), pv),
        ParsingState::Score => if tok == word_cp() {
            (m, Some(ParsingState::ScoreCp), pv)
        } else if tok == word_mate() {
            (m, Some(ParsingState::ScoreMate), pv)
        } else {
            (m, None, pv)
        },
        ParsingState::PvBestmove => (
            InfoModel { bestmove: truncate(tok, UCI_MAX_LENGTH as nat), ..m },
            Some(ParsingState::PvPonder),
            pv + tok,
        ),
        ParsingState::PvPonder => (
            InfoModel { ponder: truncate(tok, UCI_MAX_LENGTH as nat), ..m },
            Some(ParsingState::PvRest),
            pv.push(SPACE) + tok,
        ),
        ParsingState::PvRest => (m, Some(ParsingState::PvRest), pv.push(SPACE) + tok),
        _ => (read_value(m, ps, tok), Some(ParsingState::Key), pv),
    }
}

/// The transitions over `toks`, from state `Info` and no gathered text.
pub open spec fn run(m: InfoModel, toks: Seq<Seq<u8>>) -> (InfoModel, Option<ParsingState>, Seq<u8>)
    decreases toks.len(),
{
    if toks.len() == 0 {
        (m, Some(ParsingState::Info), Seq::<u8>::empty())
    } else {
        let prev = run(m, toks.drop_last());
        match prev.1 {
            Some(ps) => step(prev.0, ps, prev.2, toks.last()),
            None => prev,
        }
    }
}

/// The record after `line` is decoded into `m`. Where the line is not
/// rejected, the gathered principal variation replaces the stored one, cut to
/// its capacity.
pub open spec fn decode(m: InfoModel, line: Seq<u8>) -> InfoModel {
    let r = run(m, split_spaces(line));
    if r.1 is Some {
        InfoModel { pv: truncate(r.2, PV_BUFF_SIZE as nat), ..r.0 }
    } else {
        r.0
    }
}

/// Every line has at least one token.
proof fn lemma_split_nonempty(line: Seq<u8>)
    ensures
        split_spaces(line).len() >= 1,
    decreases line.len(),
{
    if line.len() > 0 {
        lemma_split_nonempty(line.drop_last());
    }
}

/// Once decoding has stopped, later tokens change nothing.
proof fn lemma_run_stopped(m: InfoModel, toks: Seq<Seq<u8>>, k: int)
    requires
        1 <= k <= toks.len(),
        run(m, toks.subrange(0, k)) == (m, None::<ParsingState>, Seq::<u8>::empty()),
    ensures
        run(m, toks) == (m, None::<ParsingState>, Seq::<u8>::empty()),
    decreases toks.len() - k,
{
    if k == toks.len() {
        assert(toks.subrange(0, k) =~= toks);
    } else {
        assert(toks.subrange(0, k + 1).drop_last() =~= toks.subrange(0, k));
        lemma_run_stopped(m, toks, k + 1);
    }
}

/// Decoding a line gives one result: two records with the same contents end
/// with the same contents after the same line.
pub proof fn lemma_decode_deterministic(a: InfoModel, b: InfoModel, line: Seq<u8>)
    requires
        a == b,
    ensures
        decode(a, line) == decode(b, line),
{
}

/// A line whose first token is not `info` changes nothing.
pub proof fn lemma_not_info_unchanged(m: InfoModel, line: Seq<u8>)
    requires
        split_spaces(line)[0] != word_info(),
    ensures
        decode(m, line) == m,
{
    let toks = split_spaces(line);
    lemma_split_nonempty(line);
    assert(toks.subrange(0, 1).drop_last() =~= Seq::<Seq<u8>>::empty());
    assert(run(m, Seq::<Seq<u8>>::empty()) == (m, Some(ParsingState::Info), Seq::<u8>::empty()));
    assert(toks.subrange(0, 1).last() == toks[0]);
    lemma_run_stopped(m, toks, 1);
}

/// An `info string` line changes nothing.
pub proof fn lemma_info_string_unchanged(m: InfoModel, line: Seq<u8>)
    requires
        split_spaces(line).len() >= 2,
        split_spaces(line)[0] == word_info(),
        split_spaces(line)[1] == word_string(),
    ensures
        decode(m, line) == m,
{
    let toks = split_spaces(line);
    assert(toks.subrange(0, 1).drop_last() =~= Seq::<Seq<u8>>::empty());
    assert(run(m, Seq::<Seq<u8>>::empty()) == (m, Some(ParsingState::Info), Seq::<u8>::empty()));
    assert(toks.subrange(0, 1).last() == toks[0]);
    assert(run(m, toks.subrange(0, 1)) == (m, Some(ParsingState::Key), Seq::<u8>::empty()));
    assert(toks.subrange(0, 2).drop_last() =~= toks.subrange(0, 1));
    assert(toks.subrange(0, 2).last() == toks[1]);
    lemma_run_stopped(m, toks, 2);
}

/// `ps` is a state that reads the value of a numeric key.
pub open spec fn reads_number(ps: ParsingState) -> bool {
    match ps {
        ParsingState::Multipv | ParsingState::Depth | ParsingState::Seldepth
        | ParsingState::Tbhits | ParsingState::Nodes | ParsingState::Time | ParsingState::Nps
        | ParsingState::ScoreCp | ParsingState::ScoreMate => true,
        _ => false,
    }
}

/// `tok` is a number in the range of the field that state `ps` reads.
pub open spec fn number_fits(ps: ParsingState, tok: Seq<u8>) -> bool {
    match ps {
        ParsingState::Multipv | ParsingState::Depth | ParsingState::Seldepth
        | ParsingState::Time => unsigned_value(tok, usize::MAX as nat) is Some,
        ParsingState::Tbhits | ParsingState::Nodes | ParsingState::Nps => unsigned_value(
            tok,
            u64::MAX as nat,
        ) is Some,
        _ => i32_value(tok) is Some,
    }
}

/// A value that is not a number in its field's range leaves the record as
/// it was, and decoding goes on with the next key.
pub proof fn lemma_bad_number_kept(m: InfoModel, ps: ParsingState, pv: Seq<u8>, tok: Seq<u8>)
    requires
        reads_number(ps),
        !number_fits(ps, tok),
    ensures
        step(m, ps, pv, tok) == (m, Some(ParsingState::Key), pv),
{
}

/// An unknown key with one value after it is skipped: the record and the
/// gathered text stay as they were, and the next token is read as a key.
pub proof fn lemma_unknown_key_skipped(m: InfoModel, pv: Seq<u8>, key: Seq<u8>, value: Seq<u8>)
    requires
        key_state(key) == ParsingState::Unknown,
        key != word_string(),
    ensures
        step(m, ParsingState::Key, pv, key) == (m, Some(ParsingState::Unknown), pv),
        step(m, ParsingState::Unknown, pv, value) == (m, Some(ParsingState::Key), pv),
{
}

/// `tok` is the word `w`.
fn is_word(tok: &[u8], w: &[u8]) -> (r: bool)
    ensures
        r == (tok@ == w@),
{
    if tok.len() != w.len() {
        return false;
    }
    let mut i: usize = 0;
    while i < tok.len()
        invariant
            i <= tok@.len(),
            tok@.len() == w@.len(),
            forall|j: int| 0 <= j < i ==> tok@[j] == w@[j],
        decreases tok@.len() - i,
    {
        if tok[i] != w[i] {
            return false;
        }
        i += 1;
    }
    assert(tok@ =~= w@);
    true
}

fn key_state_of(tok: &[u8]) -> (r: ParsingState)
    ensures
        r == key_state(tok@),
{
    let multipv: [u8; 7] = [109, 117, 108, 116, 105, 112, 118];
    assert(multipv@ =~= word_multipv());
    let depth: [u8; 5] = [100, 101, 112, 116, 104];
    assert(depth@ =~= word_depth());
    let seldepth: [u8; 8] = [115, 101, 108, 100, 101, 112, 116, 104];
    assert(seldepth@ =~= word_seldepth());
    let tbhits: [u8; 6] = [116, 98, 104, 105, 116, 115];
    assert(tbhits@ =~= word_tbhits());
    let nodes: [u8; 5] = [110, 111, 100, 101, 115];
    assert(nodes@ =~= word_nodes());
    let time: [u8; 4] = [116, 105, 109, 101];
    assert(time@ =~= word_time());
    let nps: [u8; 3] = [110, 112, 115];
    assert(nps@ =~= word_nps());
    let score: [u8; 5] = [115, 99, 111, 114, 101];
    assert(score@ =~= word_score());
    let pv: [u8; 2] = [112, 118];
    assert(pv@ =~= word_pv());
    if is_word(tok, &multipv) {
        ParsingState::Multipv
    } else if is_word(tok, &depth) {
        ParsingState::Depth
    } else if is_word(tok, &seldepth) {
        ParsingState::Seldepth
    } else if is_word(tok, &tbhits) {
        ParsingState::Tbhits
    } else if is_word(tok, &nodes) {
        ParsingState::Nodes
    } else if is_word(tok, &time) {
        ParsingState::Time
    } else if is_word(tok, &nps) {
        ParsingState::Nps
    } else if is_word(tok, &score) {
        ParsingState::Score
    } else if is_word(tok, &pv) {
        ParsingState::PvBestmove
    } else {
        ParsingState::Unknown
    }
}

fn is_info(tok: &[u8]) -> (r: bool)
    ensures
        r == (tok@ == word_info()),
{
    let w: [u8; 4] = [105, 110, 102, 111];
    assert(w@ =~= word_info());
    is_word(tok, &w)
}

fn is_string(tok: &[u8]) -> (r: bool)
    ensures
        r == (tok@ == word_string()),
{
    let w: [u8; 6] = [115, 116, 114, 105, 110, 103];
    assert(w@ =~= word_string());
    is_word(tok, &w)
}

fn is_cp(tok: &[u8]) -> (r: bool)
    ensures
        r == (tok@ == word_cp()),
{
    let w: [u8; 2] = [99, 112];
    assert(w@ =~= word_cp());
    is_word(tok, &w)
}

fn is_mate(tok: &[u8]) -> (r: bool)
    ensures
        r == (tok@ == word_mate()),
{
    let w: [u8; 4] = [109, 97, 116, 101];
    assert(w@ =~= word_mate());
    is_word(tok, &w)
}

/// Appends the bytes of `tok` to `pv`.
fn append(pv: &mut Vec<u8>, tok: &[u8])
    ensures
        final(pv)@ == old(pv)@ + tok@,
{
    let ghost start = pv@;
    let mut i: usize = 0;
    while i < tok.len()
        invariant
            i <= tok@.len(),
            pv@ == start + tok@.subrange(0, i as int),
        decreases tok@.len() - i,
    {
        pv.push(tok[i]);
        i += 1;
        assert(pv@ =~= start + tok@.subrange(0, i as int));
    }
    assert(tok@.subrange(0, i as int) =~= tok@);
}

impl AnalysisInfo {
    /// A record with no moves, every count zero and a score of `Cp(0)`.
    pub fn new() -> (r: Self)
        ensures
            r@ == empty_model(),
    {
        AnalysisInfo {
            bestmove: UciBuff::new(),
            ponder: UciBuff::new(),
            pv: PvBuff::new(),
            multipv: 0,
            depth: 0,
            seldepth: 0,
            tbhits: 0,
            nodes: 0,
            time: 0,
            nps: 0,
            score: Score::Cp(0),
        }
    }

    /// The best move, if one is stored.
    pub fn bestmove(self) -> (r: Option<String>)
        ensures
            r is None <==> self@.bestmove.len() == 0,
            r matches Some(t) ==> t@ == lossy_text(self@.bestmove),
            r matches Some(t) ==> (valid_utf8(self@.bestmove) ==> t@ == decode_utf8(
                self@.bestmove,
            )),
    {
        self.bestmove.to_opt()
    }

    /// The expected reply, if one is stored.
    pub fn ponder(self) -> (r: Option<String>)
        ensures
            r is None <==> self@.ponder.len() == 0,
            r matches Some(t) ==> t@ == lossy_text(self@.ponder),
            r matches Some(t) ==> (valid_utf8(self@.ponder) ==> t@ == decode_utf8(self@.ponder)),
    {
        self.ponder.to_opt()
    }

    /// The start of the principal variation, if one is stored.
    pub fn pv(self) -> (r: Option<String>)
        ensures
            r is None <==> self@.pv.len() == 0,
            r matches Some(t) ==> t@ == lossy_text(self@.pv),
            r matches Some(t) ==> (valid_utf8(self@.pv) ==> t@ == decode_utf8(self@.pv)),
    {
        self.pv.to_opt()
    }

    /// Decodes one `info` line into this record.
    ///
    /// The line is cut into tokens at each single space. The first must be
    /// `info`; then each recognised key sets its field from the token after
    /// it, a value that is not a number in the field's range leaves the field
    /// as it was, and an unknown key is skipped with the one token after it.
    /// After `pv` every token is a move: the first is the best move, the
    /// second the expected reply, and the principal variation text, cut to
    /// its capacity, replaces the stored one at the end of the line. A line
    /// that does not start with `info`, the key `string`, or a score that is
    /// neither `cp` nor `mate` stops decoding where it stands: what was set
    /// before it stays, and the stored principal variation is kept.
    pub fn parse(&mut self, info: &str)
        ensures
            final(self)@ == decode(old(self)@, info.spec_bytes()),
    {
        let line = info.as_bytes();
        let ghost m0 = self@;
        let ghost mut done: Seq<Seq<u8>> = Seq::empty();
        let mut state: Option<ParsingState> = Some(ParsingState::Info);
        let mut pv: Vec<u8> = Vec::new();
        let mut start: usize = 0;
        let mut i: usize = 0;
        assert(line@.subrange(0, 0) =~= Seq::<u8>::empty());
        assert(seq![Seq::<u8>::empty()] =~= done.push(line@.subrange(0, 0)));
        while i < line.len()
            invariant
                start <= i <= line@.len(),
                split_spaces(line@.subrange(0, i as int)) == done.push(
                    line@.subrange(start as int, i as int),
                ),
                run(m0, done) == (self@, state, pv@),
            decreases line@.len() - i,
        {
            let ghost prefix = line@.subrange(0, i + 1);
            assert(prefix.drop_last() =~= line@.subrange(0, i as int));
            if line[i] == SPACE {
                let tok = &line[start..i];
                if let Some(ps) = state {
                    state = self.advance(ps, &mut pv, tok);
                }
                proof {
                    let d = done.push(tok@);
                    assert(d.drop_last() =~= done);
                    done = d;
                    assert(line@.subrange(i + 1, i + 1) =~= Seq::<u8>::empty());
                }
                start = i + 1;
            } else {
                proof {
                    assert(line@.subrange(start as int, i + 1) =~= line@.subrange(
                        start as int,
                        i as int,
                    ).push(line@[i as int]));
                    assert(done.push(line@.subrange(start as int, i + 1)) =~= done.push(
                        line@.subrange(start as int, i as int),
                    ).update(done.len() as int, line@.subrange(start as int, i + 1)));
                }
            }
            i += 1;
        }
        let tok = &line[start..line.len()];
        if let Some(ps) = state {
            state = self.advance(ps, &mut pv, tok);
        }
        proof {
            let d = done.push(tok@);
            assert(d.drop_last() =~= done);
            assert(line@.subrange(0, i as int) =~= line@);
        }
        if state.is_some() {
            self.pv = PvBuff::from_bytes(pv.as_slice());
        }
    }

    /// Reads the value of a numeric key into its field.
    fn read_value(&mut self, ps: ParsingState, tok: &[u8])
        ensures
            final(self)@ == read_value(old(self)@, ps, tok@),
    {
        match ps {
            ParsingState::Multipv => if let Some(v) = parse_unsigned(tok, usize::MAX as u64) {
                self.multipv = v as usize;
            },
            ParsingState::Depth => if let Some(v) = parse_unsigned(tok, usize::MAX as u64) {
                self.depth = v as usize;
            },
            ParsingState::Seldepth => if let Some(v) = parse_unsigned(tok, usize::MAX as u64) {
                self.seldepth = v as usize;
            },
            ParsingState::Tbhits => if let Some(v) = parse_unsigned(tok, u64::MAX) {
                self.tbhits = v;
            },
            ParsingState::Nodes => if let Some(v) = parse_unsigned(tok, u64::MAX) {
                self.nodes = v;
            },
            ParsingState::Time => if let Some(v) = parse_unsigned(tok, usize::MAX as u64) {
                self.time = v as usize;
            },
            ParsingState::Nps => if let Some(v) = parse_unsigned(tok, u64::MAX) {
                self.nps = v;
            },
            ParsingState::ScoreCp => if let Some(v) = parse_i32(tok) {
                self.score = Score::Cp(v);
            },
            ParsingState::ScoreMate => if let Some(v) = parse_i32(tok) {
                self.score = Score::Mate(v);
            },
            _ => {},
        }
    }

    /// Reads token `tok` in state `ps`, gathering the principal variation in
    /// `pv`; returns the next state, or `None` where the line is rejected.
    pub fn advance(&mut self, ps: ParsingState, pv: &mut Vec<u8>, tok: &[u8]) -> (r: Option<
        ParsingState,
    >)
        ensures
            (final(self)@, r, final(pv)@) == step(old(self)@, ps, old(pv)@, tok@),
    {
        match ps {
            ParsingState::Info => if is_info(tok) {
                Some(ParsingState::Key)
            } else {
                None
            },
            ParsingState::Key => if is_string(tok) {
                None
            } else {
                Some(key_state_of(tok))
            },
            ParsingState::Unknown => Some(ParsingState::Key),
            ParsingState::Score => if is_cp(tok) {
                Some(ParsingState::ScoreCp)
            } else if is_mate(tok) {
                Some(ParsingState::ScoreMate)
            } else {
                None
            },
            ParsingState::PvBestmove => {
                append(pv, tok);
                self.bestmove = UciBuff::from_bytes(tok);
                Some(ParsingState::PvPonder)
            },
            ParsingState::PvPonder => {
                pv.push(SPACE);
                append(pv, tok);
                self.ponder = UciBuff::from_bytes(tok);
                Some(ParsingState::PvRest)
            },
            ParsingState::PvRest => {
                pv.push(SPACE);
                append(pv, tok);
                Some(ParsingState::PvRest)
            },
            _ => {
                self.read_value(ps, tok);
                Some(ParsingState::Key)
            },
        }
    }
}

} // verus!
