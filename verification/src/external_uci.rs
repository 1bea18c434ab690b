//! The reading side of a UCI conversation with another engine: what its output lines say, and
//! what is known of the engine after each of them.
use vstd::prelude::*;
use crate::external_uci::parse::{OptionModel, OptionType, UciMessage};
use crate::utils::text::texts;

pub mod parse;

verus! {

/// What an engine last reported of its search.
#[derive(Debug, Clone, PartialEq)]
pub struct UciEvaluation {
    pub score: isize,
    pub mate: isize,
    pub depth: isize,
    pub nodes: isize,
    pub seldepth: isize,
    pub multipv: isize,
    pub pv: Vec<String>,
    pub time: isize,
}

/// An evaluation with its principal variation as character sequences.
pub struct EvaluationModel {
    pub score: isize,
    pub mate: isize,
    pub depth: isize,
    pub nodes: isize,
    pub seldepth: isize,
    pub multipv: isize,
    pub pv: Seq<Seq<char>>,
    pub time: isize,
}

impl View for UciEvaluation {
    type V = EvaluationModel;

    open spec fn view(&self) -> EvaluationModel {
        EvaluationModel {
            score: self.score,
            mate: self.mate,
            depth: self.depth,
            nodes: self.nodes,
            seldepth: self.seldepth,
            multipv: self.multipv,
            pv: texts(self.pv@),
            time: self.time,
        }
    }
}

/// The evaluation before any report: all zero, no moves.
pub open spec fn empty_evaluation() -> EvaluationModel {
    EvaluationModel {
        score: 0,
        mate: 0,
        depth: 0,
        nodes: 0,
        seldepth: 0,
        multipv: 0,
        pv: Seq::empty(),
        time: 0,
    }
}

impl Default for UciEvaluation {
    /// An evaluation with empty values.
    fn default() -> (r: Self)
        ensures
            r@ == empty_evaluation(),
    {
        let r = UciEvaluation {
            score: 0,
            mate: 0,
            depth: 0,
            nodes: 0,
            seldepth: 0,
            multipv: 0,
            pv: Vec::new(),
            time: 0,
        };
        proof { assert(texts(r.pv@) =~= Seq::<Seq<char>>::empty()); }
        r
    }
}

/// An option that an engine declared.
#[derive(PartialEq, Debug, Clone)]
pub struct UciEngineOption {
    pub name: String,
    pub opt_type: OptionType,
}

/// A move with the number of leaf nodes under it, from an engine's perft.
#[derive(PartialEq, Debug, Clone)]
pub struct UciPerftResults {
    pub m: String,
    pub nodes: u64,
}

/// Where a conversation with an engine stands.
#[derive(PartialEq, Eq, Debug, Clone, Copy, Structural)]
pub enum UciStateEnum {
    Uninitialized,
    Initialized,
    Ready,
    Thinking,
}

/// What is known of an engine from its output so far.
pub struct UciState {
    pub state: UciStateEnum,
    pub evaluation: Option<UciEvaluation>,
    pub options: Vec<UciEngineOption>,
    pub perfts: Vec<UciPerftResults>,
}

/// The options declared, as names and types.
pub open spec fn options_view(v: Seq<UciEngineOption>) -> Seq<(Seq<char>, OptionModel)> {
    v.map_values(|o: UciEngineOption| (o.name@, o.opt_type@))
}

/// The perft results, as moves and counts.
pub open spec fn perfts_view(v: Seq<UciPerftResults>) -> Seq<(Seq<char>, u64)> {
    v.map_values(|p: UciPerftResults| (p.m@, p.nodes))
}

/// The evaluation that a report starts from: the last one, or the empty one.
pub open spec fn previous(ev: Option<UciEvaluation>) -> EvaluationModel {
    match ev {
        Some(e) => e@,
        None => empty_evaluation(),
    }
}

/// A reported value, or the previous one where the report has none.
pub open spec fn or_previous<T>(v: Option<T>, prev: T) -> T {
    match v {
        Some(x) => x,
        None => prev,
    }
}

/// The evaluation after an `info` report: each value it gives replaces the previous one.
pub open spec fn merged(
    prev: EvaluationModel,
    cp: Option<isize>,
    mate: Option<isize>,
    depth: Option<isize>,
    nodes: Option<isize>,
    seldepth: Option<isize>,
    time: Option<isize>,
    multipv: Option<isize>,
    pv: Option<Seq<Seq<char>>>,
) -> EvaluationModel {
    EvaluationModel {
        score: or_previous(cp, prev.score),
        mate: or_previous(mate, prev.mate),
        depth: or_previous(depth, prev.depth),
        nodes: or_previous(nodes, prev.nodes),
        seldepth: or_previous(seldepth, prev.seldepth),
        multipv: or_previous(multipv, prev.multipv),
        pv: or_previous(pv, prev.pv),
        time: or_previous(time, prev.time),
    }
}

impl UciState {
    /// A conversation that has not started.
    pub fn new() -> (r: Self)
        ensures
            r.state == UciStateEnum::Uninitialized,
            r.evaluation is None,
            r.options@.len() == 0,
            r.perfts@.len() == 0,
    {
        UciState {
            state: UciStateEnum::Uninitialized,
            evaluation: None,
            options: Vec::new(),
            perfts: Vec::new(),
        }
    }

    /// Takes in a message of the engine; returns whether it ends a search. `uciok` initialises
    /// the conversation, `readyok` and the end of a search make it ready, an `info` report
    /// updates the evaluation, an option or a perft result is recorded.
    pub fn process_message(&mut self, msg: UciMessage) -> (finished: bool)
        ensures
            finished == (msg is FinishedThinkingSignal),
            final(self).state == (match msg {
                UciMessage::UciOk => UciStateEnum::Initialized,
                UciMessage::ReadyOk => UciStateEnum::Ready,
                UciMessage::FinishedThinkingSignal => UciStateEnum::Ready,
                _ => old(self).state,
            }),
            match msg {
                UciMessage::Info { cp, mate, depth, seldepth, nodes, time, multipv, pv } => {
                    &&& final(self).evaluation is Some
                    &&& final(self).evaluation->0@ == merged(
                        previous(old(self).evaluation),
                        cp,
                        mate,
                        depth,
                        nodes,
                        seldepth,
                        time,
                        multipv,
                        crate::external_uci::parse::opt_texts(pv),
                    )
                },
                _ => final(self).evaluation == old(self).evaluation,
            },
            options_view(final(self).options@) == (match msg {
                UciMessage::Option { name, opt_type } => options_view(old(self).options@).push(
                    (name@, opt_type@),
                ),
                _ => options_view(old(self).options@),
            }),
            perfts_view(final(self).perfts@) == (match msg {
                UciMessage::Perft { m, nodes } => perfts_view(old(self).perfts@).push((m@, nodes)),
                _ => perfts_view(old(self).perfts@),
            }),
    {
        match msg {
            UciMessage::UciOk => {
                self.state = UciStateEnum::Initialized;
                false
            },
            UciMessage::ReadyOk => {
                self.state = UciStateEnum::Ready;
                false
            },
            UciMessage::Info { cp, mate, depth, seldepth, nodes, time, multipv, pv } => {
                let prev = match self.evaluation.take() {
                    Some(e) => e,
                    None => UciEvaluation::default(),
                };
                let ev = UciEvaluation {
                    score: match cp { Some(x) => x, None => prev.score },
                    mate: match mate { Some(x) => x, None => prev.mate },
                    depth: match depth { Some(x) => x, None => prev.depth },
                    nodes: match nodes { Some(x) => x, None => prev.nodes },
                    seldepth: match seldepth { Some(x) => x, None => prev.seldepth },
                    multipv: match multipv { Some(x) => x, None => prev.multipv },
                    pv: match pv { Some(p) => p, None => prev.pv },
                    time: match time { Some(x) => x, None => prev.time },
                };
                self.evaluation = Some(ev);
                false
            },
            UciMessage::Option { name, opt_type } => {
                let ghost before = self.options@;
                self.options.push(UciEngineOption { name, opt_type });
                proof { assert(options_view(self.options@) =~= options_view(before).push((name@, opt_type@))); }
                false
            },
            UciMessage::Perft { m, nodes } => {
                let ghost before = self.perfts@;
                self.perfts.push(UciPerftResults { m, nodes });
                proof { assert(perfts_view(self.perfts@) =~= perfts_view(before).push((m@, nodes))); }
                false
            },
            UciMessage::FinishedThinkingSignal => {
                self.state = UciStateEnum::Ready;
                true
            },
        }
    }
}

} // verus!
