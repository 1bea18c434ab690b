//! Lines that a UCI engine writes, read into messages.
use vstd::prelude::*;
use crate::utils::text::{
    char_views, chars_of, find_char, find_word, is_ws, parse_bool, parse_bool_chars, parse_isize,
    parse_isize_chars, parse_u64, parse_u64_chars, same_chars, slice_chars, split_tokens,
    string_of, strings_from, texts, tokens, trim, trim_chars, word_index, char_index_from,
};

verus! {

/// The type of an engine's option, with what its `option` line declares.
#[allow(inconsistent_fields)]
#[derive(PartialEq, Debug, Clone)]
pub enum OptionType {
    Check { default: bool },
    Spin { default: isize, min: isize, max: isize },
    Combo { default: String, options: Vec<String> },
    Button,
    String { default: String },
}

/// An option type with its texts as character sequences.
#[allow(inconsistent_fields)]
pub enum OptionModel {
    Check { default: bool },
    Spin { default: isize, min: isize, max: isize },
    Combo { default: Seq<char>, options: Seq<Seq<char>> },
    Button,
    Text { default: Seq<char> },
}

impl View for OptionType {
    type V = OptionModel;

    open spec fn view(&self) -> OptionModel {
        match self {
            OptionType::Check { default } => OptionModel::Check { default: *default },
            OptionType::Spin { default, min, max } => OptionModel::Spin {
                default: *default,
                min: *min,
                max: *max,
            },
            OptionType::Combo { default, options } => OptionModel::Combo {
                default: default@,
                options: texts(options@),
            },
            OptionType::Button => OptionModel::Button,
            OptionType::String { default } => OptionModel::Text { default: default@ },
        }
    }
}

/// What a line of an engine's output says.
#[allow(inconsistent_fields)]
#[derive(PartialEq, Debug)]
pub enum UciMessage {
    UciOk,
    ReadyOk,
    Info {
        cp: Option<isize>,
        mate: Option<isize>,
        depth: Option<isize>,
        seldepth: Option<isize>,
        nodes: Option<isize>,
        time: Option<isize>,
        multipv: Option<isize>,
        pv: Option<Vec<String>>,
    },
    Perft { m: String, nodes: u64 },
    Option { name: String, opt_type: OptionType },
    FinishedThinkingSignal,
}

/// A message with its texts as character sequences.
#[allow(inconsistent_fields)]
pub enum MessageModel {
    UciOk,
    ReadyOk,
    Info {
        cp: Option<isize>,
        mate: Option<isize>,
        depth: Option<isize>,
        seldepth: Option<isize>,
        nodes: Option<isize>,
        time: Option<isize>,
        multipv: Option<isize>,
        pv: Option<Seq<Seq<char>>>,
    },
    Perft { m: Seq<char>, nodes: u64 },
    EngineOption { name: Seq<char>, opt_type: OptionModel },
    FinishedThinkingSignal,
}

/// The texts of an optional list of strings.
pub open spec fn opt_texts(v: Option<Vec<String>>) -> Option<Seq<Seq<char>>> {
    match v {
        Some(l) => Some(texts(l@)),
        None => None,
    }
}

impl View for UciMessage {
    type V = MessageModel;

    open spec fn view(&self) -> MessageModel {
        match self {
            UciMessage::UciOk => MessageModel::UciOk,
            UciMessage::ReadyOk => MessageModel::ReadyOk,
            UciMessage::Info { cp, mate, depth, seldepth, nodes, time, multipv, pv } =>
                MessageModel::Info {
                cp: *cp,
                mate: *mate,
                depth: *depth,
                seldepth: *seldepth,
                nodes: *nodes,
                time: *time,
                multipv: *multipv,
                pv: opt_texts(*pv),
            },
            UciMessage::Perft { m, nodes } => MessageModel::Perft { m: m@, nodes: *nodes },
            UciMessage::Option { name, opt_type } => MessageModel::EngineOption {
                name: name@,
                opt_type: opt_type@,
            },
            UciMessage::FinishedThinkingSignal => MessageModel::FinishedThinkingSignal,
        }
    }
}

/// Why a line could not be read.
#[derive(Clone, Copy, Debug, PartialEq, Eq, Structural)]
pub enum UciParseError {
    /// The line starts with no known word, or declares an option of an unknown type.
    ParseError,
    /// The line looks like a perft result but has no `:` or no node count after it.
    PerftError,
}

/// The value after the word `w` in `toks`, read as an `isize`: none where `w` does not occur,
/// zero where it is the last word.
pub open spec fn value_isize(toks: Seq<Seq<char>>, w: Seq<char>) -> Option<isize> {
    match word_index(toks, w) {
        Some(i) => if i + 1 < toks.len() { parse_isize(toks[i + 1]) } else { Some(0) },
        None => None,
    }
}

/// The value after the word `w` in `toks`, read as a `bool`: none where `w` does not occur,
/// `false` where it is the last word.
pub open spec fn value_bool(toks: Seq<Seq<char>>, w: Seq<char>) -> Option<bool> {
    match word_index(toks, w) {
        Some(i) => if i + 1 < toks.len() { parse_bool(toks[i + 1]) } else { Some(false) },
        None => None,
    }
}

/// The word after the word `w` in `toks`: none where `w` does not occur, empty where it is
/// the last word.
pub open spec fn value_text(toks: Seq<Seq<char>>, w: Seq<char>) -> Option<Seq<char>> {
    match word_index(toks, w) {
        Some(i) => if i + 1 < toks.len() { Some(toks[i + 1]) } else { Some(Seq::empty()) },
        None => None,
    }
}

/// The words after the first `pv`, if there is one.
pub open spec fn pv_of(toks: Seq<Seq<char>>) -> Option<Seq<Seq<char>>> {
    match word_index(toks, seq!['p', 'v']) {
        Some(i) => Some(toks.skip(i + 1)),
        None => None,
    }
}

/// The message of an `info` line with the words `toks`.
pub open spec fn info_of(toks: Seq<Seq<char>>) -> MessageModel {
    MessageModel::Info {
        cp: value_isize(toks, seq!['c', 'p']),
        mate: value_isize(toks, seq!['m', 'a', 't', 'e']),
        depth: value_isize(toks, seq!['d', 'e', 'p', 't', 'h']),
        seldepth: value_isize(toks, seq!['s', 'e', 'l', 'd', 'e', 'p', 't', 'h']),
        nodes: value_isize(toks, seq!['n', 'o', 'd', 'e', 's']),
        time: value_isize(toks, seq!['t', 'i', 'm', 'e']),
        multipv: value_isize(toks, seq!['m', 'u', 'l', 't', 'i', 'p', 'v']),
        pv: pv_of(toks),
    }
}

/// The words after each `var` among the first `n` words.
pub open spec fn combo_options(toks: Seq<Seq<char>>, n: int) -> Seq<Seq<char>>
    decreases n,
{
    if n <= 0 {
        Seq::empty()
    } else if toks[n - 1] == seq!['v', 'a', 'r'] && n < toks.len() {
        combo_options(toks, n - 1).push(toks[n])
    } else {
        combo_options(toks, n - 1)
    }
}

/// The option type named `kind`, with its values from the words `toks`; none for an unknown
/// type.
pub open spec fn option_type_of(kind: Seq<char>, toks: Seq<Seq<char>>) -> Option<OptionModel> {
    let default = seq!['d', 'e', 'f', 'a', 'u', 'l', 't'];
    if kind == seq!['c', 'h', 'e', 'c', 'k'] {
        Some(OptionModel::Check { default: value_bool(toks, default)->0 })
    } else if kind == seq!['s', 'p', 'i', 'n'] {
        Some(
            OptionModel::Spin {
                default: value_isize(toks, default)->0,
                min: value_isize(toks, seq!['m', 'i', 'n'])->0,
                max: value_isize(toks, seq!['m', 'a', 'x'])->0,
            },
        )
    } else if kind == seq!['c', 'o', 'm', 'b', 'o'] {
        Some(
            OptionModel::Combo {
                default: value_text(toks, default)->0,
                options: combo_options(toks, toks.len() as int),
            },
        )
    } else if kind == seq!['b', 'u', 't', 't', 'o', 'n'] {
        Some(OptionModel::Button)
    } else if kind == seq!['s', 't', 'r', 'i', 'n', 'g'] {
        Some(OptionModel::Text { default: value_text(toks, default)->0 })
    } else {
        None
    }
}

/// Whether an `option` line with the words `toks` lacks a value that its type needs: a name, a
/// type, a readable default (and bounds, for a spin), or a value after a last `var`.
pub open spec fn option_incomplete(toks: Seq<Seq<char>>) -> bool {
    let default = seq!['d', 'e', 'f', 'a', 'u', 'l', 't'];
    let kind = value_text(toks, seq!['t', 'y', 'p', 'e']);
    ||| value_text(toks, seq!['n', 'a', 'm', 'e']) is None
    ||| kind is None
    ||| kind->0 == seq!['c', 'h', 'e', 'c', 'k'] && value_bool(toks, default) is None
    ||| kind->0 == seq!['s', 'p', 'i', 'n'] && (value_isize(toks, default) is None
        || value_isize(toks, seq!['m', 'i', 'n']) is None || value_isize(
        toks,
        seq!['m', 'a', 'x'],
    ) is None)
    ||| kind->0 == seq!['c', 'o', 'm', 'b', 'o'] && (value_text(toks, default) is None || (
    toks.len() > 0 && toks.last() == seq!['v', 'a', 'r']))
    ||| kind->0 == seq!['s', 't', 'r', 'i', 'n', 'g'] && value_text(toks, default) is None
}

/// The message of an `option` line with the words `toks`, one that is complete.
pub open spec fn option_of(toks: Seq<Seq<char>>) -> Result<MessageModel, UciParseError> {
    let name = value_text(toks, seq!['n', 'a', 'm', 'e'])->0;
    let kind = value_text(toks, seq!['t', 'y', 'p', 'e'])->0;
    match option_type_of(kind, toks) {
        Some(o) => Ok(MessageModel::EngineOption { name, opt_type: o }),
        None => Err(UciParseError::ParseError),
    }
}

/// The message of a perft line `t`: the move before the first `:`, the count of nodes after it
/// (up to a second `:`, with its whitespace trimmed).
pub open spec fn perft_of(t: Seq<char>) -> Result<MessageModel, UciParseError> {
    match char_index_from(t, ':', 0) {
        None => Err(UciParseError::PerftError),
        Some(c) => {
            let n = t.len();
            let rest = t.subrange(c + 1, t.len() as int);
            let field = match char_index_from(rest, ':', 0) {
                Some(d) => rest.take(d),
                None => rest,
            };
            match parse_u64(trim(field)) {
                Some(n) => Ok(MessageModel::Perft { m: t.take(c), nodes: n }),
                None => Err(UciParseError::PerftError),
            }
        },
    }
}

/// The first word of a line.
pub open spec fn command_of(line: Seq<char>) -> Seq<char> {
    let toks = tokens(trim(line));
    if toks.len() > 0 { toks[0] } else { Seq::empty() }
}

/// Whether reading `line` needs a value that it lacks: an `option` line that is incomplete.
pub open spec fn line_incomplete(line: Seq<char>) -> bool {
    command_of(line) == seq!['o', 'p', 't', 'i', 'o', 'n'] && option_incomplete(tokens(trim(line)))
}

/// What a line of an engine's output says, by its first word: `info`, `uciok`, `readyok`,
/// `option`; `Nodes` or `bestmove` end a search; a word that starts with a file letter is a
/// perft result; anything else is not understood.
pub open spec fn message_of(line: Seq<char>) -> Result<MessageModel, UciParseError> {
    let t = trim(line);
    let toks = tokens(t);
    let command = command_of(line);
    if command == seq!['i', 'n', 'f', 'o'] {
        Ok(info_of(toks))
    } else if command == seq!['u', 'c', 'i', 'o', 'k'] {
        Ok(MessageModel::UciOk)
    } else if command == seq!['r', 'e', 'a', 'd', 'y', 'o', 'k'] {
        Ok(MessageModel::ReadyOk)
    } else if command == seq!['o', 'p', 't', 'i', 'o', 'n'] {
        option_of(toks)
    } else if command == seq!['N', 'o', 'd', 'e', 's'] || command == seq![
        'b',
        'e',
        's',
        't',
        'm',
        'o',
        'v',
        'e',
    ] {
        Ok(MessageModel::FinishedThinkingSignal)
    } else if command.len() > 0 && 97 <= (command[0] as u32) <= 104 {
        perft_of(t)
    } else {
        Err(UciParseError::ParseError)
    }
}

fn value_isize_of(toks: &Vec<Vec<char>>, w: &[char]) -> (r: Option<isize>)
    ensures
        r == value_isize(char_views(toks@), w@),
{
    let n = toks.len();
    match find_word(toks, w) {
        Some(i) => if i < n - 1 {
            parse_isize_chars(toks[i + 1].as_slice())
        } else {
            Some(0)
        },
        None => None,
    }
}

fn value_bool_of(toks: &Vec<Vec<char>>, w: &[char]) -> (r: Option<bool>)
    ensures
        r == value_bool(char_views(toks@), w@),
{
    let n = toks.len();
    match find_word(toks, w) {
        Some(i) => if i < n - 1 {
            parse_bool_chars(toks[i + 1].as_slice())
        } else {
            Some(false)
        },
        None => None,
    }
}

fn value_text_of(toks: &Vec<Vec<char>>, w: &[char]) -> (r: Option<String>)
    ensures
        r matches Some(s) ==> value_text(char_views(toks@), w@) == Some(s@),
        r is None ==> value_text(char_views(toks@), w@) is None,
{
    let n = toks.len();
    match find_word(toks, w) {
        Some(i) => if i < n - 1 {
            Some(string_of(toks[i + 1].as_slice()))
        } else {
            let e = String::new();
            proof { assert(e@ =~= Seq::<char>::empty()); }
            Some(e)
        },
        None => None,
    }
}

fn info_line(toks: &Vec<Vec<char>>) -> (r: UciMessage)
    ensures
        r@ == info_of(char_views(toks@)),
{
    let n = toks.len();
    let pv = match find_word(toks, &['p', 'v']) {
        Some(i) => Some(strings_from(toks, i + 1)),
        None => None,
    };
    UciMessage::Info {
        cp: value_isize_of(toks, &['c', 'p']),
        mate: value_isize_of(toks, &['m', 'a', 't', 'e']),
        depth: value_isize_of(toks, &['d', 'e', 'p', 't', 'h']),
        seldepth: value_isize_of(toks, &['s', 'e', 'l', 'd', 'e', 'p', 't', 'h']),
        nodes: value_isize_of(toks, &['n', 'o', 'd', 'e', 's']),
        time: value_isize_of(toks, &['t', 'i', 'm', 'e']),
        multipv: value_isize_of(toks, &['m', 'u', 'l', 't', 'i', 'p', 'v']),
        pv,
    }
}

fn combo_line_options(toks: &Vec<Vec<char>>) -> (r: Vec<String>)
    requires
        !(toks@.len() > 0 && char_views(toks@).last() == seq!['v', 'a', 'r']),
    ensures
        texts(r@) == combo_options(char_views(toks@), toks@.len() as int),
{
    let ghost v = char_views(toks@);
    let mut out: Vec<String> = Vec::new();
    let mut ix: usize = 0;
    while ix < toks.len()
        invariant
            ix <= toks@.len(),
            v == char_views(toks@),
            !(toks@.len() > 0 && v.last() == seq!['v', 'a', 'r']),
            texts(out@) == combo_options(v, ix as int),
        decreases toks@.len() - ix,
    {
        if same_chars(toks[ix].as_slice(), &['v', 'a', 'r']) {
            proof {
                if ix + 1 >= toks@.len() {
                    assert(v.last() == v[ix as int]);
                }
            }
            let ghost before = out@;
            out.push(string_of(toks[ix + 1].as_slice()));
            proof { assert(texts(out@) =~= texts(before).push(v[ix + 1])); }
        }
        ix += 1;
    }
    out
}

fn option_line(toks: &Vec<Vec<char>>) -> (r: Result<UciMessage, UciParseError>)
    requires
        !option_incomplete(char_views(toks@)),
    ensures
        match r {
            Ok(m) => option_of(char_views(toks@)) == Ok::<MessageModel, UciParseError>(m@),
            Err(e) => option_of(char_views(toks@)) == Err::<MessageModel, UciParseError>(e),
        },
{
    let ghost v = char_views(toks@);
    let name = match value_text_of(toks, &['n', 'a', 'm', 'e']) {
        Some(s) => s,
        None => String::new(),
    };
    let kind = match value_text_of(toks, &['t', 'y', 'p', 'e']) {
        Some(s) => s,
        None => String::new(),
    };
    let kc = chars_of(&kind);
    let opt_type = if same_chars(kc.as_slice(), &['c', 'h', 'e', 'c', 'k']) {
        let d = match value_bool_of(toks, &['d', 'e', 'f', 'a', 'u', 'l', 't']) {
            Some(b) => b,
            None => false,
        };
        OptionType::Check { default: d }
    } else if same_chars(kc.as_slice(), &['s', 'p', 'i', 'n']) {
        let d = match value_isize_of(toks, &['d', 'e', 'f', 'a', 'u', 'l', 't']) {
            Some(x) => x,
            None => 0,
        };
        let lo = match value_isize_of(toks, &['m', 'i', 'n']) {
            Some(x) => x,
            None => 0,
        };
        let hi = match value_isize_of(toks, &['m', 'a', 'x']) {
            Some(x) => x,
            None => 0,
        };
        OptionType::Spin { default: d, min: lo, max: hi }
    } else if same_chars(kc.as_slice(), &['c', 'o', 'm', 'b', 'o']) {
        let options = combo_line_options(toks);
        let d = match value_text_of(toks, &['d', 'e', 'f', 'a', 'u', 'l', 't']) {
            Some(s) => s,
            None => String::new(),
        };
        OptionType::Combo { default: d, options }
    } else if same_chars(kc.as_slice(), &['b', 'u', 't', 't', 'o', 'n']) {
        OptionType::Button
    } else if same_chars(kc.as_slice(), &['s', 't', 'r', 'i', 'n', 'g']) {
        let d = match value_text_of(toks, &['d', 'e', 'f', 'a', 'u', 'l', 't']) {
            Some(s) => s,
            None => String::new(),
        };
        OptionType::String { default: d }
    } else {
        return Err(UciParseError::ParseError);
    };
    Ok(UciMessage::Option { name, opt_type })
}

fn perft_line(t: &Vec<char>) -> (r: Result<UciMessage, UciParseError>)
    ensures
        match r {
            Ok(m) => perft_of(t@) == Ok::<MessageModel, UciParseError>(m@),
            Err(e) => perft_of(t@) == Err::<MessageModel, UciParseError>(e),
        },
{
    match find_char(t.as_slice(), ':') {
        None => Err(UciParseError::PerftError),
        Some(c) => {
            let n = t.len();
            let rest = slice_chars(t.as_slice(), c + 1, t.len());
            let field = match find_char(rest.as_slice(), ':') {
                Some(d) => slice_chars(rest.as_slice(), 0, d),
                None => rest,
            };
            proof {
                assert(t@.take(c as int) =~= t@.subrange(0, c as int));
                let ghost rv = t@.subrange(c + 1, t@.len() as int);
                if let Some(d) = char_index_from(rv, ':', 0) {
                    assert(rv.take(d) =~= rv.subrange(0, d));
                }
            }
            let trimmed = trim_chars(field.as_slice());
            match parse_u64_chars(trimmed.as_slice()) {
                Some(n) => {
                    let m = slice_chars(t.as_slice(), 0, c);
                    Ok(UciMessage::Perft { m: string_of(m.as_slice()), nodes: n })
                },
                None => Err(UciParseError::PerftError),
            }
        },
    }
}

/// Reads a line of an engine's output.
pub fn parse_uci(line: String) -> (r: Result<UciMessage, UciParseError>)
    requires
        !line_incomplete(line@),
    ensures
        match r {
            Ok(m) => message_of(line@) == Ok::<MessageModel, UciParseError>(m@),
            Err(e) => message_of(line@) == Err::<MessageModel, UciParseError>(e),
        },
{
    let cs = chars_of(&line);
    let t = trim_chars(cs.as_slice());
    let toks = split_tokens(t.as_slice());
    let ghost v = char_views(toks@);
    let command: Vec<char> = if toks.len() > 0 {
        slice_chars(toks[0].as_slice(), 0, toks[0].len())
    } else {
        Vec::new()
    };
    proof {
        if toks@.len() > 0 {
            assert(toks@[0]@.subrange(0, toks@[0]@.len() as int) =~= toks@[0]@);
        }
        assert(command@ == command_of(line@));
    }
    if same_chars(command.as_slice(), &['i', 'n', 'f', 'o']) {
        Ok(info_line(&toks))
    } else if same_chars(command.as_slice(), &['u', 'c', 'i', 'o', 'k']) {
        Ok(UciMessage::UciOk)
    } else if same_chars(command.as_slice(), &['r', 'e', 'a', 'd', 'y', 'o', 'k']) {
        Ok(UciMessage::ReadyOk)
    } else if same_chars(command.as_slice(), &['o', 'p', 't', 'i', 'o', 'n']) {
        option_line(&toks)
    } else if same_chars(command.as_slice(), &['N', 'o', 'd', 'e', 's']) || same_chars(
        command.as_slice(),
        &['b', 'e', 's', 't', 'm', 'o', 'v', 'e'],
    ) {
        Ok(UciMessage::FinishedThinkingSignal)
    } else if command.len() > 0 && 97 <= (command[0] as u32) && (command[0] as u32) <= 104 {
        perft_line(&t)
    } else {
        Err(UciParseError::ParseError)
    }
}

/// Whether `parse_uci` reads `line`: every line but an `option` line that lacks a value its
/// type needs.
pub fn is_parsable(line: &String) -> (r: bool)
    ensures
        r == !line_incomplete(line@),
{
    let cs = chars_of(line);
    let t = trim_chars(cs.as_slice());
    let toks = split_tokens(t.as_slice());
    if !(toks.len() > 0 && same_chars(toks[0].as_slice(), &['o', 'p', 't', 'i', 'o', 'n'])) {
        proof {
            if toks@.len() > 0 {
                assert(command_of(line@) == toks@[0]@);
            } else {
                assert(command_of(line@) =~= Seq::<char>::empty());
            }
        }
        return true;
    }
    let default: [char; 7] = ['d', 'e', 'f', 'a', 'u', 'l', 't'];
    let name = value_text_of(&toks, &['n', 'a', 'm', 'e']);
    let kind = value_text_of(&toks, &['t', 'y', 'p', 'e']);
    if name.is_none() {
        return false;
    }
    let kind = match kind {
        Some(k) => k,
        None => { return false; },
    };
    let kc = chars_of(&kind);
    if same_chars(kc.as_slice(), &['c', 'h', 'e', 'c', 'k']) {
        value_bool_of(&toks, &default).is_some()
    } else if same_chars(kc.as_slice(), &['s', 'p', 'i', 'n']) {
        value_isize_of(&toks, &default).is_some() && value_isize_of(&toks, &['m', 'i', 'n']).is_some()
            && value_isize_of(&toks, &['m', 'a', 'x']).is_some()
    } else if same_chars(kc.as_slice(), &['c', 'o', 'm', 'b', 'o']) {
        let n = toks.len();
        value_text_of(&toks, &default).is_some() && !same_chars(toks[n - 1].as_slice(), &['v', 'a', 'r'])
    } else if same_chars(kc.as_slice(), &['s', 't', 'r', 'i', 'n', 'g']) {
        value_text_of(&toks, &default).is_some()
    } else {
        true
    }
}

} // verus!
