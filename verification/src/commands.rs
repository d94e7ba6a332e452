//! The debugger's command language: key handling for an editable
//! command line, tokenization, and the parser that turns a line into
//! a command.

use vstd::prelude::*;

use crate::cursor::Position;
use crate::io::is_ascii_digit;

verus! {

/// One key press, as the command surface understands it.
#[derive(PartialEq, Eq, Structural, Clone, Copy, Debug)]
pub enum Key {
    /// The left arrow.
    Left,
    /// The right arrow.
    Right,
    /// The backspace key.
    Backspace,
    /// The enter key.
    Enter,
    /// The delete key.
    Delete,
    /// The tab key.
    Tab,
    /// Shift and tab together.
    BackTab,
    /// A plain byte, shift already applied.
    Char(u8),
    /// Anything else.
    Other,
}

/// The words of `s` split at every space, empty words kept.
pub open spec fn split_words(s: Seq<u8>) -> Seq<Seq<u8>>
    decreases s.len(),
{
    if s.len() == 0 {
        seq![Seq::<u8>::empty()]
    } else {
        let pre = split_words(s.drop_last());
        if s.last() == 32 {
            pre.push(Seq::<u8>::empty())
        } else {
            pre.update(pre.len() - 1, pre.last().push(s.last()))
        }
    }
}

/// A split always yields at least one (possibly empty) word.
pub proof fn lemma_split_words_nonempty(s: Seq<u8>)
    ensures
        split_words(s).len() >= 1,
    decreases s.len(),
{
    if s.len() > 0 {
        lemma_split_words_nonempty(s.drop_last());
    }
}

/// Splits a line into words at spaces, keeping empty words.
pub fn tokenize(bytes: &[u8]) -> (r: Vec<Vec<u8>>)
    ensures
        r@.map(|i: int, w: Vec<u8>| w@) == split_words(bytes@),
{
    let ghost sq = bytes@;
    let mut out: Vec<Vec<u8>> = Vec::new();
    out.push(Vec::new());
    let mut i: usize = 0;
    while i < bytes.len()
        invariant
            0 <= i <= sq.len(),
            sq == bytes@,
            out@.len() >= 1,
            out@.map(|t: int, w: Vec<u8>| w@) == split_words(sq.take(i as int)),
        decreases sq.len() - i,
    {
        proof {
            assert(sq.take(i + 1).drop_last() =~= sq.take(i as int));
            assert(sq.take(i + 1).last() == sq[i as int]);
            lemma_split_words_nonempty(sq.take(i as int));
        }
        let b = bytes[i];
        if b == 32 {
            out.push(Vec::new());
            proof {
                assert(out@.map(|t: int, w: Vec<u8>| w@) =~= split_words(sq.take(i + 1)));
            }
        } else {
            let last = out.len() - 1;
            let mut w = out.remove(last);
            w.push(b);
            out.push(w);
            proof {
                assert(out@.map(|t: int, w2: Vec<u8>| w2@) =~= split_words(sq.take(i + 1)));
            }
        }
        i = i + 1;
    }
    proof {
        assert(sq.take(sq.len() as int) =~= sq);
    }
    out
}

/// The decimal value of a digit string, most significant first.
pub open spec fn dec_value(s: Seq<u8>) -> int
    decreases s.len(),
{
    if s.len() == 0 {
        0int
    } else {
        dec_value(s.drop_last()) * 10 + (s.last() - 48)
    }
}

/// Whether every byte of `s` is a digit.
pub open spec fn all_digits(s: Seq<u8>) -> bool {
    forall|i: int| 0 <= i < s.len() ==> is_ascii_digit(#[trigger] s[i])
}

/// A digit string's value only grows as digits arrive.
proof fn lemma_dec_value_grows(s: Seq<u8>, i: int)
    requires
        0 <= i <= s.len(),
        all_digits(s),
    ensures
        0 <= dec_value(s.take(i)) <= dec_value(s),
    decreases s.len() - i,
{
    if i == s.len() {
        assert(s.take(i) == s);
        lemma_dec_value_nonneg(s);
    } else {
        lemma_dec_value_grows(s, i + 1);
        assert(s.take(i + 1).drop_last() =~= s.take(i));
        assert(s.take(i + 1).last() == s[i]);
        lemma_dec_value_nonneg(s.take(i));
        assert(dec_value(s.take(i + 1)) == dec_value(s.take(i)) * 10 + (s[i] - 48));
        assert(dec_value(s.take(i)) * 10 >= dec_value(s.take(i))) by (nonlinear_arith)
            requires
                dec_value(s.take(i)) >= 0,
        ;
    }
}

proof fn lemma_dec_value_nonneg(s: Seq<u8>)
    requires
        all_digits(s),
    ensures
        dec_value(s) >= 0,
    decreases s.len(),
{
    if s.len() > 0 {
        assert(all_digits(s.drop_last())) by {
            assert(forall|i: int|
                0 <= i < s.drop_last().len() ==> s.drop_last()[i] == #[trigger] s[i]);
        }
        lemma_dec_value_nonneg(s.drop_last());
        assert(dec_value(s.drop_last()) * 10 >= 0) by (nonlinear_arith)
            requires
                dec_value(s.drop_last()) >= 0,
        ;
    }
}

/// Reads a 16-bit count from a word: every byte must be a digit and
/// the value must fit.
pub fn parse_u16(bytes: &[u8]) -> (r: Option<u16>)
    ensures
        (bytes@.len() > 0 && all_digits(bytes@) && dec_value(bytes@) <= 0xFFFF) ==> r == Some(
            dec_value(bytes@) as u16,
        ),
        !(bytes@.len() > 0 && all_digits(bytes@) && dec_value(bytes@) <= 0xFFFF) ==> r
            == None::<u16>,
{
    if bytes.len() == 0 {
        return None;
    }
    let mut acc: u32 = 0;
    let mut i: usize = 0;
    while i < bytes.len()
        invariant
            0 <= i <= bytes@.len(),
            bytes@.len() > 0,
            forall|t: int| 0 <= t < i ==> is_ascii_digit(#[trigger] bytes@[t]),
            acc as int == dec_value(bytes@.take(i as int)),
            acc <= 0xFFFF,
        decreases bytes@.len() - i,
    {
        let b = bytes[i];
        if b < 48 || b > 57 {
            return None;
        }
        proof {
            assert(bytes@.take(i + 1).drop_last() =~= bytes@.take(i as int));
            assert(bytes@.take(i + 1).last() == bytes@[i as int]);
        }
        acc = acc * 10 + ((b - 48) as u32);
        if acc > 0xFFFF {
            proof {
                assert(all_digits(bytes@) ==> dec_value(bytes@) > 0xFFFF) by {
                    if all_digits(bytes@) {
                        lemma_dec_value_grows(bytes@, i + 1);
                    }
                }
            }
            return None;
        }
        i = i + 1;
    }
    proof {
        assert(bytes@.take(bytes@.len() as int) =~= bytes@);
    }
    Some(acc as u16)
}

/// One parsed debugger command.
#[derive(PartialEq, Eq, Clone, Debug)]
pub enum Command {
    /// Show the help text.
    Help,
    /// Load a new program from a path.
    Load {
        /// The path to load.
        path: Vec<u8>,
    },
    /// Take a number of steps.
    Step {
        /// How many steps.
        n: u16,
    },
    /// Run until a breakpoint or the end.
    Run,
    /// Pause execution.
    Pause,
    /// Toggle a breakpoint.
    Breakpoint {
        /// Where to toggle it.
        pos: Position,
    },
    /// Leave the debugger.
    Quit,
}

/// Why a command line was rejected. None of these are fatal: they are
/// shown in the output area.
#[derive(PartialEq, Eq, Clone, Debug)]
pub enum CommandError {
    /// More words followed the command than it takes.
    TooManyArguments {
        /// How many arguments the command accepts.
        expected: u16,
        /// The extra words found.
        found: Vec<Vec<u8>>,
    },
    /// The command needs arguments that are not there, or an argument
    /// did not parse.
    TooFewArguments {
        /// How many arguments the command accepts.
        expected: u16,
    },
    /// The first word is no known command alias.
    UnknownCommand {
        /// The unrecognised word.
        arg: Vec<u8>,
    },
}

/// No two command aliases read the same.
pub proof fn lemma_keywords_distinct()
    ensures
        kw_h() != kw_help(),
        kw_h() != kw_r(),
        kw_h() != kw_run(),
        kw_h() != kw_p(),
        kw_h() != kw_pause(),
        kw_h() != kw_q(),
        kw_h() != kw_quit(),
        kw_h() != kw_s(),
        kw_h() != kw_step(),
        kw_h() != kw_l(),
        kw_h() != kw_load(),
        kw_h() != kw_b(),
        kw_h() != kw_breakpoint(),
        kw_help() != kw_r(),
        kw_help() != kw_run(),
        kw_help() != kw_p(),
        kw_help() != kw_pause(),
        kw_help() != kw_q(),
        kw_help() != kw_quit(),
        kw_help() != kw_s(),
        kw_help() != kw_step(),
        kw_help() != kw_l(),
        kw_help() != kw_load(),
        kw_help() != kw_b(),
        kw_help() != kw_breakpoint(),
        kw_r() != kw_run(),
        kw_r() != kw_p(),
        kw_r() != kw_pause(),
        kw_r() != kw_q(),
        kw_r() != kw_quit(),
        kw_r() != kw_s(),
        kw_r() != kw_step(),
        kw_r() != kw_l(),
        kw_r() != kw_load(),
        kw_r() != kw_b(),
        kw_r() != kw_breakpoint(),
        kw_run() != kw_p(),
        kw_run() != kw_pause(),
        kw_run() != kw_q(),
        kw_run() != kw_quit(),
        kw_run() != kw_s(),
        kw_run() != kw_step(),
        kw_run() != kw_l(),
        kw_run() != kw_load(),
        kw_run() != kw_b(),
        kw_run() != kw_breakpoint(),
        kw_p() != kw_pause(),
        kw_p() != kw_q(),
        kw_p() != kw_quit(),
        kw_p() != kw_s(),
        kw_p() != kw_step(),
        kw_p() != kw_l(),
        kw_p() != kw_load(),
        kw_p() != kw_b(),
        kw_p() != kw_breakpoint(),
        kw_pause() != kw_q(),
        kw_pause() != kw_quit(),
        kw_pause() != kw_s(),
        kw_pause() != kw_step(),
        kw_pause() != kw_l(),
        kw_pause() != kw_load(),
        kw_pause() != kw_b(),
        kw_pause() != kw_breakpoint(),
        kw_q() != kw_quit(),
        kw_q() != kw_s(),
        kw_q() != kw_step(),
        kw_q() != kw_l(),
        kw_q() != kw_load(),
        kw_q() != kw_b(),
        kw_q() != kw_breakpoint(),
        kw_quit() != kw_s(),
        kw_quit() != kw_step(),
        kw_quit() != kw_l(),
        kw_quit() != kw_load(),
        kw_quit() != kw_b(),
        kw_quit() != kw_breakpoint(),
        kw_s() != kw_step(),
        kw_s() != kw_l(),
        kw_s() != kw_load(),
        kw_s() != kw_b(),
        kw_s() != kw_breakpoint(),
        kw_step() != kw_l(),
        kw_step() != kw_load(),
        kw_step() != kw_b(),
        kw_step() != kw_breakpoint(),
        kw_l() != kw_load(),
        kw_l() != kw_b(),
        kw_l() != kw_breakpoint(),
        kw_load() != kw_b(),
        kw_load() != kw_breakpoint(),
        kw_b() != kw_breakpoint(),
{
    assert(kw_h().len() == 1);
    assert(kw_h()[0] == 104);
    assert(kw_help().len() == 4);
    assert(kw_help()[0] == 104);
    assert(kw_r().len() == 1);
    assert(kw_r()[0] == 114);
    assert(kw_run().len() == 3);
    assert(kw_run()[0] == 114);
    assert(kw_p().len() == 1);
    assert(kw_p()[0] == 112);
    assert(kw_pause().len() == 5);
    assert(kw_pause()[0] == 112);
    assert(kw_q().len() == 1);
    assert(kw_q()[0] == 113);
    assert(kw_quit().len() == 4);
    assert(kw_quit()[0] == 113);
    assert(kw_s().len() == 1);
    assert(kw_s()[0] == 115);
    assert(kw_step().len() == 4);
    assert(kw_step()[0] == 115);
    assert(kw_l().len() == 1);
    assert(kw_l()[0] == 108);
    assert(kw_load().len() == 4);
    assert(kw_load()[0] == 108);
    assert(kw_b().len() == 1);
    assert(kw_b()[0] == 98);
    assert(kw_breakpoint().len() == 10);
    assert(kw_breakpoint()[0] == 98);
}

/// Whether a word is one of the two aliases of a command.
pub open spec fn word_is(w: Seq<u8>, short: Seq<u8>, long: Seq<u8>) -> bool {
    w == short || w == long
}

/// The bytes of the alias `h`.
pub open spec fn kw_h() -> Seq<u8> {
    seq![104u8]
}

/// The bytes of the alias `help`.
pub open spec fn kw_help() -> Seq<u8> {
    seq![104u8, 101u8, 108u8, 112u8]
}

/// The bytes of the alias `r`.
pub open spec fn kw_r() -> Seq<u8> {
    seq![114u8]
}

/// The bytes of the alias `run`.
pub open spec fn kw_run() -> Seq<u8> {
    seq![114u8, 117u8, 110u8]
}

/// The bytes of the alias `p`.
pub open spec fn kw_p() -> Seq<u8> {
    seq![112u8]
}

/// The bytes of the alias `pause`.
pub open spec fn kw_pause() -> Seq<u8> {
    seq![112u8, 97u8, 117u8, 115u8, 101u8]
}

/// The bytes of the alias `q`.
pub open spec fn kw_q() -> Seq<u8> {
    seq![113u8]
}

/// The bytes of the alias `quit`.
pub open spec fn kw_quit() -> Seq<u8> {
    seq![113u8, 117u8, 105u8, 116u8]
}

/// The bytes of the alias `s`.
pub open spec fn kw_s() -> Seq<u8> {
    seq![115u8]
}

/// The bytes of the alias `step`.
pub open spec fn kw_step() -> Seq<u8> {
    seq![115u8, 116u8, 101u8, 112u8]
}

/// The bytes of the alias `l`.
pub open spec fn kw_l() -> Seq<u8> {
    seq![108u8]
}

/// The bytes of the alias `load`.
pub open spec fn kw_load() -> Seq<u8> {
    seq![108u8, 111u8, 97u8, 100u8]
}

/// The bytes of the alias `b`.
pub open spec fn kw_b() -> Seq<u8> {
    seq![98u8]
}

/// The bytes of the alias `breakpoint`.
pub open spec fn kw_breakpoint() -> Seq<u8> {
    seq![98u8, 114u8, 101u8, 97u8, 107u8, 112u8, 111u8, 105u8, 110u8, 116u8]
}

/// Whether a word is `h` or `help`.
fn is_help(w: &Vec<u8>) -> (r: bool)
    ensures
        r == word_is(w@, kw_h(), kw_help()),
{
    if w.len() == 1 {
        let r = w[0] == 104;
        proof {
            if r {
                assert(w@ =~= kw_h());
            }
        }
        r
    } else if w.len() == 4 {
        let r = w[0] == 104 && w[1] == 101 && w[2] == 108 && w[3] == 112;
        proof {
            if r {
                assert(w@ =~= kw_help());
            }
        }
        r
    } else {
        false
    }
}

/// Whether a word is `r` or `run`.
fn is_run(w: &Vec<u8>) -> (r: bool)
    ensures
        r == word_is(w@, kw_r(), kw_run()),
{
    if w.len() == 1 {
        let r = w[0] == 114;
        proof {
            if r {
                assert(w@ =~= kw_r());
            }
        }
        r
    } else if w.len() == 3 {
        let r = w[0] == 114 && w[1] == 117 && w[2] == 110;
        proof {
            if r {
                assert(w@ =~= kw_run());
            }
        }
        r
    } else {
        false
    }
}

/// Whether a word is `p` or `pause`.
fn is_pause(w: &Vec<u8>) -> (r: bool)
    ensures
        r == word_is(w@, kw_p(), kw_pause()),
{
    if w.len() == 1 {
        let r = w[0] == 112;
        proof {
            if r {
                assert(w@ =~= kw_p());
            }
        }
        r
    } else if w.len() == 5 {
        let r = w[0] == 112 && w[1] == 97 && w[2] == 117 && w[3] == 115 && w[4] == 101;
        proof {
            if r {
                assert(w@ =~= kw_pause());
            }
        }
        r
    } else {
        false
    }
}

/// Whether a word is `q` or `quit`.
fn is_quit(w: &Vec<u8>) -> (r: bool)
    ensures
        r == word_is(w@, kw_q(), kw_quit()),
{
    if w.len() == 1 {
        let r = w[0] == 113;
        proof {
            if r {
                assert(w@ =~= kw_q());
            }
        }
        r
    } else if w.len() == 4 {
        let r = w[0] == 113 && w[1] == 117 && w[2] == 105 && w[3] == 116;
        proof {
            if r {
                assert(w@ =~= kw_quit());
            }
        }
        r
    } else {
        false
    }
}

/// Whether a word is `s` or `step`.
fn is_step(w: &Vec<u8>) -> (r: bool)
    ensures
        r == word_is(w@, kw_s(), kw_step()),
{
    if w.len() == 1 {
        let r = w[0] == 115;
        proof {
            if r {
                assert(w@ =~= kw_s());
            }
        }
        r
    } else if w.len() == 4 {
        let r = w[0] == 115 && w[1] == 116 && w[2] == 101 && w[3] == 112;
        proof {
            if r {
                assert(w@ =~= kw_step());
            }
        }
        r
    } else {
        false
    }
}

/// Whether a word is `l` or `load`.
fn is_load(w: &Vec<u8>) -> (r: bool)
    ensures
        r == word_is(w@, kw_l(), kw_load()),
{
    if w.len() == 1 {
        let r = w[0] == 108;
        proof {
            if r {
                assert(w@ =~= kw_l());
            }
        }
        r
    } else if w.len() == 4 {
        let r = w[0] == 108 && w[1] == 111 && w[2] == 97 && w[3] == 100;
        proof {
            if r {
                assert(w@ =~= kw_load());
            }
        }
        r
    } else {
        false
    }
}

/// Whether a word is `b` or `breakpoint`.
fn is_breakpoint(w: &Vec<u8>) -> (r: bool)
    ensures
        r == word_is(w@, kw_b(), kw_breakpoint()),
{
    if w.len() == 1 {
        let r = w[0] == 98;
        proof {
            if r {
                assert(w@ =~= kw_b());
            }
        }
        r
    } else if w.len() == 10 {
        let r = w[0] == 98 && w[1] == 114 && w[2] == 101 && w[3] == 97 && w[4] == 107 && w[5] == 112 && w[6] == 111 && w[7] == 105 && w[8] == 110 && w[9] == 116;
        proof {
            if r {
                assert(w@ =~= kw_breakpoint());
            }
        }
        r
    } else {
        false
    }
}


/// Whether a breakpoint coordinate word parses: digits valuing at
/// most 255.
pub open spec fn coord_ok(w: Seq<u8>) -> bool {
    w.len() > 0 && all_digits(w) && dec_value(w) <= 255
}

/// Whether a step count word parses: digits valuing at most 65535.
pub open spec fn count_ok(w: Seq<u8>) -> bool {
    w.len() > 0 && all_digits(w) && dec_value(w) <= 0xFFFF
}

/// Whether a tokenized line is one the parser turns away: an unknown
/// alias, a wrong number of words, or a count or coordinate that does
/// not read as a number in range.
pub open spec fn line_rejected(ws: Seq<Seq<u8>>) -> bool {
    let w0 = ws[0];
    if w0 == Seq::<u8>::empty() {
        false
    } else if word_is(w0, kw_h(), kw_help()) || word_is(w0, kw_r(), kw_run()) || word_is(
        w0,
        kw_p(),
        kw_pause(),
    ) || word_is(w0, kw_q(), kw_quit()) {
        ws.len() > 1
    } else if word_is(w0, kw_s(), kw_step()) {
        ws.len() > 2 || (ws.len() == 2 && !count_ok(ws[1]))
    } else if word_is(w0, kw_l(), kw_load()) {
        ws.len() != 2
    } else if word_is(w0, kw_b(), kw_breakpoint()) {
        ws.len() != 3 || !coord_ok(ws[1]) || !coord_ok(ws[2])
    } else {
        true
    }
}

/// What parsing a tokenized line must yield, over the words `ws`:
/// nothing for an empty line, the command the words name, or the way
/// they fail to name one.
pub open spec fn parse_outcome(ws: Seq<Seq<u8>>, r: Result<Option<Command>, CommandError>) -> bool {
    let extra = ws.len() > 1;
    &&& (ws[0] == Seq::<u8>::empty() ==> r == Ok::<Option<Command>, CommandError>(
        None::<Command>,
    ))
    &&& (word_is(ws[0], kw_h(), kw_help()) ==> (if !extra {
        r == Ok::<Option<Command>, CommandError>(Some(Command::Help))
    } else {
        r is Err && r.unwrap_err() is TooManyArguments
    }))
    &&& (word_is(ws[0], kw_r(), kw_run()) ==> (if !extra {
        r == Ok::<Option<Command>, CommandError>(Some(Command::Run))
    } else {
        r is Err && r.unwrap_err() is TooManyArguments
    }))
    &&& (word_is(ws[0], kw_p(), kw_pause()) ==> (if !extra {
        r == Ok::<Option<Command>, CommandError>(Some(Command::Pause))
    } else {
        r is Err && r.unwrap_err() is TooManyArguments
    }))
    &&& (word_is(ws[0], kw_q(), kw_quit()) ==> (if !extra {
        r == Ok::<Option<Command>, CommandError>(Some(Command::Quit))
    } else {
        r is Err && r.unwrap_err() is TooManyArguments
    }))
    &&& (word_is(ws[0], kw_s(), kw_step()) ==> (if ws.len() == 1 {
        r == Ok::<Option<Command>, CommandError>(Some(Command::Step { n: 1u16 }))
    } else if ws.len() == 2 {
        if count_ok(ws[1]) {
            r == Ok::<Option<Command>, CommandError>(
                Some(Command::Step { n: dec_value(ws[1]) as u16 }),
            )
        } else {
            r is Err && r.unwrap_err() is TooFewArguments
        }
    } else {
        r is Err && r.unwrap_err() is TooManyArguments
    }))
    &&& (word_is(ws[0], kw_l(), kw_load()) ==> (if ws.len() == 1 {
        r is Err && r.unwrap_err() is TooFewArguments
    } else if ws.len() == 2 {
        r is Ok && r.unwrap() is Some && r.unwrap().unwrap() is Load && r.unwrap().unwrap()->Load_path@ == ws[1]
    } else {
        r is Err && r.unwrap_err() is TooManyArguments
    }))
    &&& (word_is(ws[0], kw_b(), kw_breakpoint()) ==> (if ws.len() == 3 {
        if coord_ok(ws[1]) && coord_ok(ws[2]) {
            r == Ok::<Option<Command>, CommandError>(
                Some(
                    Command::Breakpoint {
                        pos: Position {
                            x: dec_value(ws[1]) as u8,
                            y: dec_value(ws[2]) as u8,
                        },
                    },
                ),
            )
        } else {
            r is Err && r.unwrap_err() is TooFewArguments
        }
    } else if ws.len() < 3 {
        r is Err && r.unwrap_err() is TooFewArguments
    } else {
        r is Err && r.unwrap_err() is TooManyArguments
    }))
    &&& (!(ws[0] == Seq::<u8>::empty()) && !word_is(ws[0], kw_h(), kw_help()) && !word_is(
        ws[0],
        kw_r(),
        kw_run(),
    ) && !word_is(ws[0], kw_p(), kw_pause()) && !word_is(ws[0], kw_q(), kw_quit()) && !word_is(
        ws[0],
        kw_s(),
        kw_step(),
    ) && !word_is(ws[0], kw_l(), kw_load()) && !word_is(ws[0], kw_b(), kw_breakpoint())
        ==> r is Err && r.unwrap_err() is UnknownCommand && r.unwrap_err()->UnknownCommand_arg@ == ws[0])
}

/// What parsing a raw line must yield: the outcome over its words.
pub open spec fn parse_of(s: Seq<u8>, r: Result<Option<Command>, CommandError>) -> bool {
    parse_outcome(split_words(s), r)
}

/// Parses a tokenized command line: `Ok(None)` for an empty line, a
/// command when the words fit one, and otherwise which way they do
/// not. A count or coordinate that does not parse reads as missing.
pub fn parse_tokens(tokens: Vec<Vec<u8>>) -> (r: Result<Option<Command>, CommandError>)
    requires
        tokens@.len() >= 1,
    ensures
        parse_outcome(tokens@.map(|i: int, w: Vec<u8>| w@), r),
{
    proof {
        lemma_keywords_distinct();
        let ws = tokens@.map(|i: int, w: Vec<u8>| w@);
        assert(forall|k: int| 0 <= k < tokens@.len() ==> #[trigger] ws[k] == tokens@[k]@);
    }
    let n = tokens.len();
    let first = &tokens[0];
    if first.len() == 0 {
        proof {
            assert(tokens@[0]@ =~= Seq::<u8>::empty());
        }
        return Ok(None);
    }
    if is_help(first) {
        if n > 1 {
            return Err(too_many(tokens, 0));
        }
        return Ok(Some(Command::Help));
    }
    if is_run(first) {
        if n > 1 {
            return Err(too_many(tokens, 0));
        }
        return Ok(Some(Command::Run));
    }
    if is_pause(first) {
        if n > 1 {
            return Err(too_many(tokens, 0));
        }
        return Ok(Some(Command::Pause));
    }
    if is_quit(first) {
        if n > 1 {
            return Err(too_many(tokens, 0));
        }
        return Ok(Some(Command::Quit));
    }
    if is_step(first) {
        if n == 1 {
            return Ok(Some(Command::Step { n: 1 }));
        }
        if n == 2 {
            return match parse_u16(tokens[1].as_slice()) {
                Some(v) => Ok(Some(Command::Step { n: v })),
                None => Err(CommandError::TooFewArguments { expected: 1 }),
            };
        }
        return Err(too_many(tokens, 1));
    }
    if is_load(first) {
        if n == 1 {
            return Err(CommandError::TooFewArguments { expected: 1 });
        }
        if n > 2 {
            return Err(too_many(tokens, 1));
        }
        let mut path: Vec<u8> = Vec::new();
        let second = &tokens[1];
        let mut k: usize = 0;
        while k < second.len()
            invariant
                0 <= k <= second@.len(),
                path@ == second@.take(k as int),
            decreases second@.len() - k,
        {
            path.push(second[k]);
            proof {
                assert(path@ =~= second@.take(k + 1));
            }
            k = k + 1;
        }
        proof {
            assert(path@ =~= second@);
        }
        return Ok(Some(Command::Load { path }));
    }
    if is_breakpoint(first) {
        if n < 3 {
            return Err(CommandError::TooFewArguments { expected: 2 });
        }
        if n > 3 {
            return Err(too_many(tokens, 2));
        }
        let x = match parse_u16(tokens[1].as_slice()) {
            Some(v) => {
                proof {
                    let w = tokens@.map(|i: int, t: Vec<u8>| t@)[1];
                    lemma_dec_value_nonneg(w);
                }
                if v > 255 {
                    return Err(CommandError::TooFewArguments { expected: 2 });
                }
                v as u8
            },
            None => {
                proof {
                    let w = tokens@.map(|i: int, t: Vec<u8>| t@)[1];
                    if w.len() > 0 && all_digits(w) {
                        lemma_dec_value_nonneg(w);
                    }
                }
                return Err(CommandError::TooFewArguments { expected: 2 });
            },
        };
        let y = match parse_u16(tokens[2].as_slice()) {
            Some(v) => {
                proof {
                    let w = tokens@.map(|i: int, t: Vec<u8>| t@)[2];
                    lemma_dec_value_nonneg(w);
                }
                if v > 255 {
                    return Err(CommandError::TooFewArguments { expected: 2 });
                }
                v as u8
            },
            None => {
                proof {
                    let w = tokens@.map(|i: int, t: Vec<u8>| t@)[2];
                    if w.len() > 0 && all_digits(w) {
                        lemma_dec_value_nonneg(w);
                    }
                }
                return Err(CommandError::TooFewArguments { expected: 2 });
            },
        };
        return Ok(Some(Command::Breakpoint { pos: Position { x, y } }));
    }
    let mut arg: Vec<u8> = Vec::new();
    let mut k: usize = 0;
    while k < first.len()
        invariant
            0 <= k <= first@.len(),
            arg@ == first@.take(k as int),
        decreases first@.len() - k,
    {
        arg.push(first[k]);
        proof {
            assert(arg@ =~= first@.take(k + 1));
        }
        k = k + 1;
    }
    proof {
        assert(arg@ =~= first@);
    }
    Err(CommandError::UnknownCommand { arg })
}

/// Collects the words beyond what a command accepts into the error
/// that reports them.
fn too_many(tokens: Vec<Vec<u8>>, expected: u16) -> (r: CommandError)
    requires
        tokens@.len() >= 1,
    ensures
        r is TooManyArguments,
        r->TooManyArguments_expected == expected,
{
    let mut found: Vec<Vec<u8>> = Vec::new();
    let mut i: usize = 1 + expected as usize;
    while i < tokens.len()
        decreases tokens@.len() - i,
    {
        let mut w: Vec<u8> = Vec::new();
        let t = &tokens[i];
        let mut k: usize = 0;
        while k < t.len()
            invariant
                0 <= k <= t@.len(),
            decreases t@.len() - k,
        {
            w.push(t[k]);
            k = k + 1;
        }
        found.push(w);
        i = i + 1;
    }
    CommandError::TooManyArguments { expected, found }
}

} // verus!
