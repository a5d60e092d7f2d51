//! The cloze compiler: renders a sentence's active fragment sequence and
//! answer bank as one encoded quiz-question body string.
//!
//! Each fragment with a non-empty option list contributes a rendering: a
//! weighted gap token when the list's first option is a question, the first
//! option's literal answer text otherwise. Renderings are joined by single
//! spaces in fragment order. Reserved characters in author text are inserted
//! verbatim, a known limitation of the encoding.

use vstd::prelude::*;
use vstd::string::*;

use crate::sentence::AnswerOption;
use crate::sentence::Sentence;

verus! {

/// Why a sentence cannot be compiled. The bank is never silently truncated
/// or padded to fit.
#[derive(Debug, Clone, Copy, PartialEq, Eq, Structural)]
pub enum CompileError {
    /// The answer bank's length differs from the active version's fragment
    /// count.
    LengthMismatch,
}

/// The decimal digit characters.
pub open spec fn digit_char(d: int) -> char {
    if d == 0 {
        '0'
    } else if d == 1 {
        '1'
    } else if d == 2 {
        '2'
    } else if d == 3 {
        '3'
    } else if d == 4 {
        '4'
    } else if d == 5 {
        '5'
    } else if d == 6 {
        '6'
    } else if d == 7 {
        '7'
    } else if d == 8 {
        '8'
    } else {
        '9'
    }
}

/// The decimal numeral of a mark, most significant digit first, without
/// leading zeros.
pub open spec fn decimal_of(n: u8) -> Seq<char> {
    if n < 10 {
        seq![digit_char(n as int)]
    } else if n < 100 {
        seq![digit_char(n as int / 10), digit_char(n as int % 10)]
    } else {
        seq![
            digit_char(n as int / 100),
            digit_char((n as int / 10) % 10),
            digit_char(n as int % 10),
        ]
    }
}

/// One encoded answer alternative: `~%<mark>%<answer>#<feedback>`, the
/// answer and feedback text inserted verbatim.
pub open spec fn option_token(o: AnswerOption) -> Seq<char> {
    seq!['~', '%'] + decimal_of(o.mark) + seq!['%'] + o.answer@ + seq!['#'] + o.feedback@
}

/// The concatenated alternative tokens of one option list, in list order.
pub open spec fn gap_alternatives(opts: Seq<AnswerOption>) -> Seq<char>
    decreases opts.len(),
{
    if opts.len() == 0 {
        Seq::empty()
    } else {
        gap_alternatives(opts.drop_last()) + option_token(opts.last())
    }
}

/// A whole gap token: `{1:SHORTANSWER:` followed by the alternatives,
/// closed with `}`.
pub open spec fn gap_token(opts: Seq<AnswerOption>) -> Seq<char> {
    seq!['{', '1', ':', 'S', 'H', 'O', 'R', 'T', 'A', 'N', 'S', 'W', 'E', 'R', ':']
        + gap_alternatives(opts) + seq!['}']
}

/// What one fragment contributes to the question body: nothing when its
/// option list is empty; a gap token over all its options when the first
/// option is a question (the first entry's flag governs the whole list);
/// otherwise the first option's literal answer text.
pub open spec fn fragment_rendering(opts: Seq<AnswerOption>) -> Seq<char> {
    if opts.len() == 0 {
        Seq::empty()
    } else if opts[0].is_question {
        gap_token(opts)
    } else {
        opts[0].answer@
    }
}

/// Whether any fragment of the bank carries at least one option, and so
/// emits a rendering.
pub open spec fn emits(bank: Seq<Seq<AnswerOption>>) -> bool {
    exists|i: int| 0 <= i < bank.len() && bank[i].len() > 0
}

/// The question body: the renderings of the fragments whose option lists
/// are non-empty, in fragment order, joined by single spaces.
pub open spec fn body_of(bank: Seq<Seq<AnswerOption>>) -> Seq<char>
    decreases bank.len(),
{
    if bank.len() == 0 {
        Seq::empty()
    } else if bank.last().len() == 0 {
        body_of(bank.drop_last())
    } else if emits(bank.drop_last()) {
        body_of(bank.drop_last()) + seq![' '] + fragment_rendering(bank.last())
    } else {
        fragment_rendering(bank.last())
    }
}

/// A bank in which no fragment carries an option renders as the empty body.
proof fn lemma_silent_bank_empty(bank: Seq<Seq<AnswerOption>>)
    requires
        !emits(bank),
    ensures
        body_of(bank).len() == 0,
    decreases bank.len(),
{
    if bank.len() > 0 {
        assert(bank[bank.len() - 1].len() == 0);
        assert(!emits(bank.drop_last())) by {
            if emits(bank.drop_last()) {
                let j = choose|j: int|
                    0 <= j < bank.drop_last().len() && bank.drop_last()[j].len() > 0;
                assert(bank[j].len() > 0);
            }
        }
        lemma_silent_bank_empty(bank.drop_last());
    }
}

/// One decimal digit as text.
fn digit_str(d: u8) -> (r: &'static str)
    requires
        d < 10,
    ensures
        r@ == seq![digit_char(d as int)],
{
    let r: &'static str = if d == 0 {
        "0"
    } else if d == 1 {
        "1"
    } else if d == 2 {
        "2"
    } else if d == 3 {
        "3"
    } else if d == 4 {
        "4"
    } else if d == 5 {
        "5"
    } else if d == 6 {
        "6"
    } else if d == 7 {
        "7"
    } else if d == 8 {
        "8"
    } else {
        "9"
    };
    proof {
        reveal_strlit("0");
        reveal_strlit("1");
        reveal_strlit("2");
        reveal_strlit("3");
        reveal_strlit("4");
        reveal_strlit("5");
        reveal_strlit("6");
        reveal_strlit("7");
        reveal_strlit("8");
        reveal_strlit("9");
        assert(r@ =~= seq![digit_char(d as int)]);
    }
    r
}

/// A mark as its decimal numeral.
pub fn decimal_string(n: u8) -> (r: String)
    ensures
        r@ == decimal_of(n),
{
    let mut r = String::new();
    if n >= 100 {
        r.append(digit_str(n / 100));
        r.append(digit_str((n / 10) % 10));
        r.append(digit_str(n % 10));
    } else if n >= 10 {
        r.append(digit_str(n / 10));
        r.append(digit_str(n % 10));
    } else {
        r.append(digit_str(n));
    }
    proof {
        assert(r@ =~= decimal_of(n));
    }
    r
}

/// Encodes one option list as a single gap token holding every option as a
/// weighted alternative, in list order. Marks are emitted as literal
/// percentages; no normalization across the list is performed.
#[verifier::loop_isolation(false)]
pub fn moodle_shortanswer(answers: &Vec<AnswerOption>) -> (r: String)
    ensures
        r@ == gap_token(answers@),
{
    let mut body = String::new();
    let mut i: usize = 0;
    while i < answers.len()
        invariant
            i <= answers@.len(),
            body@ == gap_alternatives(answers@.take(i as int)),
        decreases answers@.len() - i,
    {
        body.append("~%");
        let mark_digits = decimal_string(answers[i].mark);
        body.append(mark_digits.as_str());
        body.append("%");
        body.append(answers[i].answer.as_str());
        body.append("#");
        body.append(answers[i].feedback.as_str());
        proof {
            reveal_strlit("~%");
            reveal_strlit("%");
            reveal_strlit("#");
            assert(answers@.take(i as int + 1).drop_last() =~= answers@.take(i as int));
            assert(answers@.take(i as int + 1).last() == answers@[i as int]);
            assert(body@ =~= gap_alternatives(answers@.take(i as int + 1)));
        }
        i = i + 1;
    }
    proof {
        assert(answers@.take(answers@.len() as int) =~= answers@);
    }
    let mut r = String::from_str("{1:SHORTANSWER:");
    r.append(body.as_str());
    r.append("}");
    proof {
        reveal_strlit("{1:SHORTANSWER:");
        reveal_strlit("}");
        assert(r@ =~= gap_token(answers@));
    }
    r
}

/// Renders the question body of a sentence from its active fragment
/// sequence and answer bank. A bank whose length differs from the active
/// fragment count is reported as a mismatch, never truncated or padded.
#[verifier::loop_isolation(false)]
pub fn compile(sentence: &Sentence) -> (r: Result<String, CompileError>)
    requires
        sentence.wf(),
    ensures
        sentence.bank().len() == sentence.active().len() ==> (r matches Ok(body) && body@
            == body_of(sentence.bank())),
        sentence.bank().len() != sentence.active().len() ==> r == Err::<String, CompileError>(
            CompileError::LengthMismatch,
        ),
{
    let n = sentence.splits[sentence.current_split].len();
    proof {
        assert(sentence.active() =~= crate::sentence::frags_of(
            sentence.splits@[sentence.current_split as int],
        ));
    }
    if sentence.answers.len() != n {
        return Err(CompileError::LengthMismatch);
    }
    let mut out = String::new();
    let mut emitted = false;
    let mut i: usize = 0;
    while i < n
        invariant
            i <= n,
            n == sentence.answers@.len(),
            out@ == body_of(sentence.bank().take(i as int)),
            emitted == emits(sentence.bank().take(i as int)),
        decreases n - i,
    {
        let ghost pre = sentence.bank().take(i as int);
        let ghost cur = sentence.bank().take(i as int + 1);
        proof {
            assert(cur.drop_last() =~= pre);
            assert(cur.last() == sentence.bank()[i as int]);
        }
        let opts = &sentence.answers[i];
        if opts.len() > 0 {
            if emitted {
                out.append(" ");
            } else {
                proof {
                    lemma_silent_bank_empty(pre);
                }
            }
            if opts[0].is_question {
                let token = moodle_shortanswer(opts);
                out.append(token.as_str());
            } else {
                out.append(opts[0].answer.as_str());
            }
            emitted = true;
            proof {
                reveal_strlit(" ");
                assert(emits(cur));
                assert(out@ =~= body_of(cur));
            }
        } else {
            proof {
                assert(emits(cur) == emits(pre)) by {
                    if emits(cur) {
                        let j = choose|j: int| 0 <= j < cur.len() && cur[j].len() > 0;
                        assert(pre[j].len() > 0);
                    }
                    if emits(pre) {
                        let j = choose|j: int| 0 <= j < pre.len() && pre[j].len() > 0;
                        assert(cur[j].len() > 0);
                    }
                }
                assert(out@ =~= body_of(cur));
            }
        }
        i = i + 1;
    }
    proof {
        assert(sentence.bank().take(sentence.bank().len() as int) =~= sentence.bank());
    }
    Ok(out)
}

} // verus!
