//! The answer bank: per-fragment lists of graded answer alternatives,
//! keyed by fragment index of the active version, and the completion gate.

use vstd::prelude::*;
use vstd::string::*;

use crate::sentence::AnswerOption;
use crate::sentence::EditError;
use crate::sentence::Sentence;

verus! {

/// The fixed feedback text that marks an option as "not a question".
pub open spec fn non_question_feedback() -> Seq<char> {
    "###Not a question###"@
}

/// Transitions a sentence into answer assignment: the answer bank is freshly
/// sized to the active version's fragment count, one empty option list per
/// fragment. Previously entered answers are discarded, not migrated.
#[verifier::loop_isolation(false)]
pub fn process_question(sentence: &mut Sentence)
    requires
        old(sentence).wf(),
    ensures
        final(sentence).wf(),
        final(sentence).initial_sentence == old(sentence).initial_sentence,
        final(sentence).splits == old(sentence).splits,
        final(sentence).current_split == old(sentence).current_split,
        final(sentence).completed == old(sentence).completed,
        final(sentence).bank().len() == old(sentence).active().len(),
        forall|i: int|
            0 <= i < final(sentence).bank().len() ==> (#[trigger] final(sentence).bank()[i]).len()
                == 0,
{
    let n = sentence.splits[sentence.current_split].len();
    let mut fresh: Vec<Vec<AnswerOption>> = Vec::new();
    let mut k: usize = 0;
    while k < n
        invariant
            k <= n,
            fresh@.len() == k,
            forall|j: int| 0 <= j < k ==> (#[trigger] fresh@[j])@.len() == 0,
        decreases n - k,
    {
        let empty_list: Vec<AnswerOption> = Vec::new();
        fresh.push(empty_list);
        k = k + 1;
    }
    sentence.answers = fresh;
    proof {
        assert(sentence.versions() =~= old(sentence).versions());
    }
}

/// Appends an answer alternative to the option list of fragment `idx`. An
/// `idx` beyond the bank is an invalid index and leaves the state unchanged.
pub fn add_answer(sentence: &mut Sentence, idx: usize, option: AnswerOption) -> (r: Result<
    (),
    EditError,
>)
    ensures
        final(sentence).initial_sentence == old(sentence).initial_sentence,
        final(sentence).splits == old(sentence).splits,
        final(sentence).current_split == old(sentence).current_split,
        final(sentence).completed == old(sentence).completed,
        idx < old(sentence).bank().len() ==> {
            &&& r is Ok
            &&& final(sentence).bank() =~= old(sentence).bank().update(
                idx as int,
                old(sentence).bank()[idx as int].push(option),
            )
        },
        idx >= old(sentence).bank().len() ==> {
            &&& r == Err::<(), EditError>(EditError::InvalidIndex)
            &&& *final(sentence) == *old(sentence)
        },
{
    if idx >= sentence.answers.len() {
        return Err(EditError::InvalidIndex);
    }
    let mut inner = sentence.answers.remove(idx);
    inner.push(option);
    sentence.answers.insert(idx, inner);
    proof {
        assert(final(sentence).bank() =~= old(sentence).bank().update(
            idx as int,
            old(sentence).bank()[idx as int].push(option),
        ));
    }
    Ok(())
}

/// Replaces the fields of the addressed option with the given ones. Any edit
/// through this path makes the option a graded alternative again:
/// `is_question` is forced to true. An index out of range in either
/// dimension is invalid and leaves the state unchanged.
pub fn edit_answer(
    sentence: &mut Sentence,
    idx: usize,
    opt: usize,
    mark: u8,
    answer: String,
    feedback: String,
) -> (r: Result<(), EditError>)
    ensures
        final(sentence).initial_sentence == old(sentence).initial_sentence,
        final(sentence).splits == old(sentence).splits,
        final(sentence).current_split == old(sentence).current_split,
        final(sentence).completed == old(sentence).completed,
        idx < old(sentence).bank().len() && opt < old(sentence).bank()[idx as int].len() ==> {
            &&& r is Ok
            &&& final(sentence).bank() =~= old(sentence).bank().update(
                idx as int,
                old(sentence).bank()[idx as int].update(
                    opt as int,
                    AnswerOption { is_question: true, mark, answer, feedback },
                ),
            )
        },
        !(idx < old(sentence).bank().len() && opt < old(sentence).bank()[idx as int].len()) ==> {
            &&& r == Err::<(), EditError>(EditError::InvalidIndex)
            &&& *final(sentence) == *old(sentence)
        },
{
    if idx >= sentence.answers.len() {
        return Err(EditError::InvalidIndex);
    }
    if opt >= sentence.answers[idx].len() {
        return Err(EditError::InvalidIndex);
    }
    let mut inner = sentence.answers.remove(idx);
    inner.set(opt, AnswerOption { is_question: true, mark, answer, feedback });
    sentence.answers.insert(idx, inner);
    proof {
        assert(final(sentence).bank() =~= old(sentence).bank().update(
            idx as int,
            old(sentence).bank()[idx as int].update(
                opt as int,
                AnswerOption { is_question: true, mark, answer, feedback },
            ),
        ));
    }
    Ok(())
}

/// Designates the addressed option as literal text rather than a gap:
/// `is_question` becomes false, the mark is forced to 0 and the feedback to
/// the fixed non-question marker; the answer text is kept. An index out of
/// range in either dimension is invalid and leaves the state unchanged.
pub fn mark_non_question(sentence: &mut Sentence, idx: usize, opt: usize) -> (r: Result<
    (),
    EditError,
>)
    ensures
        final(sentence).initial_sentence == old(sentence).initial_sentence,
        final(sentence).splits == old(sentence).splits,
        final(sentence).current_split == old(sentence).current_split,
        final(sentence).completed == old(sentence).completed,
        idx < old(sentence).bank().len() && opt < old(sentence).bank()[idx as int].len() ==> {
            &&& r is Ok
            &&& final(sentence).bank().len() == old(sentence).bank().len()
            &&& forall|j: int|
                0 <= j < old(sentence).bank().len() && j != idx ==> final(sentence).bank()[j]
                    == old(sentence).bank()[j]
            &&& final(sentence).bank()[idx as int].len() == old(sentence).bank()[idx as int].len()
            &&& forall|q: int|
                0 <= q < old(sentence).bank()[idx as int].len() && q != opt
                    ==> final(sentence).bank()[idx as int][q] == old(sentence).bank()[idx as int][q]
            &&& !final(sentence).bank()[idx as int][opt as int].is_question
            &&& final(sentence).bank()[idx as int][opt as int].mark == 0
            &&& final(sentence).bank()[idx as int][opt as int].answer == old(sentence).bank()[idx as int][opt as int].answer
            &&& final(sentence).bank()[idx as int][opt as int].feedback@ == non_question_feedback()
        },
        !(idx < old(sentence).bank().len() && opt < old(sentence).bank()[idx as int].len()) ==> {
            &&& r == Err::<(), EditError>(EditError::InvalidIndex)
            &&& *final(sentence) == *old(sentence)
        },
{
    if idx >= sentence.answers.len() {
        return Err(EditError::InvalidIndex);
    }
    if opt >= sentence.answers[idx].len() {
        return Err(EditError::InvalidIndex);
    }
    let kept = sentence.answers[idx][opt].answer.clone();
    let replaced = AnswerOption {
        is_question: false,
        mark: 0,
        answer: kept,
        feedback: String::from_str("###Not a question###"),
    };
    let mut inner = sentence.answers.remove(idx);
    inner.set(opt, replaced);
    sentence.answers.insert(idx, inner);
    proof {
        assert(final(sentence).bank() =~= old(sentence).bank().update(
            idx as int,
            old(sentence).bank()[idx as int].update(
                opt as int,
                final(sentence).bank()[idx as int][opt as int],
            ),
        ));
    }
    Ok(())
}

/// Removes the addressed option from its list; the list shrinks, nothing is
/// renumbered elsewhere. An index out of range in either dimension is
/// invalid and leaves the state unchanged.
pub fn delete_answer(sentence: &mut Sentence, idx: usize, opt: usize) -> (r: Result<
    (),
    EditError,
>)
    ensures
        final(sentence).initial_sentence == old(sentence).initial_sentence,
        final(sentence).splits == old(sentence).splits,
        final(sentence).current_split == old(sentence).current_split,
        final(sentence).completed == old(sentence).completed,
        idx < old(sentence).bank().len() && opt < old(sentence).bank()[idx as int].len() ==> {
            &&& r is Ok
            &&& final(sentence).bank() =~= old(sentence).bank().update(
                idx as int,
                old(sentence).bank()[idx as int].remove(opt as int),
            )
        },
        !(idx < old(sentence).bank().len() && opt < old(sentence).bank()[idx as int].len()) ==> {
            &&& r == Err::<(), EditError>(EditError::InvalidIndex)
            &&& *final(sentence) == *old(sentence)
        },
{
    if idx >= sentence.answers.len() {
        return Err(EditError::InvalidIndex);
    }
    if opt >= sentence.answers[idx].len() {
        return Err(EditError::InvalidIndex);
    }
    let mut inner = sentence.answers.remove(idx);
    let _ = inner.remove(opt);
    sentence.answers.insert(idx, inner);
    proof {
        assert(final(sentence).bank() =~= old(sentence).bank().update(
            idx as int,
            old(sentence).bank()[idx as int].remove(opt as int),
        ));
    }
    Ok(())
}

/// The completion gate: true iff fragment 0 has at least one answer
/// alternative; only then may the sentence be marked completed, which this
/// operation then does. On false the sentence is left as it was.
pub fn check_for_complete(sentence: &mut Sentence) -> (r: bool)
    ensures
        r == (old(sentence).bank().len() > 0 && old(sentence).bank()[0].len() > 0),
        final(sentence).completed == (old(sentence).completed || r),
        final(sentence).initial_sentence == old(sentence).initial_sentence,
        final(sentence).splits == old(sentence).splits,
        final(sentence).current_split == old(sentence).current_split,
        final(sentence).answers == old(sentence).answers,
{
    if sentence.answers.len() > 0 {
        let has_answers = sentence.answers[0].len() > 0;
        if has_answers {
            sentence.completed = true;
        }
        has_answers
    } else {
        false
    }
}

} // verus!
