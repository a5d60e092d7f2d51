//! The sentence aggregate: a fragment sequence under a linear version
//! history, with an answer bank and a completion flag.
//!
//! Every edit of the fragmentation (join, reorder) pushes a fresh version;
//! `revert_splits` pops back to the previous one. The version at the cursor
//! (always the top) is the active fragment sequence.

use vstd::prelude::*;
use vstd::string::*;

verus! {

/// One graded answer alternative for a fragment. `is_question == false` is a
/// sentinel: the fragment is literal text, not a gap; `mark` is then 0 and
/// `feedback` is the fixed non-question marker.
#[derive(Debug)]
pub struct AnswerOption {
    pub is_question: bool,
    pub mark: u8,
    pub answer: String,
    pub feedback: String,
}

/// A sentence under editing: the original text, the version history of
/// fragment sequences with its cursor, the answer bank keyed by fragment
/// index of the active version, and the completion flag.
pub struct Sentence {
    pub initial_sentence: String,
    pub splits: Vec<Vec<String>>,
    pub current_split: usize,
    pub answers: Vec<Vec<AnswerOption>>,
    pub completed: bool,
}

/// How an editing operation can be refused. The state is unchanged in
/// either case.
#[derive(Debug, Clone, Copy, PartialEq, Eq, Structural)]
pub enum EditError {
    /// An index lies outside the addressed sequence or list.
    InvalidIndex,
    /// A boundary no-op: joining at the last fragment, moving the first
    /// fragment earlier, moving the last fragment later, or reverting the
    /// original split.
    NoSuchMove,
}

/// The fragments of one stored version, as sequences of characters.
pub open spec fn frags_of(v: Vec<String>) -> Seq<Seq<char>> {
    Seq::new(v@.len(), |i: int| v@[i]@)
}

/// Every fragment holds at least one character.
pub open spec fn nonempty_frags(fr: Seq<Seq<char>>) -> bool {
    forall|i: int| 0 <= i < fr.len() ==> fr[i].len() > 0
}

/// The fragment sequence after joining fragment `i` with fragment `i + 1`:
/// one fragment shorter, with the pair concatenated around a single space.
pub open spec fn join_frags(fr: Seq<Seq<char>>, i: int) -> Seq<Seq<char>> {
    Seq::new(
        (fr.len() - 1) as nat,
        |j: int|
            if j < i {
                fr[j]
            } else if j == i {
                fr[i] + seq![' '] + fr[i + 1]
            } else {
                fr[j + 1]
            },
    )
}

/// The fragment sequence after swapping fragment `i` with fragment `i + 1`.
pub open spec fn swap_adjacent(fr: Seq<Seq<char>>, i: int) -> Seq<Seq<char>> {
    Seq::new(
        fr.len(),
        |j: int|
            if j == i {
                fr[i + 1]
            } else if j == i + 1 {
                fr[i]
            } else {
                fr[j]
            },
    )
}

/// Whether a character counts as whitespace for tokenization: what
/// char::is_whitespace returns for it.
pub uninterp spec fn is_ws_char(c: char) -> bool;

/// Relies on char::is_whitespace: whether the character has the Unicode
/// whitespace property, a function of the character alone.
#[verifier::external_body]
fn ws_char(c: char) -> (r: bool)
    ensures
        r == is_ws_char(c),
{
    c.is_whitespace()
}

/// One splitting step: folds the next character into the pair of finished
/// words and the word being gathered. Whitespace closes a non-empty
/// gathered word; any other character extends it.
pub open spec fn split_step(acc: (Seq<Seq<char>>, Seq<char>), c: char) -> (
    Seq<Seq<char>>,
    Seq<char>,
) {
    if is_ws_char(c) {
        if acc.1.len() > 0 {
            (acc.0.push(acc.1), Seq::empty())
        } else {
            acc
        }
    } else {
        (acc.0, acc.1.push(c))
    }
}

/// The splitting fold over a whole string: the finished words and the still
/// open word after reading every character.
pub open spec fn split_state(s: Seq<char>) -> (Seq<Seq<char>>, Seq<char>)
    decreases s.len(),
{
    if s.len() == 0 {
        (Seq::empty(), Seq::empty())
    } else {
        split_step(split_state(s.drop_last()), s.last())
    }
}

/// The words a sentence string splits into: its maximal runs of
/// non-whitespace characters, in order.
pub open spec fn split_words(s: Seq<char>) -> Seq<Seq<char>> {
    if split_state(s).1.len() > 0 {
        split_state(s).0.push(split_state(s).1)
    } else {
        split_state(s).0
    }
}

/// Splits a string into its whitespace-separated words, each word taken out
/// as one fragment.
#[verifier::loop_isolation(false)]
fn split_into_words(s: &str) -> (r: Vec<String>)
    ensures
        frags_of(r) == split_words(s@),
        forall|i: int| 0 <= i < r@.len() ==> r@[i]@.len() > 0,
{
    let n = s.unicode_len();
    let mut words: Vec<String> = Vec::new();
    let mut in_word = false;
    let mut start: usize = 0;
    let mut i: usize = 0;
    while i < n
        invariant
            i <= n,
            n == s@.len(),
            frags_of(words) == split_state(s@.take(i as int)).0,
            forall|j: int| 0 <= j < words@.len() ==> words@[j]@.len() > 0,
            in_word ==> start < i && split_state(s@.take(i as int)).1 == s@.subrange(
                start as int,
                i as int,
            ),
            !in_word ==> split_state(s@.take(i as int)).1.len() == 0,
        decreases n - i,
    {
        let ghost st = split_state(s@.take(i as int));
        proof {
            assert(s@.take(i as int + 1).drop_last() =~= s@.take(i as int));
            assert(s@.take(i as int + 1).last() == s@[i as int]);
        }
        let c = s.get_char(i);
        if ws_char(c) {
            if in_word {
                let w = s.substring_char(start, i);
                let word = String::from_str(w);
                words.push(word);
                in_word = false;
                proof {
                    assert(frags_of(words) =~= st.0.push(st.1));
                }
            } else {
                proof {
                    assert(st.1 =~= Seq::<char>::empty());
                }
            }
        } else {
            if !in_word {
                start = i;
                in_word = true;
                proof {
                    assert(st.1 =~= Seq::<char>::empty());
                    assert(st.1.push(s@[i as int]) =~= s@.subrange(i as int, i as int + 1));
                }
            } else {
                proof {
                    assert(st.1.push(s@[i as int]) =~= s@.subrange(start as int, i as int + 1));
                }
            }
        }
        i = i + 1;
    }
    proof {
        assert(s@.take(n as int) =~= s@);
    }
    if in_word {
        let w = s.substring_char(start, n);
        let word = String::from_str(w);
        words.push(word);
        proof {
            assert(frags_of(words) =~= split_words(s@));
        }
    }
    words
}

impl Sentence {
    /// The stored versions, oldest first, each as a fragment sequence.
    pub open spec fn versions(self) -> Seq<Seq<Seq<char>>> {
        Seq::new(self.splits@.len(), |i: int| frags_of(self.splits@[i]))
    }

    /// The active fragment sequence: the version at the cursor, which the
    /// well-formedness invariant pins to the top of the history.
    pub open spec fn active(self) -> Seq<Seq<char>> {
        self.versions().last()
    }

    /// The answer bank, as a sequence of option lists keyed by fragment
    /// index of the active version.
    pub open spec fn bank(self) -> Seq<Seq<AnswerOption>> {
        Seq::new(self.answers@.len(), |i: int| self.answers@[i]@)
    }

    /// Well-formedness: at least the original version is stored, the cursor
    /// sits on the top version, and no stored fragment is empty.
    pub open spec fn wf(self) -> bool {
        &&& self.splits@.len() >= 1
        &&& self.current_split == self.splits@.len() - 1
        &&& forall|k: int|
            0 <= k < self.versions().len() ==> nonempty_frags(#[trigger] self.versions()[k])
    }

    /// Builds a sentence from its raw text: one stored version holding the
    /// whitespace-split words, an empty answer bank, not completed.
    pub fn new(entry: String) -> (s: Sentence)
        ensures
            s.wf(),
            s.initial_sentence == entry,
            s.versions() =~= seq![split_words(entry@)],
            s.active() == split_words(entry@),
            s.bank() =~= Seq::<Seq<AnswerOption>>::empty(),
            !s.completed,
            s.current_split == 0,
    {
        let words = split_into_words(entry.as_str());
        let mut splits: Vec<Vec<String>> = Vec::new();
        splits.push(words);
        let s = Sentence {
            initial_sentence: entry,
            splits,
            current_split: 0,
            answers: Vec::new(),
            completed: false,
        };
        proof {
            assert(s.versions() =~= seq![split_words(entry@)]);
            assert(nonempty_frags(s.versions()[0]));
        }
        s
    }

    /// The active fragment sequence, for display and export.
    pub fn active_split(&self) -> (r: &Vec<String>)
        requires
            self.wf(),
        ensures
            frags_of(*r) == self.active(),
    {
        proof {
            assert(frags_of(self.splits@[self.current_split as int]) =~= self.active());
        }
        &self.splits[self.current_split]
    }

    /// Whether the sentence has been marked completed.
    pub fn is_completed(&self) -> (r: bool)
        ensures
            r == self.completed,
    {
        self.completed
    }
}

/// Joining or swapping nonempty fragments leaves every fragment nonempty.
proof fn lemma_nonempty_after_push(s: Sentence, prev: Sentence, nv: Seq<Seq<char>>)
    requires
        prev.wf(),
        nonempty_frags(nv),
        s.versions() == prev.versions().push(nv),
    ensures
        forall|k: int| 0 <= k < s.versions().len() ==> nonempty_frags(#[trigger] s.versions()[k]),
{
    assert forall|k: int| 0 <= k < s.versions().len() implies nonempty_frags(
        #[trigger] s.versions()[k],
    ) by {
        if k < prev.versions().len() {
            assert(s.versions()[k] == prev.versions()[k]);
        }
    }
}

/// Merges fragment `idx` of the active sequence with its successor,
/// concatenated around a single space, and pushes the result as a new
/// version. An `idx` beyond the sequence is an invalid index; the last
/// fragment has no successor to join, a reported no-such-move. On either
/// refusal the state is unchanged.
#[verifier::loop_isolation(false)]
pub fn apply_join(sentence: &mut Sentence, idx: usize) -> (r: Result<(), EditError>)
    requires
        old(sentence).wf(),
    ensures
        final(sentence).wf(),
        final(sentence).initial_sentence == old(sentence).initial_sentence,
        final(sentence).answers == old(sentence).answers,
        final(sentence).completed == old(sentence).completed,
        idx + 2 <= old(sentence).active().len() ==> {
            &&& r is Ok
            &&& final(sentence).versions() =~= old(sentence).versions().push(
                join_frags(old(sentence).active(), idx as int),
            )
        },
        idx >= old(sentence).active().len() ==> {
            &&& r == Err::<(), EditError>(EditError::InvalidIndex)
            &&& *final(sentence) == *old(sentence)
        },
        idx < old(sentence).active().len() && idx + 2 > old(sentence).active().len() ==> {
            &&& r == Err::<(), EditError>(EditError::NoSuchMove)
            &&& *final(sentence) == *old(sentence)
        },
{
    let cs = sentence.current_split;
    let n = sentence.splits[cs].len();
    proof {
        assert(sentence.active() =~= frags_of(sentence.splits@[cs as int]));
    }
    if idx >= n {
        return Err(EditError::InvalidIndex);
    }
    if idx + 1 >= n {
        return Err(EditError::NoSuchMove);
    }
    let ghost fr = sentence.active();
    let mut new_split: Vec<String> = Vec::new();
    let mut k: usize = 0;
    while k < idx
        invariant
            k <= idx,
            new_split@.len() == k,
            forall|j: int| 0 <= j < k ==> new_split@[j] == sentence.splits@[cs as int]@[j],
        decreases idx - k,
    {
        let w = sentence.splits[cs][k].clone();
        new_split.push(w);
        k = k + 1;
    }
    let joined = sentence.splits[cs][idx].clone().concat(" ").concat(
        sentence.splits[cs][idx + 1].as_str(),
    );
    proof {
        reveal_strlit(" ");
        assert(joined@ =~= fr[idx as int] + seq![' '] + fr[idx as int + 1]);
    }
    new_split.push(joined);
    let mut k2: usize = idx + 2;
    while k2 < n
        invariant
            idx + 2 <= k2 <= n,
            new_split@.len() == k2 - 1,
            forall|j: int| 0 <= j < idx ==> new_split@[j] == sentence.splits@[cs as int]@[j],
            new_split@[idx as int]@ == fr[idx as int] + seq![' '] + fr[idx as int + 1],
            forall|j: int|
                idx < j < k2 - 1 ==> new_split@[j] == sentence.splits@[cs as int]@[j + 1],
        decreases n - k2,
    {
        let w = sentence.splits[cs][k2].clone();
        new_split.push(w);
        k2 = k2 + 1;
    }
    proof {
        assert(frags_of(new_split) =~= join_frags(fr, idx as int));
    }
    sentence.splits.push(new_split);
    sentence.current_split = sentence.splits.len() - 1;
    proof {
        assert(sentence.versions() =~= old(sentence).versions().push(
            join_frags(fr, idx as int),
        ));
        assert(nonempty_frags(join_frags(fr, idx as int)));
        lemma_nonempty_after_push(*sentence, *old(sentence), join_frags(fr, idx as int));
    }
    Ok(())
}

/// Builds the active sequence with fragments `i` and `i + 1` swapped; shared
/// by the two reorder operations.
#[verifier::loop_isolation(false)]
fn push_swapped(sentence: &mut Sentence, i: usize)
    requires
        old(sentence).wf(),
        i + 2 <= old(sentence).active().len(),
    ensures
        final(sentence).wf(),
        final(sentence).initial_sentence == old(sentence).initial_sentence,
        final(sentence).answers == old(sentence).answers,
        final(sentence).completed == old(sentence).completed,
        final(sentence).versions() =~= old(sentence).versions().push(
            swap_adjacent(old(sentence).active(), i as int),
        ),
{
    let cs = sentence.current_split;
    let n = sentence.splits[cs].len();
    proof {
        assert(sentence.active() =~= frags_of(sentence.splits@[cs as int]));
    }
    let ghost fr = sentence.active();
    let mut new_split: Vec<String> = Vec::new();
    let mut k: usize = 0;
    while k < n
        invariant
            k <= n,
            new_split@.len() == k,
            forall|j: int|
                0 <= j < k ==> new_split@[j] == sentence.splits@[cs as int]@[
                    if j == i {
                        i as int + 1
                    } else if j == i + 1 {
                        i as int
                    } else {
                        j
                    }
                ],
        decreases n - k,
    {
        let src: usize = if k == i {
            i + 1
        } else if k == i + 1 {
            i
        } else {
            k
        };
        let w = sentence.splits[cs][src].clone();
        new_split.push(w);
        k = k + 1;
    }
    proof {
        assert(frags_of(new_split) =~= swap_adjacent(fr, i as int));
    }
    sentence.splits.push(new_split);
    sentence.current_split = sentence.splits.len() - 1;
    proof {
        assert(sentence.versions() =~= old(sentence).versions().push(
            swap_adjacent(fr, i as int),
        ));
        assert(nonempty_frags(swap_adjacent(fr, i as int)));
        lemma_nonempty_after_push(*sentence, *old(sentence), swap_adjacent(fr, i as int));
    }
}

/// Swaps fragment `idx` of the active sequence with its predecessor and
/// pushes the result as a new version. The first fragment cannot move
/// earlier, a reported no-such-move; an `idx` beyond the sequence is an
/// invalid index. On either refusal the state is unchanged.
pub fn move_up(sentence: &mut Sentence, idx: usize) -> (r: Result<(), EditError>)
    requires
        old(sentence).wf(),
    ensures
        final(sentence).wf(),
        final(sentence).initial_sentence == old(sentence).initial_sentence,
        final(sentence).answers == old(sentence).answers,
        final(sentence).completed == old(sentence).completed,
        idx == 0 ==> {
            &&& r == Err::<(), EditError>(EditError::NoSuchMove)
            &&& *final(sentence) == *old(sentence)
        },
        idx >= 1 && idx < old(sentence).active().len() ==> {
            &&& r is Ok
            &&& final(sentence).versions() =~= old(sentence).versions().push(
                swap_adjacent(old(sentence).active(), idx - 1),
            )
        },
        idx >= 1 && idx >= old(sentence).active().len() ==> {
            &&& r == Err::<(), EditError>(EditError::InvalidIndex)
            &&& *final(sentence) == *old(sentence)
        },
{
    if idx == 0 {
        return Err(EditError::NoSuchMove);
    }
    let cs = sentence.current_split;
    let n = sentence.splits[cs].len();
    proof {
        assert(sentence.active() =~= frags_of(sentence.splits@[cs as int]));
    }
    if idx >= n {
        return Err(EditError::InvalidIndex);
    }
    push_swapped(sentence, idx - 1);
    Ok(())
}

/// Swaps fragment `idx` of the active sequence with its successor and pushes
/// the result as a new version. An `idx` beyond the sequence is an invalid
/// index; the last fragment has no successor, a reported no-such-move. On
/// either refusal the state is unchanged.
pub fn apply_reorder(sentence: &mut Sentence, idx: usize) -> (r: Result<(), EditError>)
    requires
        old(sentence).wf(),
    ensures
        final(sentence).wf(),
        final(sentence).initial_sentence == old(sentence).initial_sentence,
        final(sentence).answers == old(sentence).answers,
        final(sentence).completed == old(sentence).completed,
        idx + 2 <= old(sentence).active().len() ==> {
            &&& r is Ok
            &&& final(sentence).versions() =~= old(sentence).versions().push(
                swap_adjacent(old(sentence).active(), idx as int),
            )
        },
        idx >= old(sentence).active().len() ==> {
            &&& r == Err::<(), EditError>(EditError::InvalidIndex)
            &&& *final(sentence) == *old(sentence)
        },
        idx < old(sentence).active().len() && idx + 2 > old(sentence).active().len() ==> {
            &&& r == Err::<(), EditError>(EditError::NoSuchMove)
            &&& *final(sentence) == *old(sentence)
        },
{
    let cs = sentence.current_split;
    let n = sentence.splits[cs].len();
    proof {
        assert(sentence.active() =~= frags_of(sentence.splits@[cs as int]));
    }
    if idx >= n {
        return Err(EditError::InvalidIndex);
    }
    if idx + 1 >= n {
        return Err(EditError::NoSuchMove);
    }
    push_swapped(sentence, idx);
    Ok(())
}

/// Appends a finished sentence to the question bank.
pub fn enter_question(bank: &mut Vec<Sentence>, sentence: Sentence)
    ensures
        final(bank)@ == old(bank)@.push(sentence),
{
    bank.push(sentence);
}

/// Pops the top version and moves the cursor back to the previous one. At
/// the original split there is nothing to revert: the no-op is reported and
/// the state is unchanged.
pub fn revert_splits(sentence: &mut Sentence) -> (r: Result<(), EditError>)
    requires
        old(sentence).wf(),
    ensures
        final(sentence).wf(),
        old(sentence).versions().len() > 1 ==> {
            &&& r is Ok
            &&& final(sentence).versions() =~= old(sentence).versions().drop_last()
        },
        old(sentence).versions().len() == 1 ==> {
            &&& r == Err::<(), EditError>(EditError::NoSuchMove)
            &&& *final(sentence) == *old(sentence)
        },
        final(sentence).initial_sentence == old(sentence).initial_sentence,
        final(sentence).answers == old(sentence).answers,
        final(sentence).completed == old(sentence).completed,
{
    if sentence.current_split > 0 {
        sentence.current_split = sentence.current_split - 1;
        let _ = sentence.splits.pop();
        proof {
            assert(sentence.versions() =~= old(sentence).versions().drop_last());
        }
        Ok(())
    } else {
        Err(EditError::NoSuchMove)
    }
}

} // verus!
