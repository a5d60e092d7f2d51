use string_tweaker::answers::add_answer;
use string_tweaker::answers::process_question;
use string_tweaker::compile::compile;
use string_tweaker::compile::decimal_string;
use string_tweaker::compile::moodle_shortanswer;
use string_tweaker::compile::CompileError;
use string_tweaker::sentence::apply_join;
use string_tweaker::sentence::AnswerOption;
use string_tweaker::sentence::Sentence;

fn gap(mark: u8, answer: &str, feedback: &str) -> AnswerOption {
    AnswerOption {
        is_question: true,
        mark,
        answer: answer.to_string(),
        feedback: feedback.to_string(),
    }
}

fn literal(text: &str) -> AnswerOption {
    AnswerOption {
        is_question: false,
        mark: 0,
        answer: text.to_string(),
        feedback: "###Not a question###".to_string(),
    }
}

#[test]
fn single_gap_fragment() {
    let mut s = Sentence::new("ichthus".to_string());
    process_question(&mut s);
    assert!(add_answer(&mut s, 0, gap(100, "ichthus", "Well done!")).is_ok());
    assert_eq!(compile(&s), Ok("{1:SHORTANSWER:~%100%ichthus#Well done!}".to_string()));
}

#[test]
fn non_question_fragment_renders_literally() {
    let mut s = Sentence::new("kai".to_string());
    process_question(&mut s);
    assert!(add_answer(&mut s, 0, literal("kai")).is_ok());
    assert_eq!(compile(&s), Ok("kai".to_string()));
}

#[test]
fn first_option_governs_the_whole_list() {
    let mut s = Sentence::new("kai".to_string());
    process_question(&mut s);
    assert!(add_answer(&mut s, 0, literal("kai")).is_ok());
    assert!(add_answer(&mut s, 0, gap(100, "ignored", "fb")).is_ok());
    assert_eq!(compile(&s), Ok("kai".to_string()));
}

#[test]
fn weighted_alternatives_in_list_order() {
    let mut s = Sentence::new("x y".to_string());
    process_question(&mut s);
    assert!(add_answer(&mut s, 0, gap(100, "A", "fb1")).is_ok());
    assert!(add_answer(&mut s, 0, gap(50, "B", "fb2")).is_ok());
    assert!(add_answer(&mut s, 1, literal("kai")).is_ok());
    assert_eq!(compile(&s), Ok("{1:SHORTANSWER:~%100%A#fb1~%50%B#fb2} kai".to_string()));
}

#[test]
fn empty_option_lists_emit_nothing() {
    let mut s = Sentence::new("a b c".to_string());
    process_question(&mut s);
    assert!(add_answer(&mut s, 1, literal("mid")).is_ok());
    assert_eq!(compile(&s), Ok("mid".to_string()));

    let mut t = Sentence::new("a b c".to_string());
    process_question(&mut t);
    assert!(add_answer(&mut t, 0, literal("left")).is_ok());
    assert!(add_answer(&mut t, 2, literal("right")).is_ok());
    assert_eq!(compile(&t), Ok("left right".to_string()));
}

#[test]
fn fully_silent_bank_compiles_to_empty_body() {
    let mut s = Sentence::new("a b".to_string());
    process_question(&mut s);
    assert_eq!(compile(&s), Ok(String::new()));
}

#[test]
fn empty_sentence_compiles_to_empty_body() {
    let mut s = Sentence::new("".to_string());
    process_question(&mut s);
    assert_eq!(compile(&s), Ok(String::new()));
}

#[test]
fn mismatched_bank_is_reported() {
    let mut s = Sentence::new("a b".to_string());
    // bank never sized to the active version
    assert_eq!(compile(&s), Err(CompileError::LengthMismatch));

    process_question(&mut s);
    assert!(apply_join(&mut s, 0).is_ok());
    // the join changed the fragment count; the stale bank must be refused
    assert_eq!(compile(&s), Err(CompileError::LengthMismatch));
}

#[test]
fn shortanswer_token_is_bit_exact() {
    let opts = vec![gap(100, "ichthus", "Well done!")];
    assert_eq!(moodle_shortanswer(&opts), "{1:SHORTANSWER:~%100%ichthus#Well done!}");
    let empty: Vec<AnswerOption> = Vec::new();
    assert_eq!(moodle_shortanswer(&empty), "{1:SHORTANSWER:}");
}

#[test]
fn every_mark_percentage_is_emitted_verbatim() {
    let marks: [u8; 7] = [0, 25, 33, 50, 66, 75, 100];
    let mut opts: Vec<AnswerOption> = Vec::new();
    for m in marks {
        opts.push(gap(m, "a", "f"));
    }
    assert_eq!(
        moodle_shortanswer(&opts),
        "{1:SHORTANSWER:~%0%a#f~%25%a#f~%33%a#f~%50%a#f~%66%a#f~%75%a#f~%100%a#f}"
    );
}

#[test]
fn decimal_rendering_has_no_leading_zeros() {
    assert_eq!(decimal_string(0), "0");
    assert_eq!(decimal_string(7), "7");
    assert_eq!(decimal_string(25), "25");
    assert_eq!(decimal_string(100), "100");
    assert_eq!(decimal_string(255), "255");
}
