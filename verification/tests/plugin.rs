use math_search::activation::CopyOutcome;
use math_search::evaluation::{Answer, Evaluation};
use math_search::plugin::{ColoredChar, Math, NAME, NAME_COLOR};
use math_search::result::SearchResult;

fn entry(title: &str, payload: &str) -> SearchResult {
    SearchResult::new(title).set_extra_info(payload)
}

fn success(term: &str, answer: Answer) -> Evaluation {
    Evaluation::Success { term: term.to_string(), answer }
}

fn many(numbers: &[&str]) -> Answer {
    Answer::Multiple(numbers.iter().map(|n| n.to_string()).collect())
}

/// Runs the evaluator on `query` and hands the library what came of it.
fn evaluate(query: &str) -> Evaluation {
    let parsed: Result<mexprp::Term<f64>, mexprp::ParseError> = mexprp::Term::parse(query);
    match parsed {
        Err(_) => Evaluation::ParseFailure,
        Ok(term) => match term.eval() {
            Err(_) => Evaluation::EvaluationFailure,
            Ok(mexprp::Answer::Single(x)) => Evaluation::Success {
                term: format!("{}", term),
                answer: Answer::Single(format!("{}", x)),
            },
            Ok(mexprp::Answer::Multiple(xs)) => Evaluation::Success {
                term: format!("{}", term),
                answer: Answer::Multiple(xs.iter().map(|x| format!("{}", x)).collect()),
            },
        },
    }
}

#[test]
fn name_is_math() {
    let plugin = Math::new(7u64);
    assert_eq!(plugin.name(), "Math");
    assert_eq!(NAME, "Math");
}

#[test]
fn colored_name_is_math_in_one_color() {
    let plugin = Math::new(7u64);
    let name = plugin.colored_name();
    assert_eq!(
        name,
        vec![
            ColoredChar { ch: 'M', color: 0x16BE2FFF },
            ColoredChar { ch: 'a', color: 0x16BE2FFF },
            ColoredChar { ch: 't', color: 0x16BE2FFF },
            ColoredChar { ch: 'h', color: 0x16BE2FFF },
        ]
    );
    assert_eq!(NAME_COLOR, 0x16BE2FFF);
}

#[test]
fn from_string_colors_every_character() {
    assert_eq!(ColoredChar::from_string("", 1), vec![]);
    assert_eq!(
        ColoredChar::from_string("é日", 0xFFFFFFFF),
        vec![
            ColoredChar { ch: 'é', color: 0xFFFFFFFF },
            ColoredChar { ch: '日', color: 0xFFFFFFFF },
        ]
    );
}

#[test]
fn plugin_id_is_the_token_given() {
    let plugin = Math::new(String::from("token"));
    assert_eq!(plugin.plugin_id(), "token");
    let plugin = Math::new(42u64);
    assert_eq!(*plugin.plugin_id(), 42);
    let copy = plugin.clone();
    assert_eq!(*copy.plugin_id(), 42);
}

#[test]
fn search_of_parse_failure_is_empty() {
    let plugin = Math::new(0u8);
    assert!(plugin.search(&Evaluation::ParseFailure).is_empty());
}

#[test]
fn search_of_evaluation_failure_is_empty() {
    let plugin = Math::new(0u8);
    assert!(plugin.search(&Evaluation::EvaluationFailure).is_empty());
}

#[test]
fn search_of_single_answer_is_one_result() {
    let plugin = Math::new(0u8);
    let results = plugin.search(&success("2 + 2", Answer::Single("4".to_string())));
    assert_eq!(results.len(), 1);
    assert_eq!(results[0].title(), "2 + 2 = 4");
    assert_eq!(results[0].extra_info(), "4");
}

#[test]
fn search_of_two_roots_is_sorted_by_title() {
    let plugin = Math::new(0u8);
    let results = plugin.search(&success("x^2=4", many(&["2", "-2"])));
    assert_eq!(results, vec![entry("x^2=4 = -2", "-2"), entry("x^2=4 = 2", "2")]);
}

#[test]
fn search_drops_repeated_answers() {
    let plugin = Math::new(0u8);
    let results = plugin.search(&success("t", many(&["3", "1", "3", "2", "1", "3"])));
    assert_eq!(results, vec![entry("t = 1", "1"), entry("t = 2", "2"), entry("t = 3", "3")]);
}

#[test]
fn search_of_no_numbers_is_empty() {
    let plugin = Math::new(0u8);
    assert!(plugin.search(&success("t", many(&[]))).is_empty());
}

#[test]
fn search_orders_as_text_not_as_numbers() {
    let plugin = Math::new(0u8);
    let results = plugin.search(&success("t", many(&["9", "10", "-1"])));
    assert_eq!(results, vec![entry("t = -1", "-1"), entry("t = 10", "10"), entry("t = 9", "9")]);
}

#[test]
fn search_twice_gives_the_same() {
    let plugin = Math::new(0u8);
    let evaluation = success("t", many(&["5", "4", "5", "-4"]));
    assert_eq!(plugin.search(&evaluation), plugin.search(&evaluation));
    assert_eq!(plugin.search(&evaluation), plugin.search(&evaluation.clone()));
}

#[test]
fn evaluated_sum_gives_one_result() {
    let plugin = Math::new(0u8);
    let evaluation = evaluate("2+2");
    let term = format!("{}", mexprp::Term::<f64>::parse("2+2").unwrap());
    assert_eq!(evaluation, success(&term, Answer::Single("4".to_string())));
    let results = plugin.search(&evaluation);
    assert_eq!(results.len(), 1);
    assert_eq!(results[0].title(), format!("{} = 4", term));
    assert_eq!(results[0].extra_info(), "4");
}

#[test]
fn evaluated_free_text_gives_nothing() {
    let plugin = Math::new(0u8);
    let evaluation = evaluate("not an expression!!");
    assert!(plugin.search(&evaluation).is_empty());
}

#[test]
fn evaluated_division_by_zero_gives_nothing() {
    let plugin = Math::new(0u8);
    let evaluation = evaluate("1/0");
    assert_eq!(evaluation, Evaluation::EvaluationFailure);
    assert!(plugin.search(&evaluation).is_empty());
}

#[test]
fn evaluated_equation_gives_nothing() {
    let plugin = Math::new(0u8);
    let evaluation = evaluate("x^2=4");
    assert_eq!(evaluation, Evaluation::ParseFailure);
    assert!(plugin.search(&evaluation).is_empty());
}

#[test]
fn evaluated_square_root_gives_both_roots_sorted() {
    let plugin = Math::new(0u8);
    let results = plugin.search(&evaluate("sqrt(4)"));
    assert_eq!(results.len(), 2);
    assert!(results[0].title().ends_with(" = -2"));
    assert!(results[1].title().ends_with(" = 2"));
    assert_eq!(results[0].extra_info(), "-2");
    assert_eq!(results[1].extra_info(), "2");
    assert!(results[0].title() < results[1].title());
}

#[test]
fn evaluated_plus_minus_zero_gives_distinct_titles() {
    let plugin = Math::new(0u8);
    let results = plugin.search(&evaluate("1±1±1"));
    assert!(!results.is_empty());
    for pair in results.windows(2) {
        assert!(pair[0].title() < pair[1].title());
    }
}

#[test]
fn copy_outcome_follows_the_clipboard() {
    assert_eq!(CopyOutcome::classify(false, false), CopyOutcome::ClipboardUnavailable);
    assert_eq!(CopyOutcome::classify(false, true), CopyOutcome::ClipboardUnavailable);
    assert_eq!(CopyOutcome::classify(true, false), CopyOutcome::ClipboardWriteFailure);
    assert_eq!(CopyOutcome::classify(true, true), CopyOutcome::Copied);
}

#[test]
fn only_a_copy_is_no_failure() {
    assert!(CopyOutcome::ClipboardUnavailable.is_failure());
    assert!(CopyOutcome::ClipboardWriteFailure.is_failure());
    assert!(!CopyOutcome::Copied.is_failure());
}
