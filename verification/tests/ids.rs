use majority_bot::pollopt_to_sql::{FormatError, IdError, PollOption, PollOptionVote};
use majority_bot::dtos;

#[test]
fn option_key_is_poll_then_option() {
    let o = PollOption { poll_id: 12, opt_id: 3 };
    assert_eq!(o.key(), "12-3");
}

#[test]
fn vote_into_string() {
    let v = PollOptionVote { poll_id: 1234567890123, opt_id: 0, value: 2 };
    assert_eq!(String::from(v), "1234567890123-0-2");
}

fn kind_of<T>(r: Result<T, IdError>) -> Option<FormatError> {
    r.err().map(|e| e.kind)
}

#[test]
fn vote_try_from_reads_the_three_fields() {
    let v = PollOptionVote::try_from(String::from("98-7-3")).unwrap();
    assert_eq!(v, PollOptionVote { poll_id: 98, opt_id: 7, value: 3 });
}

#[test]
fn vote_round_trip_at_the_limits() {
    let v = PollOptionVote { poll_id: u64::MAX, opt_id: usize::MAX, value: 0 };
    let text = String::from(v);
    assert_eq!(PollOptionVote::try_from(text).unwrap(), v);
}

#[test]
fn vote_with_too_few_parts_is_malformed() {
    assert_eq!(kind_of(PollOptionVote::try_from(String::from("98-7"))), Some(FormatError::Malformed));
    assert_eq!(kind_of(PollOptionVote::try_from(String::new())), Some(FormatError::Malformed));
}

#[test]
fn vote_with_bad_numbers_is_refused() {
    assert_eq!(kind_of(PollOptionVote::try_from(String::from("x-7-3"))), Some(FormatError::InvalidNumber));
    assert_eq!(kind_of(PollOptionVote::try_from(String::from("1-2-3-4"))), Some(FormatError::InvalidNumber));
    assert_eq!(kind_of(PollOptionVote::try_from(String::from("1--3"))), Some(FormatError::InvalidNumber));
    assert_eq!(
        kind_of(PollOptionVote::try_from(String::from("18446744073709551616-0-0"))),
        Some(FormatError::InvalidNumber)
    );
}

#[test]
fn vote_numbers_may_carry_a_plus_sign() {
    let v = PollOptionVote::try_from(String::from("+5-+6-007")).unwrap();
    assert_eq!(v, PollOptionVote { poll_id: 5, opt_id: 6, value: 7 });
}

#[test]
fn text_option_round_trip_keeps_dashes_in_poll_id() {
    let o = dtos::PollOption { poll_id: String::from("my-poll"), opt_id: 4 };
    let text = o.to_string();
    assert_eq!(text, "my-poll-4");
    let back = dtos::PollOption::try_from(text).unwrap();
    assert_eq!(back.poll_id, "my-poll");
    assert_eq!(back.opt_id, 4);
}

#[test]
fn text_option_errors() {
    assert_eq!(kind_of(dtos::PollOption::try_from(String::from("nodash"))), Some(FormatError::Malformed));
    assert_eq!(kind_of(dtos::PollOption::try_from(String::from("a-b"))), Some(FormatError::InvalidNumber));
}

#[test]
fn text_vote_round_trip() {
    let v = dtos::PollOptionVote { poll_id: String::from("a-b-c"), opt_id: 10, value: 2 };
    let text = String::from(v);
    assert_eq!(text, "a-b-c-10-2");
    let back = dtos::PollOptionVote::try_from(text).unwrap();
    assert_eq!(back.poll_id, "a-b-c");
    assert_eq!(back.opt_id, 10);
    assert_eq!(back.value, 2);
}

#[test]
fn text_vote_errors() {
    assert_eq!(kind_of(dtos::PollOptionVote::try_from(String::from("a-1"))), Some(FormatError::Malformed));
    assert_eq!(kind_of(dtos::PollOptionVote::try_from(String::from("a-1-x"))), Some(FormatError::InvalidNumber));
    assert_eq!(dtos::PollOptionVote::try_from(String::from("a--1-2")).unwrap().poll_id, "a-");
}

#[test]
fn malformed_texts_name_the_expected_form() {
    let e = dtos::PollOption::try_from(String::from("abc")).err().unwrap();
    assert_eq!(e.to_string(), "'abc' is not a PollOption. Expecting <poll_id>-<option_id>");
    let e = PollOptionVote::try_from(String::from("1-2")).unwrap_err();
    assert_eq!(
        e.to_string(),
        "'1-2' is not a PollOptionVote. Expecting <poll_id>-<option_id>-<vote>"
    );
    let e = dtos::PollOptionVote::try_from(String::from("x")).err().unwrap();
    assert_eq!(
        e.to_string(),
        "'x' is not a PollOptionVote. Expecting <poll_id>-<option_id>-<vote>"
    );
}

#[test]
fn invalid_numbers_keep_the_parse_error_text() {
    let e = PollOptionVote::try_from(String::from("x-7-3")).unwrap_err();
    assert_eq!(e.kind, FormatError::InvalidNumber);
    assert_eq!(e.to_string(), "x".parse::<u64>().unwrap_err().to_string());
    // the poll id is read first
    let e = PollOptionVote::try_from(String::from("-7-")).unwrap_err();
    assert_eq!(e.to_string(), "".parse::<u64>().unwrap_err().to_string());
}

#[test]
fn text_forms_keep_the_parse_error_text() {
    let e = dtos::PollOption::try_from(String::from("p-+")).err().unwrap();
    assert_eq!(e.kind, FormatError::InvalidNumber);
    assert_eq!(e.to_string(), "+".parse::<usize>().unwrap_err().to_string());
    // the option is read before the value
    let e = dtos::PollOptionVote::try_from(String::from("p-99999999999999999999999-x")).err().unwrap();
    assert_eq!(e.to_string(), "99999999999999999999999".parse::<usize>().unwrap_err().to_string());
    let e = PollOptionVote::try_from(String::from("1-2-")).unwrap_err();
    assert_eq!(e.to_string(), "".parse::<usize>().unwrap_err().to_string());
}
