use majority_bot::majority_commands::{option_buttons, options_to_update, parse_poll_options, poll_prompt};
use majority_bot::majority_events::{replies_to_bot, route_interaction, Action, Incoming};
use majority_bot::text::str_eq;

#[test]
fn options_one_per_line_trimmed() {
    let opts = parse_poll_options("  Mama's Pizza \r\n\nMega Sushi\n   \n\tThe Borgir\n");
    assert_eq!(opts, vec!["Mama's Pizza", "Mega Sushi", "The Borgir"]);
}

#[test]
fn options_of_blank_text() {
    assert_eq!(parse_poll_options(""), Vec::<String>::new());
    assert_eq!(parse_poll_options(" \n \u{3000}\n"), Vec::<String>::new());
    assert_eq!(parse_poll_options("only"), vec!["only"]);
}

#[test]
fn buttons_carry_their_votes() {
    let labels = vec![String::from("a"), String::from("b"), String::from("c")];
    let buttons = option_buttons(77, 2, &labels);
    assert_eq!(buttons.len(), 3);
    assert_eq!(buttons[0].custom_id, "77-2-0");
    assert_eq!(buttons[2].custom_id, "77-2-2");
    assert_eq!(buttons[1].label, "b");
}

#[test]
fn update_only_changed_top_options_with_votes() {
    let last = vec![1, 2, 3, 4, 5];
    let now = vec![2, 1, 4, 3, 5];
    let votes = vec![vec![1], vec![2], vec![], vec![3], vec![1]];
    // 0 and 1 changed among the first two; 2 has no votes; 3 went from 4 to 3
    // and now shows a medal; 4 did not change
    assert_eq!(options_to_update(&last, &now, &votes, 9), vec![0, 1, 3]);
    // the option voted for is never in the list
    assert_eq!(options_to_update(&last, &now, &votes, 0), vec![1, 3]);
    // moving between ranks 4 and 5 shows nothing new
    assert_eq!(options_to_update(&vec![4, 5], &vec![5, 4], &vec![vec![1], vec![2]], 9), Vec::<usize>::new());
    // leaving rank 3 takes a medal away
    assert_eq!(options_to_update(&vec![3], &vec![4], &vec![vec![1]], 9), vec![0]);
}

#[test]
fn update_stops_at_the_shorter_ranking() {
    let last = vec![1, 2];
    let now = vec![2, 1, 3];
    let votes = vec![vec![1], vec![2]];
    assert_eq!(options_to_update(&last, &now, &votes, 5), vec![0, 1]);
}

#[test]
fn prompt_text() {
    assert_eq!(
        poll_prompt("Lunch?"),
        "Lunch?\n*Reply to this message with 1 poll option per line*"
    );
}

#[test]
fn routing() {
    let cmd = |n: &str| Incoming::Command(String::from(n));
    assert_eq!(route_interaction(&cmd("poll"), true), Action::RunPoll);
    assert_eq!(route_interaction(&cmd("close"), true), Action::RunClose);
    assert_eq!(route_interaction(&cmd("info"), true), Action::RunInfo);
    assert_eq!(route_interaction(&cmd("nope"), true), Action::UnknownCommand);
    assert_eq!(route_interaction(&cmd("poll"), false), Action::RefuseUnseenChannel);
    assert_eq!(route_interaction(&Incoming::Component, false), Action::Vote);
    assert_eq!(route_interaction(&Incoming::Other, true), Action::Ignore);
}

#[test]
fn replies_to_the_bot_add_options() {
    assert!(replies_to_bot(42, 42));
    assert!(!replies_to_bot(41, 42));
}

#[test]
fn string_equality() {
    assert!(str_eq("poll", "poll"));
    assert!(!str_eq("poll", "pol"));
    assert!(!str_eq("poll", "pole"));
    assert!(str_eq("", ""));
}
