use majority_bot::config::Config;
use majority_bot::poll_display::{as_counts, PollDisplay, PollState, VOTE_STR_LEN};
use majority_bot::utils::lrm;

#[test]
fn as_counts_doc_example() {
    let votes = vec![0, 1, 1, 3, 3, 3, 3, 4, 4, 5];
    assert_eq!(as_counts(&votes), vec![1, 2, 0, 4, 2, 1]);
}

#[test]
fn as_counts_of_no_votes_is_empty() {
    assert_eq!(as_counts(&Vec::new()), Vec::<usize>::new());
}

#[test]
fn as_counts_adds_up_to_the_votes() {
    let votes = vec![2, 0, 2, 2, 1, 0, 3];
    let counts = as_counts(&votes);
    assert_eq!(counts.iter().sum::<usize>(), votes.len());
}

#[test]
fn lrm_largest_remainders_first() {
    // quotas 0.8 1.6 0 3.2 1.6 0.8: floors 0 1 0 3 1 0, three seats left,
    // to the remainders .8 (index 0), .8 (index 5) and .6 (index 1 before 4)
    assert_eq!(lrm(8, &vec![1, 2, 0, 4, 2, 1]), vec![1, 2, 0, 3, 1, 1]);
}

#[test]
fn lrm_ties_go_to_the_lower_index() {
    assert_eq!(lrm(8, &vec![0, 1, 1, 1]), vec![0, 3, 3, 2]);
    assert_eq!(lrm(8, &vec![3]), vec![8]);
    assert_eq!(lrm(0, &vec![3, 4]), vec![0, 0]);
}

#[test]
fn lrm_always_hands_out_every_seat() {
    let counts = vec![7, 0, 13, 1, 1, 2];
    assert_eq!(lrm(VOTE_STR_LEN, &counts).iter().sum::<usize>(), VOTE_STR_LEN);
}

#[test]
fn default_config_has_four_values() {
    let c = Config::default();
    assert_eq!(c.vote_values, vec!["😣", "😕", "🙂", "🤩"]);
    assert_eq!(c.vote_display, vec!["🟥", "🟧", "🟨", "🟩"]);
}

#[test]
fn option_display_with_votes() {
    let poll = PollState {
        options: vec![String::from("Pizza"), String::from("Soup")],
        votes: vec![vec![1, 2, 3], vec![]],
        ranking: vec![1, 2],
    };
    let c = Config::default();
    assert_eq!(
        poll.option_display(&c, 0),
        "Pizza\n🟧🟧🟧🟨🟨🟨🟩🟩  |  3 votes  |  median: 🙂 🥇"
    );
}

#[test]
fn option_display_without_votes() {
    let poll = PollState {
        options: vec![String::from("Pizza"), String::from("Soup")],
        votes: vec![vec![1, 2, 3], vec![]],
        ranking: vec![1, 2],
    };
    let c = Config::default();
    assert_eq!(poll.option_display(&c, 1), "Soup\n⬛⬛⬛⬛⬛⬛⬛⬛  |  0 votes");
}

#[test]
fn option_display_even_votes_and_low_rank() {
    let poll = PollState {
        options: vec![String::from("Tea")],
        votes: vec![vec![0, 0, 3, 3]],
        ranking: vec![4],
    };
    let c = Config::default();
    // median of four votes is the second one
    assert_eq!(poll.option_display(&c, 0), "Tea\n🟥🟥🟥🟥🟩🟩🟩🟩  |  4 votes  |  median: 😣");
}

#[test]
fn option_display_bronze_medal() {
    let poll = PollState {
        options: vec![String::from("X")],
        votes: vec![vec![3]],
        ranking: vec![3],
    };
    let c = Config::default();
    assert_eq!(poll.option_display(&c, 0), "X\n🟩🟩🟩🟩🟩🟩🟩🟩  |  1 votes  |  median: 🤩 🥉");
}

#[test]
fn lrm_more_votes_never_fewer_seats() {
    let counts = vec![5, 3, 3, 1, 0];
    let seats = lrm(VOTE_STR_LEN, &counts);
    for i in 0..counts.len() {
        for j in 0..counts.len() {
            if counts[i] > counts[j] {
                assert!(seats[i] >= seats[j]);
            }
        }
    }
}
