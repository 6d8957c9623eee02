use vstd::prelude::*;
use crate::text::{join_lines, lemma_split_lines, chars_of, trimmed, trim, split_lines, lemma_split_lines_len, append_str, lemma_trim_trimmed, is_white_space};
use crate::split::string_views;
use crate::pollopt_to_sql::{PollOptionVote, vote_text};

verus! {

/// The options that a reply gives: its lines, each without white space at
/// either end, the empty ones left out.
pub open spec fn options_of_lines(lines: Seq<Seq<char>>) -> Seq<Seq<char>>
    decreases lines.len(),
{
    if lines.len() == 0 {
        Seq::empty()
    } else {
        let r = options_of_lines(lines.drop_last());
        let t = trim(lines.last());
        if t.len() > 0 {
            r.push(t)
        } else {
            r
        }
    }
}

/// The options of a reply to a poll, one per line.
///
/// Splitting at every `\n` gives what `str::lines` gives, but for a `\r` kept
/// before a `\n` and an empty last piece after a final `\n`; trimming and
/// leaving out empty lines makes both differences vanish.
pub open spec fn poll_options_spec(msg: Seq<char>) -> Seq<Seq<char>> {
    options_of_lines(split_lines(msg))
}

/// Reads the options that a reply to a poll adds: one option per line, white
/// space trimmed from both ends, empty lines left out.
pub fn parse_poll_options(options_msg: &str) -> (options: Vec<String>)
    ensures
        string_views(options@) == poll_options_spec(options_msg@),
{
    let cs = chars_of(options_msg);
    let mut options: Vec<String> = Vec::new();
    let ghost mut done: Seq<Seq<char>> = Seq::empty();
    let mut start: usize = 0;
    let mut i: usize = 0;
    assert(cs@.take(0) =~= Seq::<char>::empty());
    assert(split_lines(cs@.take(0)) =~= done.push(cs@.subrange(0, 0)));
    while i < cs.len()
        invariant
            start <= i <= cs.len(),
            split_lines(cs@.take(i as int)) == done.push(cs@.subrange(start as int, i as int)),
            string_views(options@) == options_of_lines(done),
        decreases cs.len() - i,
    {
        let ghost prev = cs@.take(i as int);
        let ghost cur = cs@.take(i + 1);
        assert(cur.drop_last() =~= prev);
        assert(cur.last() == cs@[i as int]);
        let ghost p = split_lines(prev);
        assert(p == done.push(cs@.subrange(start as int, i as int)));
        proof {
            lemma_split_lines_len(prev);
        }
        if cs[i] == '\n' {
            let t = trimmed(&cs, start, i);
            let ghost piece = cs@.subrange(start as int, i as int);
            assert(done.push(piece).drop_last() =~= done);
            if !t.as_str().is_empty() {
                assert(t@.len() > 0);
                assert(string_views(options@.push(t)) =~= string_views(options@).push(t@));
                options.push(t);
            } else {
                assert(t@.len() == 0);
            }
            proof {
                done = done.push(piece);
            }
            start = i + 1;
            assert(split_lines(cur) == p.push(Seq::empty()));
            assert(cs@.subrange(start as int, i + 1) =~= Seq::<char>::empty());
            assert(split_lines(cur) =~= done.push(cs@.subrange(start as int, i + 1)));
        } else {
            assert(split_lines(cur) == p.update(p.len() - 1, p.last().push(cs@[i as int])));
            assert(cs@.subrange(start as int, i + 1) =~= cs@.subrange(start as int, i as int).push(
                cs@[i as int],
            ));
            assert(split_lines(cur) =~= done.push(cs@.subrange(start as int, i + 1)));
        }
        i += 1;
    }
    assert(cs@.take(cs.len() as int) =~= cs@);
    let t = trimmed(&cs, start, cs.len());
    let ghost piece = cs@.subrange(start as int, cs.len() as int);
    assert(done.push(piece).drop_last() =~= done);
    if !t.as_str().is_empty() {
        assert(t@.len() > 0);
        assert(string_views(options@.push(t)) =~= string_views(options@).push(t@));
        options.push(t);
    } else {
        assert(t@.len() == 0);
    }
    options
}

/// A button that casts one vote value on one option.
pub struct VoteButton {
    /// The text form of the vote it casts.
    pub custom_id: String,
    /// What the button shows: the vote value.
    pub label: String,
}

/// The vote buttons of option `opt_id` of poll `poll_id`: one per vote value,
/// in order, each labelled with its value and carrying the vote it casts.
pub fn option_buttons(poll_id: u64, opt_id: usize, labels: &Vec<String>) -> (buttons: Vec<
    VoteButton,
>)
    ensures
        buttons.len() == labels.len(),
        forall|k: int|
            0 <= k < labels.len() ==> {
                &&& (#[trigger] buttons@[k]).custom_id@ == vote_text(
                    PollOptionVote { poll_id, opt_id, value: k as usize },
                )
                &&& buttons@[k].label@ == labels@[k]@
            },
{
    let mut buttons: Vec<VoteButton> = Vec::new();
    let mut value: usize = 0;
    while value < labels.len()
        invariant
            value <= labels.len(),
            buttons.len() == value,
            forall|k: int|
                0 <= k < value ==> {
                    &&& (#[trigger] buttons@[k]).custom_id@ == vote_text(
                        PollOptionVote { poll_id, opt_id, value: k as usize },
                    )
                    &&& buttons@[k].label@ == labels@[k]@
                },
        decreases labels.len() - value,
    {
        let custom_id = String::from(PollOptionVote { poll_id, opt_id, value });
        let mut label = String::new();
        append_str(&mut label, labels[value].as_str());
        buttons.push(VoteButton { custom_id, label });
        value += 1;
    }
    buttons
}

/// Option `i` must be shown again after a vote for option `voted`: it has
/// votes, it was or is among the first three (the ranks that show a medal),
/// its rank changed, and it is not
/// the option voted for (that one is shown again anyway).
pub open spec fn needs_update(
    last_ranking: Seq<usize>,
    ranking: Seq<usize>,
    vote_lens: Seq<nat>,
    voted: usize,
    i: int,
) -> bool {
    &&& vote_lens[i] > 0
    &&& (last_ranking[i] <= 3 || ranking[i] <= 3)
    &&& last_ranking[i] != ranking[i]
    &&& i != voted
}

/// The options among the first `m` that must be shown again, in order.
pub open spec fn updates_upto(
    last_ranking: Seq<usize>,
    ranking: Seq<usize>,
    vote_lens: Seq<nat>,
    voted: usize,
    m: nat,
) -> Seq<usize>
    decreases m,
{
    if m == 0 {
        Seq::empty()
    } else {
        let r = updates_upto(last_ranking, ranking, vote_lens, voted, (m - 1) as nat);
        if needs_update(last_ranking, ranking, vote_lens, voted, m - 1) {
            r.push((m - 1) as usize)
        } else {
            r
        }
    }
}

/// The number of votes of each option.
pub open spec fn vote_lens(votes: Seq<Vec<usize>>) -> Seq<nat> {
    votes.map_values(|v: Vec<usize>| v@.len())
}

/// The rankings compared pairwise, as far as both go.
pub open spec fn compared_len(last_ranking: Seq<usize>, ranking: Seq<usize>) -> nat {
    if last_ranking.len() <= ranking.len() {
        last_ranking.len()
    } else {
        ranking.len()
    }
}

/// The options whose message must be edited after a vote for option
/// `voted`, given the ranking before and after the vote.
pub fn options_to_update(
    last_ranking: &Vec<usize>,
    ranking: &Vec<usize>,
    votes: &Vec<Vec<usize>>,
    voted: usize,
) -> (to_update: Vec<usize>)
    requires
        compared_len(last_ranking@, ranking@) <= votes.len(),
    ensures
        to_update@ == updates_upto(
            last_ranking@,
            ranking@,
            vote_lens(votes@),
            voted,
            compared_len(last_ranking@, ranking@),
        ),
        forall|k: int|
            0 <= k < to_update.len() ==> #[trigger] to_update@[k] != voted && needs_update(
                last_ranking@,
                ranking@,
                vote_lens(votes@),
                voted,
                to_update@[k] as int,
            ),
{
    let m = if last_ranking.len() <= ranking.len() {
        last_ranking.len()
    } else {
        ranking.len()
    };
    let ghost lens = vote_lens(votes@);
    let mut to_update: Vec<usize> = Vec::new();
    let mut i: usize = 0;
    while i < m
        invariant
            m == compared_len(last_ranking@, ranking@),
            m <= votes.len(),
            lens == vote_lens(votes@),
            i <= m,
            to_update@ == updates_upto(last_ranking@, ranking@, lens, voted, i as nat),
            forall|k: int|
                0 <= k < to_update.len() ==> #[trigger] to_update@[k] != voted && needs_update(
                    last_ranking@,
                    ranking@,
                    lens,
                    voted,
                    to_update@[k] as int,
                ),
        decreases m - i,
    {
        let old_rank = last_ranking[i];
        let new_rank = ranking[i];
        assert(lens[i as int] == votes@[i as int]@.len());
        if votes[i].len() > 0 && (old_rank <= 3 || new_rank <= 3) && old_rank != new_rank && i
            != voted {
            to_update.push(i);
        }
        i += 1;
    }
    to_update
}

/// The text that opens a poll: its description, and how to add options.
pub fn poll_prompt(desc: &str) -> (s: String)
    ensures
        s@ == desc@ + "\n*Reply to this message with 1 poll option per line*"@,
{
    let mut s = String::new();
    append_str(&mut s, desc);
    append_str(&mut s, "\n*Reply to this message with 1 poll option per line*");
    s
}


/// Law: every option read from a reply is non-empty and has no white space at
/// either end.
pub proof fn lemma_options_trimmed(lines: Seq<Seq<char>>)
    ensures
        forall|k: int|
            0 <= k < options_of_lines(lines).len() ==> {
                let o = #[trigger] options_of_lines(lines)[k];
                &&& o.len() > 0
                &&& !is_white_space(o[0])
                &&& !is_white_space(o.last())
                &&& trim(o) == o
            },
    decreases lines.len(),
{
    if lines.len() > 0 {
        lemma_options_trimmed(lines.drop_last());
        lemma_trim_trimmed(lines.last());
        let r = options_of_lines(lines.drop_last());
        assert forall|k: int| 0 <= k < options_of_lines(lines).len() implies {
            let o = #[trigger] options_of_lines(lines)[k];
            &&& o.len() > 0
            &&& !is_white_space(o[0])
            &&& !is_white_space(o.last())
            &&& trim(o) == o
        } by {
            if k < r.len() {
                assert(options_of_lines(lines)[k] == r[k]);
            }
        }
    }
}


/// Law: after a vote for option `voted`, the options to edit are, in
/// increasing order, exactly the options present in both rankings that have
/// votes, whose rank changed, that were or are ranked 1 to 3, and that are not
/// the option voted for.
pub proof fn lemma_updates_exact(
    last_ranking: Seq<usize>,
    ranking: Seq<usize>,
    votes: Seq<Vec<usize>>,
    voted: usize,
)
    requires
        compared_len(last_ranking, ranking) <= votes.len(),
        votes.len() <= usize::MAX,
    ensures
        ({
            let r = updates_upto(
                last_ranking,
                ranking,
                vote_lens(votes),
                voted,
                compared_len(last_ranking, ranking),
            );
            &&& forall|k: int|
                #![trigger r[k]]
                0 <= k < r.len() ==> {
                    let i = r[k] as int;
                    &&& i < last_ranking.len() && i < ranking.len()
                    &&& votes[i]@.len() > 0
                    &&& last_ranking[i] != ranking[i]
                    &&& (last_ranking[i] <= 3 || ranking[i] <= 3)
                    &&& i != voted
                }
            &&& forall|k: int, j: int| 0 <= k < j < r.len() ==> r[k] < r[j]
            &&& forall|i: int|
                0 <= i < last_ranking.len() && i < ranking.len() && votes[i]@.len() > 0
                    && last_ranking[i] != ranking[i] && (last_ranking[i] <= 3 || ranking[i] <= 3)
                    && i != voted ==> r.contains(i as usize)
        }),
{
    let m = compared_len(last_ranking, ranking);
    lemma_updates_upto(last_ranking, ranking, votes, voted, m);
}

proof fn lemma_updates_upto(
    last_ranking: Seq<usize>,
    ranking: Seq<usize>,
    votes: Seq<Vec<usize>>,
    voted: usize,
    m: nat,
)
    requires
        m <= compared_len(last_ranking, ranking),
        compared_len(last_ranking, ranking) <= votes.len(),
        votes.len() <= usize::MAX,
    ensures
        ({
            let r = updates_upto(last_ranking, ranking, vote_lens(votes), voted, m);
            &&& forall|k: int|
                #![trigger r[k]]
                0 <= k < r.len() ==> {
                    let i = r[k] as int;
                    &&& i < m
                    &&& votes[i]@.len() > 0
                    &&& last_ranking[i] != ranking[i]
                    &&& (last_ranking[i] <= 3 || ranking[i] <= 3)
                    &&& i != voted
                }
            &&& forall|k: int, j: int| 0 <= k < j < r.len() ==> r[k] < r[j]
            &&& forall|i: int|
                0 <= i < m && votes[i]@.len() > 0 && last_ranking[i] != ranking[i] && (
                last_ranking[i] <= 3 || ranking[i] <= 3) && i != voted ==> r.contains(i as usize)
        }),
    decreases m,
{
    if m > 0 {
        lemma_updates_upto(last_ranking, ranking, votes, voted, (m - 1) as nat);
        let prev = updates_upto(last_ranking, ranking, vote_lens(votes), voted, (m - 1) as nat);
        let r = updates_upto(last_ranking, ranking, vote_lens(votes), voted, m);
        assert(vote_lens(votes)[m - 1] == votes[m - 1]@.len());
        let add = needs_update(last_ranking, ranking, vote_lens(votes), voted, m - 1);
        if add {
            assert(r == prev.push((m - 1) as usize));
        } else {
            assert(r == prev);
        }
        assert forall|i: int|
            0 <= i < m && votes[i]@.len() > 0 && last_ranking[i] != ranking[i] && (last_ranking[i]
                <= 3 || ranking[i] <= 3) && i != voted implies r.contains(i as usize) by {
            if i < m - 1 {
                let k = choose|k: int| 0 <= k < prev.len() && prev[k] == i as usize;
                assert(r[k] == prev[k]);
            } else {
                assert(r[r.len() - 1] == i as usize);
            }
        }
        assert forall|k: int| #![trigger r[k]] 0 <= k < r.len() implies {
            let i = r[k] as int;
            &&& i < m
            &&& votes[i]@.len() > 0
            &&& last_ranking[i] != ranking[i]
            &&& (last_ranking[i] <= 3 || ranking[i] <= 3)
            &&& i != voted
        } by {
            if k < prev.len() {
                assert(r[k] == prev[k]);
            } else {
                assert(r[k] == (m - 1) as usize);
            }
        }
        assert forall|k: int, j: int| 0 <= k < j < r.len() implies r[k] < r[j] by {
            assert(r[k] == prev[k]);
            if j < prev.len() {
                assert(r[j] == prev[j]);
            } else {
                assert(r[j] == (m - 1) as usize);
                assert(prev[k] < m - 1);
            }
        }
    }
}

/// Law: the options read from a reply are the lines of the reply (the pieces
/// between its newlines, which hold no newline and joined with newlines give
/// the reply back), each trimmed, the empty ones left out, in order.
pub proof fn lemma_poll_options_are_lines(msg: Seq<char>)
    ensures
        forall|k: int| 0 <= k < split_lines(msg).len() ==> !(#[trigger] split_lines(msg)[k]).contains('\n'),
        join_lines(split_lines(msg)) == msg,
        poll_options_spec(msg) == split_lines(msg).map_values(|l: Seq<char>| trim(l)).filter(
            |t: Seq<char>| t.len() > 0,
        ),
{
    lemma_split_lines(msg);
    lemma_options_of_lines_filter(split_lines(msg));
}

proof fn lemma_options_of_lines_filter(lines: Seq<Seq<char>>)
    ensures
        options_of_lines(lines) == lines.map_values(|l: Seq<char>| trim(l)).filter(
            |t: Seq<char>| t.len() > 0,
        ),
    decreases lines.len(),
{
    let f = |l: Seq<char>| trim(l);
    let p = |t: Seq<char>| t.len() > 0;
    if lines.len() == 0 {
        reveal(Seq::filter);
        assert(lines.map_values(f) =~= Seq::<Seq<char>>::empty());
    } else {
        lemma_options_of_lines_filter(lines.drop_last());
        assert(lines.map_values(f) =~= lines.drop_last().map_values(f).push(trim(lines.last())));
        lines.drop_last().map_values(f).lemma_filter_push(trim(lines.last()), p);
    }
}

} // verus!
