use vstd::prelude::*;
use majority::MJVotes;
use crate::utils::{seq_sum, lrm, lrm_spec, is_lrm_allocation};
use crate::config::Config;
use crate::decimal::{decimal, usize_to_string};
use crate::text::{repeat_seq, append_str, append_repeated, lemma_repeat_len};

verus! {

/// How many of `votes` are equal to `value`.
pub open spec fn count_value(votes: Seq<usize>, value: int) -> nat
    decreases votes.len(),
{
    if votes.len() == 0 {
        0
    } else {
        count_value(votes.drop_last(), value) + if votes.last() == value {
            1nat
        } else {
            0nat
        }
    }
}

/// How many of `votes` are below `bound`.
pub open spec fn count_below(votes: Seq<usize>, bound: int) -> nat
    decreases votes.len(),
{
    if votes.len() == 0 {
        0
    } else {
        count_below(votes.drop_last(), bound) + if votes.last() < bound {
            1nat
        } else {
            0nat
        }
    }
}

/// The largest vote (0 for no votes).
pub open spec fn seq_max(votes: Seq<usize>) -> usize
    decreases votes.len(),
{
    if votes.len() == 0 {
        0
    } else {
        let m = seq_max(votes.drop_last());
        if votes.len() == 1 || votes.last() > m {
            votes.last()
        } else {
            m
        }
    }
}

/// For each value from 0 up to the largest vote, how many votes have it;
/// nothing for no votes.
pub open spec fn counts_spec(votes: Seq<usize>) -> Seq<usize> {
    if votes.len() == 0 {
        Seq::empty()
    } else {
        Seq::new((seq_max(votes) + 1) as nat, |k: int| count_value(votes, k) as usize)
    }
}

pub proof fn lemma_seq_max(votes: Seq<usize>)
    requires
        votes.len() > 0,
    ensures
        forall|i: int| 0 <= i < votes.len() ==> votes[i] <= seq_max(votes),
        exists|i: int| 0 <= i < votes.len() && votes[i] == seq_max(votes),
    decreases votes.len(),
{
    if votes.len() > 1 {
        lemma_seq_max(votes.drop_last());
        let i = choose|i: int|
            0 <= i < votes.drop_last().len() && votes.drop_last()[i] == seq_max(votes.drop_last());
        if votes.last() > seq_max(votes.drop_last()) {
            assert(votes[votes.len() - 1] == seq_max(votes));
        } else {
            assert(votes[i] == seq_max(votes));
        }
        assert forall|j: int| 0 <= j < votes.len() implies votes[j] <= seq_max(votes) by {
            if j < votes.len() - 1 {
                assert(votes[j] == votes.drop_last()[j]);
            }
        }
    } else {
        assert(votes[0] == seq_max(votes));
    }
}

pub proof fn lemma_count_value_le(votes: Seq<usize>, value: int)
    ensures
        count_value(votes, value) <= votes.len(),
    decreases votes.len(),
{
    if votes.len() > 0 {
        lemma_count_value_le(votes.drop_last(), value);
    }
}

proof fn lemma_count_below_step(votes: Seq<usize>, m: int)
    ensures
        count_below(votes, m + 1) == count_below(votes, m) + count_value(votes, m),
    decreases votes.len(),
{
    if votes.len() > 0 {
        lemma_count_below_step(votes.drop_last(), m);
    }
}

proof fn lemma_count_below_all(votes: Seq<usize>, m: int)
    requires
        forall|i: int| 0 <= i < votes.len() ==> votes[i] < m,
    ensures
        count_below(votes, m) == votes.len(),
    decreases votes.len(),
{
    if votes.len() > 0 {
        lemma_count_below_all(votes.drop_last(), m);
    }
}

proof fn lemma_sum_counts_upto(votes: Seq<usize>, m: nat)
    requires
        votes.len() <= usize::MAX,
    ensures
        seq_sum(Seq::new(m, |k: int| count_value(votes, k) as usize)) == count_below(votes, m as int),
    decreases m,
{
    let s = Seq::new(m, |k: int| count_value(votes, k) as usize);
    if m == 0 {
        lemma_count_below_zero(votes);
    } else {
        assert(s.drop_last() =~= Seq::new((m - 1) as nat, |k: int| count_value(votes, k) as usize));
        lemma_sum_counts_upto(votes, (m - 1) as nat);
        lemma_count_below_step(votes, m - 1);
        lemma_count_value_le(votes, m - 1);
    }
}

proof fn lemma_count_below_zero(votes: Seq<usize>)
    ensures
        count_below(votes, 0) == 0,
    decreases votes.len(),
{
    if votes.len() > 0 {
        lemma_count_below_zero(votes.drop_last());
    }
}

/// Law: the counts of a collection of votes add up to the number of votes.
pub proof fn lemma_counts_total(votes: Seq<usize>)
    requires
        votes.len() <= usize::MAX,
    ensures
        seq_sum(counts_spec(votes)) == votes.len(),
{
    if votes.len() > 0 {
        lemma_seq_max(votes);
        let m = (seq_max(votes) + 1) as nat;
        lemma_sum_counts_upto(votes, m);
        lemma_count_below_all(votes, m as int);
    }
}

/// Converts a collection of vote values to the number of votes of each value:
/// `counts[v]` is how many votes equal `v`, for every `v` up to the largest vote.
pub fn as_counts(votes: &Vec<usize>) -> (counts: Vec<usize>)
    requires
        votes.len() > 0 ==> seq_max(votes@) < usize::MAX,
    ensures
        counts@ == counts_spec(votes@),
        seq_sum(counts@) == votes.len(),
{
    proof {
        assert(votes@.len() == votes.len());
        lemma_counts_total(votes@);
    }
    if votes.len() == 0 {
        return Vec::new();
    }
    let ghost vs = votes@;
    // the largest vote
    let mut max: usize = votes[0];
    let mut i: usize = 1;
    assert(vs.take(1).drop_last() =~= Seq::<usize>::empty());
    while i < votes.len()
        invariant
            vs == votes@,
            1 <= i <= vs.len(),
            max == seq_max(vs.take(i as int)),
        decreases vs.len() - i,
    {
        assert(vs.take(i + 1).drop_last() =~= vs.take(i as int));
        if votes[i] > max {
            max = votes[i];
        }
        i += 1;
    }
    assert(vs.take(vs.len() as int) =~= vs);
    // one counter per value, all at zero
    let mut res: Vec<usize> = Vec::new();
    let mut j: usize = 0;
    while j <= max
        invariant
            max < usize::MAX,
            j <= max + 1,
            res.len() == j,
            forall|k: int| 0 <= k < j ==> #[trigger] res@[k] == 0,
        decreases max + 1 - j,
    {
        res.push(0);
        j += 1;
    }
    proof {
        lemma_seq_max(vs);
    }
    let mut i: usize = 0;
    assert(vs.take(0) =~= Seq::<usize>::empty());
    while i < votes.len()
        invariant
            vs == votes@,
            i <= vs.len(),
            max == seq_max(vs),
            res.len() == max + 1,
            forall|x: int| 0 <= x < vs.len() ==> vs[x] <= max,
            forall|k: int| 0 <= k <= max ==> #[trigger] res@[k] == count_value(vs.take(i as int), k),
        decreases vs.len() - i,
    {
        let value = votes[i];
        assert(vs.take(i + 1).drop_last() =~= vs.take(i as int));
        proof {
            lemma_count_value_le(vs.take(i as int), value as int);
        }
        let c = res[value] + 1;
        res.set(value, c);
        i += 1;
    }
    assert(vs.take(vs.len() as int) =~= vs);
    assert(res@ =~= counts_spec(vs));
    res
}


/// Length of the vote bar of an option, in symbols.
pub const VOTE_STR_LEN: usize = 8;

/// The "nth" median of the (sorted) votes of an option, as the `majority`
/// crate defines it: the 0th is the median, the others are the neighbouring
/// medians used to break ties.
pub open spec fn nth_median_spec(votes: Seq<usize>, n: int) -> Option<usize> {
    if n >= votes.len() {
        None
    } else {
        let med = (votes.len() + 1) / 2 - 1;
        let i = (n + 1) / 2;
        if (votes.len() - n) % 2 == 0 {
            Some(votes[med - i])
        } else {
            Some(votes[med + i])
        }
    }
}

/// `MJVotes::nth_median` of the `majority` crate, on a vector of votes: `None`
/// for `n >= votes.len()`, else the element at the index its source computes.
#[verifier::external_body]
fn nth_median(votes: &Vec<usize>, n: usize) -> (r: Option<usize>)
    requires
        votes.len() < usize::MAX,
    ensures
        r == nth_median_spec(votes@, n as int),
{
    votes.nth_median(n)
}

/// The state of a poll that its display reads: the options, the votes cast
/// on each option (sorted), and the rank of each option (1 is the best).
pub struct PollState {
    pub options: Vec<String>,
    pub votes: Vec<Vec<usize>>,
    pub ranking: Vec<usize>,
}

/// The vote bar: symbol `k` repeated `seats[k]` times, for each `k` in turn.
pub open spec fn vote_bar(display: Seq<Seq<char>>, seats: Seq<usize>) -> Seq<char>
    decreases seats.len(),
{
    if seats.len() == 0 {
        Seq::empty()
    } else {
        vote_bar(display, seats.drop_last()) + repeat_seq(
            display[seats.len() - 1],
            seats.last() as nat,
        )
    }
}

/// The medal shown after an option of the given rank, where it has votes.
pub open spec fn rank_medal(rank: usize) -> Seq<char> {
    if rank == 1 {
        " 🥇"@
    } else if rank == 2 {
        " 🥈"@
    } else if rank == 3 {
        " 🥉"@
    } else {
        Seq::empty()
    }
}

/// The text of option `i`: its description, then on a second line its vote
/// bar, the number of votes, the median vote and a medal for the top three.
pub open spec fn option_text(
    desc: Seq<char>,
    votes: Seq<usize>,
    rank: usize,
    values: Seq<Seq<char>>,
    display: Seq<Seq<char>>,
) -> Seq<char> {
    let bar = if votes.len() > 0 {
        vote_bar(display, lrm_spec(VOTE_STR_LEN as nat, counts_spec(votes)))
    } else {
        repeat_seq("⬛"@, VOTE_STR_LEN as nat)
    };
    let median = match nth_median_spec(votes, 0) {
        Some(m) => "  |  median: "@ + values[m as int],
        None => Seq::empty(),
    };
    let medal = if votes.len() > 0 {
        rank_medal(rank)
    } else {
        Seq::empty()
    };
    desc + seq!['\n'] + bar + "  |  "@ + decimal(votes.len()) + " votes"@ + median + medal
}

/// Writes the text of an option of a poll.
pub trait PollDisplay {
    /// Option `i` exists, and every vote it has, and its median, has a symbol
    /// and a value in `config`.
    spec fn displayable(&self, config: &Config, i: int) -> bool;

    /// The text of option `i`.
    spec fn option_text_of(&self, config: &Config, i: int) -> Seq<char>;

    fn option_display(&self, config: &Config, i: usize) -> (s: String)
        requires
            self.displayable(config, i as int),
        ensures
            s@ == self.option_text_of(config, i as int),
    ;
}

impl PollDisplay for PollState {
    open spec fn displayable(&self, config: &Config, i: int) -> bool {
        let votes = self.votes@[i]@;
        &&& 0 <= i < self.options.len()
        &&& i < self.votes.len()
        &&& i < self.ranking.len()
        &&& votes.len() < usize::MAX
        &&& votes.len() > 0 ==> seq_max(votes) < config.vote_display.len()
        &&& nth_median_spec(votes, 0) matches Some(m) ==> m < config.vote_values.len()
    }

    open spec fn option_text_of(&self, config: &Config, i: int) -> Seq<char> {
        option_text(
            self.options@[i]@,
            self.votes@[i]@,
            self.ranking@[i],
            config.values_view(),
            config.display_view(),
        )
    }

    fn option_display(&self, config: &Config, i: usize) -> (s: String) {
        let votes = &self.votes[i];
        let ghost vs = votes@;
        let mut out = String::new();
        append_str(&mut out, self.options[i].as_str());
        out.push('\n');
        let ghost head = out@;
        if votes.len() > 0 {
            let counts = as_counts(votes);
            let seats = lrm(VOTE_STR_LEN, &counts);
            proof {
                lemma_seq_max(vs);
            }
            let mut k: usize = 0;
            while k < seats.len()
                invariant
                    seats@ == lrm_spec(VOTE_STR_LEN as nat, counts_spec(vs)),
                    seats.len() == counts.len(),
                    counts@ == counts_spec(vs),
                    vs.len() > 0,
                    seq_max(vs) < config.vote_display.len(),
                    k <= seats.len(),
                    out@ == head + vote_bar(config.display_view(), seats@.take(k as int)),
                decreases seats.len() - k,
            {
                assert(seats@.take(k + 1).drop_last() =~= seats@.take(k as int));
                append_repeated(&mut out, config.vote_display[k].as_str(), seats[k]);
                k += 1;
            }
            assert(seats@.take(seats.len() as int) =~= seats@);
        } else {
            append_repeated(&mut out, "⬛", VOTE_STR_LEN);
        }
        append_str(&mut out, "  |  ");
        let n = usize_to_string(votes.len());
        append_str(&mut out, n.as_str());
        append_str(&mut out, " votes");
        match nth_median(votes, 0) {
            Some(m) => {
                append_str(&mut out, "  |  median: ");
                append_str(&mut out, config.vote_values[m].as_str());
            },
            None => {},
        }
        if votes.len() > 0 {
            let rank = self.ranking[i];
            if rank == 1 {
                append_str(&mut out, " 🥇");
            } else if rank == 2 {
                append_str(&mut out, " 🥈");
            } else if rank == 3 {
                append_str(&mut out, " 🥉");
            }
        }
        out
    }
}


/// A bar made of single-character symbols is as long as its seats add up to.
pub proof fn lemma_vote_bar_len(display: Seq<Seq<char>>, seats: Seq<usize>)
    requires
        forall|k: int| 0 <= k < seats.len() ==> #[trigger] display[k].len() == 1,
    ensures
        vote_bar(display, seats).len() == seq_sum(seats),
    decreases seats.len(),
{
    if seats.len() > 0 {
        lemma_vote_bar_len(display, seats.drop_last());
        lemma_repeat_len(display[seats.len() - 1], seats.last() as nat);
    }
}

/// Law: where every symbol is a single character, the vote bar of an option
/// is `VOTE_STR_LEN` characters long, with votes or without.
pub proof fn lemma_bar_width(display: Seq<Seq<char>>, counts: Seq<usize>, seats: Seq<usize>)
    requires
        is_lrm_allocation(VOTE_STR_LEN as nat, counts, seats),
        forall|k: int| 0 <= k < counts.len() ==> #[trigger] display[k].len() == 1,
    ensures
        vote_bar(display, seats).len() == VOTE_STR_LEN,
        repeat_seq("⬛"@, VOTE_STR_LEN as nat).len() == VOTE_STR_LEN,
{
    lemma_vote_bar_len(display, seats);
    reveal_strlit("⬛");
    lemma_repeat_len("⬛"@, VOTE_STR_LEN as nat);
}


/// Law: an option with votes ends with the gold, silver or bronze medal
/// exactly for rank 1, 2 or 3, and shows no medal for any other rank; an
/// option without votes shows none whatever its rank. Its text is the text
/// it would have at rank 0 (no rank), followed by that medal.
pub proof fn lemma_medal(
    desc: Seq<char>,
    votes: Seq<usize>,
    rank: usize,
    values: Seq<Seq<char>>,
    display: Seq<Seq<char>>,
)
    ensures
        ({
            let text = option_text(desc, votes, rank, values, display);
            let plain = option_text(desc, votes, 0, values, display);
            &&& votes.len() > 0 && rank == 1 ==> text == plain + " 🥇"@
            &&& votes.len() > 0 && rank == 2 ==> text == plain + " 🥈"@
            &&& votes.len() > 0 && rank == 3 ==> text == plain + " 🥉"@
            &&& (votes.len() == 0 || rank == 0 || rank > 3) ==> text == plain
        }),
{
    let text = option_text(desc, votes, rank, values, display);
    let plain = option_text(desc, votes, 0, values, display);
    if votes.len() > 0 && 1 <= rank <= 3 {
        assert(text =~= plain + rank_medal(rank));
    } else {
        assert(text =~= plain);
    }
}

/// Law: the text of option `i` of a poll is its text at rank 0 (no rank),
/// followed by the gold, silver or bronze medal where it has votes and rank
/// 1, 2 or 3, and by nothing otherwise.
pub proof fn lemma_option_medal(p: &PollState, config: &Config, i: int)
    requires
        0 <= i < p.options.len(),
        i < p.votes.len(),
        i < p.ranking.len(),
    ensures
        ({
            let votes = p.votes@[i]@;
            let rank = p.ranking@[i];
            let text = p.option_text_of(config, i);
            let plain = option_text(
                p.options@[i]@,
                votes,
                0,
                config.values_view(),
                config.display_view(),
            );
            &&& votes.len() > 0 && rank == 1 ==> text == plain + " 🥇"@
            &&& votes.len() > 0 && rank == 2 ==> text == plain + " 🥈"@
            &&& votes.len() > 0 && rank == 3 ==> text == plain + " 🥉"@
            &&& (votes.len() == 0 || rank == 0 || rank > 3) ==> text == plain
        }),
{
    lemma_medal(
        p.options@[i]@,
        p.votes@[i]@,
        p.ranking@[i],
        config.values_view(),
        config.display_view(),
    );
}

} // verus!
