use vstd::prelude::*;
use crate::decimal::{decimal, usize_parse_error_text, parsed_usize, parse_usize, usize_to_string, lemma_decimal, lemma_parse_decimal};
use crate::split::{rsplitn_seq, rsplitn, collect_pair, collect_triple, lemma_last_index_of_join, string_views};
use crate::text::{chars_of, append_str};
use crate::pollopt_to_sql::{FormatError, IdError, malformed, invalid_number, vote_malformed_text};

verus! {

/// One option of one poll, the poll named by a text id; its text form is
/// `<poll_id>-<opt_id>`.
pub struct PollOption {
    pub poll_id: String,
    pub opt_id: usize,
}

/// A vote of value `value` for option `opt_id` of the poll named `poll_id`; its
/// text form is `<poll_id>-<opt_id>-<value>`.
pub struct PollOptionVote {
    pub poll_id: String,
    pub opt_id: usize,
    pub value: usize,
}

impl View for PollOption {
    type V = (Seq<char>, usize);

    open spec fn view(&self) -> (Seq<char>, usize) {
        (self.poll_id@, self.opt_id)
    }
}

impl View for PollOptionVote {
    type V = (Seq<char>, usize, usize);

    open spec fn view(&self) -> (Seq<char>, usize, usize) {
        (self.poll_id@, self.opt_id, self.value)
    }
}

/// `<poll_id>-<opt_id>`.
pub open spec fn option_text(o: (Seq<char>, usize)) -> Seq<char> {
    o.0 + seq!['-'] + decimal(o.1 as nat)
}

/// `<poll_id>-<opt_id>-<value>`.
pub open spec fn vote_text(v: (Seq<char>, usize, usize)) -> Seq<char> {
    v.0 + seq!['-'] + decimal(v.1 as nat) + seq!['-'] + decimal(v.2 as nat)
}

/// Reads `<poll_id>-<opt_id>`, splitting at the last `-`; the poll id may hold
/// `-` itself.
pub open spec fn parse_option(s: Seq<char>) -> Result<(Seq<char>, usize), FormatError> {
    let parts = rsplitn_seq(s, 2, '-');
    if parts.len() != 2 {
        Err(FormatError::Malformed)
    } else {
        match parsed_usize(parts[0]) {
            Some(opt_id) => Ok((parts[1], opt_id)),
            None => Err(FormatError::InvalidNumber),
        }
    }
}

/// Reads `<poll_id>-<opt_id>-<value>`, splitting at the last two `-`; the poll
/// id may hold `-` itself.
pub open spec fn parse_vote(s: Seq<char>) -> Result<(Seq<char>, usize, usize), FormatError> {
    let parts = rsplitn_seq(s, 3, '-');
    if parts.len() != 3 {
        Err(FormatError::Malformed)
    } else {
        match (parsed_usize(parts[1]), parsed_usize(parts[0])) {
            (Some(opt_id), Some(value)) => Ok((parts[2], opt_id, value)),
            _ => Err(FormatError::InvalidNumber),
        }
    }
}

/// What the error says of a text that is not an option.
pub open spec fn option_malformed_text(value: Seq<char>) -> Seq<char> {
    "'"@ + value + "' is not a PollOption. Expecting <poll_id>-<option_id>"@
}

/// What reading an option gives: the option or error kind of `parse_option`,
/// with the text that says what was wrong (for a bad option number, the text
/// that reading it gave).
pub open spec fn option_read_as(value: Seq<char>, r: Result<PollOption, IdError>) -> bool {
    match r {
        Ok(o) => parse_option(value) == Ok::<(Seq<char>, usize), FormatError>(o@),
        Err(e) => {
            &&& parse_option(value) == Err::<(Seq<char>, usize), FormatError>(e.kind)
            &&& e.kind == FormatError::Malformed ==> e.text@ == option_malformed_text(value)
            &&& e.kind == FormatError::InvalidNumber ==> e.text@ == usize_parse_error_text(
                rsplitn_seq(value, 2, '-')[0],
                usize::MAX as nat,
            )
        },
    }
}

/// What the error says of a vote with a part that is not a number: the text
/// that reading the first such part gave (option, then value).
pub open spec fn vote_number_error_text(value: Seq<char>) -> Seq<char> {
    let parts = rsplitn_seq(value, 3, '-');
    if parsed_usize(parts[1]) is None {
        usize_parse_error_text(parts[1], usize::MAX as nat)
    } else {
        usize_parse_error_text(parts[0], usize::MAX as nat)
    }
}

/// What reading a vote gives: the vote or error kind of `parse_vote`, with the
/// text that says what was wrong.
pub open spec fn vote_read_as(value: Seq<char>, r: Result<PollOptionVote, IdError>) -> bool {
    match r {
        Ok(v) => parse_vote(value) == Ok::<(Seq<char>, usize, usize), FormatError>(v@),
        Err(e) => {
            &&& parse_vote(value) == Err::<(Seq<char>, usize, usize), FormatError>(e.kind)
            &&& e.kind == FormatError::Malformed ==> e.text@ == vote_malformed_text(value)
            &&& e.kind == FormatError::InvalidNumber ==> e.text@ == vote_number_error_text(value)
        },
    }
}

impl PollOption {
    /// The text form `<poll_id>-<opt_id>`.
    pub fn to_string(&self) -> (s: String)
        ensures
            s@ == option_text(self@),
    {
        let mut s = String::new();
        append_str(&mut s, self.poll_id.as_str());
        s.push('-');
        let o = usize_to_string(self.opt_id);
        append_str(&mut s, o.as_str());
        s
    }
}

impl PollOptionVote {
    /// The text form `<poll_id>-<opt_id>-<value>`.
    pub fn to_text(&self) -> (s: String)
        ensures
            s@ == vote_text(self@),
    {
        let mut s = String::new();
        append_str(&mut s, self.poll_id.as_str());
        s.push('-');
        let o = usize_to_string(self.opt_id);
        append_str(&mut s, o.as_str());
        s.push('-');
        let v = usize_to_string(self.value);
        append_str(&mut s, v.as_str());
        s
    }
}

impl TryFrom<String> for PollOption {
    type Error = IdError;

    /// Reads `<poll_id>-<opt_id>`.
    fn try_from(value: String) -> (r: Result<Self, IdError>)
        ensures
            option_read_as(value@, r),
    {
        let chars = chars_of(value.as_str());
        let parts = rsplitn(&chars, 2, '-');
        let ghost views = string_views(parts@);
        assert(views.len() == parts.len());
        match collect_pair(parts) {
            None => Err(
                malformed(value.as_str(), "' is not a PollOption. Expecting <poll_id>-<option_id>"),
            ),
            Some((option_id, poll_id)) => {
                assert(views[0] == option_id@ && views[1] == poll_id@);
                match parse_usize(option_id.as_str()) {
                    Ok(opt_id) => Ok(PollOption { poll_id, opt_id }),
                    Err(t) => Err(invalid_number(t)),
                }
            },
        }
    }
}

impl vstd::std_specs::convert::TryFromSpecImpl<String> for PollOption {
    open spec fn obeys_try_from_spec() -> bool {
        false
    }

    open spec fn try_from_spec(v: String) -> Result<Self, IdError> {
        choose|r: Result<Self, IdError>| option_read_as(v@, r)
    }
}

impl TryFrom<String> for PollOptionVote {
    type Error = IdError;

    /// Reads `<poll_id>-<opt_id>-<value>`.
    fn try_from(value: String) -> (r: Result<Self, IdError>)
        ensures
            vote_read_as(value@, r),
    {
        let chars = chars_of(value.as_str());
        let parts = rsplitn(&chars, 3, '-');
        let ghost views = string_views(parts@);
        assert(views.len() == parts.len());
        match collect_triple(parts) {
            None => Err(
                malformed(
                    value.as_str(),
                    "' is not a PollOptionVote. Expecting <poll_id>-<option_id>-<vote>",
                ),
            ),
            Some((vote, option_id, poll_id)) => {
                assert(views[0] == vote@ && views[1] == option_id@ && views[2] == poll_id@);
                let opt_id = match parse_usize(option_id.as_str()) {
                    Ok(o) => o,
                    Err(t) => {
                        return Err(invalid_number(t));
                    },
                };
                let value = match parse_usize(vote.as_str()) {
                    Ok(v) => v,
                    Err(t) => {
                        return Err(invalid_number(t));
                    },
                };
                Ok(PollOptionVote { poll_id, opt_id, value })
            },
        }
    }
}

impl vstd::std_specs::convert::TryFromSpecImpl<String> for PollOptionVote {
    open spec fn obeys_try_from_spec() -> bool {
        false
    }

    open spec fn try_from_spec(v: String) -> Result<Self, IdError> {
        choose|r: Result<Self, IdError>| vote_read_as(v@, r)
    }
}

impl From<PollOptionVote> for String {
    fn from(poll_opt: PollOptionVote) -> (s: String)
        ensures
            s@ == vote_text(poll_opt@),
    {
        poll_opt.to_text()
    }
}

impl vstd::std_specs::convert::FromSpecImpl<PollOptionVote> for String {
    open spec fn obeys_from_spec() -> bool {
        false
    }

    open spec fn from_spec(v: PollOptionVote) -> String {
        choose|s: String| s@ == vote_text(v@)
    }
}

/// Law: reading the text form of an option gives the option back, whatever
/// its poll id holds.
pub proof fn lemma_option_text_roundtrip(o: (Seq<char>, usize))
    ensures
        parse_option(option_text(o)) == Ok::<(Seq<char>, usize), FormatError>(o),
{
    let d = decimal(o.1 as nat);
    lemma_decimal(o.1 as nat);
    let s = o.0 + seq!['-'] + d;
    lemma_last_index_of_join(o.0, '-', d);
    assert(s.subrange(o.0.len() as int + 1, s.len() as int) =~= d);
    assert(s.subrange(0, o.0.len() as int) =~= o.0);
    assert(rsplitn_seq(o.0, 1, '-') =~= seq![o.0]);
    assert(rsplitn_seq(s, 2, '-') =~= seq![d, o.0]);
    lemma_parse_decimal(o.1 as nat, usize::MAX as nat);
}

/// Law: reading the text form of a vote gives the vote back, whatever its
/// poll id holds.
pub proof fn lemma_vote_text_roundtrip(v: (Seq<char>, usize, usize))
    ensures
        parse_vote(vote_text(v)) == Ok::<(Seq<char>, usize, usize), FormatError>(v),
{
    let p = v.0;
    let o = decimal(v.1 as nat);
    let d = decimal(v.2 as nat);
    lemma_decimal(v.1 as nat);
    lemma_decimal(v.2 as nat);
    let head = p + seq!['-'] + o;
    let s = head + seq!['-'] + d;
    assert(s =~= vote_text(v));
    lemma_last_index_of_join(head, '-', d);
    assert(s.subrange(head.len() as int + 1, s.len() as int) =~= d);
    assert(s.subrange(0, head.len() as int) =~= head);
    lemma_last_index_of_join(p, '-', o);
    assert(head.subrange(p.len() as int + 1, head.len() as int) =~= o);
    assert(head.subrange(0, p.len() as int) =~= p);
    assert(rsplitn_seq(p, 1, '-') =~= seq![p]);
    assert(rsplitn_seq(head, 2, '-') =~= seq![o, p]);
    assert(rsplitn_seq(s, 3, '-') =~= seq![d, o, p]);
    lemma_parse_decimal(v.1 as nat, usize::MAX as nat);
    lemma_parse_decimal(v.2 as nat, usize::MAX as nat);
}

} // verus!
