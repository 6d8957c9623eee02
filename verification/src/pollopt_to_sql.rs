use vstd::prelude::*;
use crate::decimal::{decimal, u64_parse_error_text, usize_parse_error_text, parsed_u64, parsed_usize, parse_u64, parse_usize, u64_to_string, usize_to_string, lemma_decimal, lemma_parse_decimal};
use crate::split::{rsplitn_seq, rsplitn, collect_triple, lemma_last_index_of_join, string_views};
use crate::text::{chars_of, append_str, copy_string};

verus! {

/// Why a text is not the id it should be.
#[derive(PartialEq, Eq, Structural, Debug, Clone, Copy)]
pub enum FormatError {
    /// The text does not have as many `-`-separated parts as the id has fields.
    Malformed,
    /// A numeric part is not a number that fits its field.
    InvalidNumber,
}

/// A refused id: what was wrong with it, and the text that says so.
#[derive(Debug)]
pub struct IdError {
    pub kind: FormatError,
    pub text: String,
}

impl IdError {
    /// The text that says what was wrong.
    pub fn to_string(&self) -> (s: String)
        ensures
            s@ == self.text@,
    {
        copy_string(&self.text)
    }
}

/// The error for a text that does not have the parts it should:
/// `'<value>'` followed by `rest`.
pub(crate) fn malformed(value: &str, rest: &str) -> (e: IdError)
    ensures
        e.kind == FormatError::Malformed,
        e.text@ == "'"@ + value@ + rest@,
{
    let mut text = String::new();
    append_str(&mut text, "'");
    append_str(&mut text, value);
    append_str(&mut text, rest);
    IdError { kind: FormatError::Malformed, text }
}

/// The error for a part that is not a number of its field's type, with the
/// text that reading it gave.
pub(crate) fn invalid_number(text: String) -> (e: IdError)
    ensures
        e.kind == FormatError::InvalidNumber,
        e.text == text,
{
    IdError { kind: FormatError::InvalidNumber, text }
}

/// What the error says of a text that is not a vote.
pub open spec fn vote_malformed_text(value: Seq<char>) -> Seq<char> {
    "'"@ + value + "' is not a PollOptionVote. Expecting <poll_id>-<option_id>-<vote>"@
}

/// One option of one poll; its text form `<poll_id>-<opt_id>` is the key of the
/// message that shows the option.
#[derive(PartialEq, Eq, Structural, Debug, Clone, Copy)]
pub struct PollOption {
    pub poll_id: u64,
    pub opt_id: usize,
}

/// A vote of value `value` for option `opt_id` of poll `poll_id`; its text form
/// `<poll_id>-<opt_id>-<value>` is the custom id of the vote button.
#[derive(PartialEq, Eq, Structural, Debug, Clone, Copy)]
pub struct PollOptionVote {
    pub poll_id: u64,
    pub opt_id: usize,
    pub value: usize,
}

/// `<poll_id>-<opt_id>`.
pub open spec fn option_key(o: PollOption) -> Seq<char> {
    decimal(o.poll_id as nat) + seq!['-'] + decimal(o.opt_id as nat)
}

/// `<poll_id>-<opt_id>-<value>`.
pub open spec fn vote_text(v: PollOptionVote) -> Seq<char> {
    decimal(v.poll_id as nat) + seq!['-'] + decimal(v.opt_id as nat) + seq!['-'] + decimal(
        v.value as nat,
    )
}

/// Reads `<poll_id>-<opt_id>-<value>`, splitting at the last two `-`.
pub open spec fn parse_vote(s: Seq<char>) -> Result<PollOptionVote, FormatError> {
    let parts = rsplitn_seq(s, 3, '-');
    if parts.len() != 3 {
        Err(FormatError::Malformed)
    } else {
        match (parsed_u64(parts[2]), parsed_usize(parts[1]), parsed_usize(parts[0])) {
            (Some(poll_id), Some(opt_id), Some(value)) => Ok(
                PollOptionVote { poll_id, opt_id, value },
            ),
            _ => Err(FormatError::InvalidNumber),
        }
    }
}

/// What the error says of a vote with a part that is not a number: the text
/// that reading the first such part gave (poll id, then option, then value).
pub open spec fn vote_number_error_text(value: Seq<char>) -> Seq<char> {
    let parts = rsplitn_seq(value, 3, '-');
    if parsed_u64(parts[2]) is None {
        u64_parse_error_text(parts[2])
    } else if parsed_usize(parts[1]) is None {
        usize_parse_error_text(parts[1], usize::MAX as nat)
    } else {
        usize_parse_error_text(parts[0], usize::MAX as nat)
    }
}

/// What reading a vote gives: the vote or error kind of `parse_vote`, with the
/// text that says what was wrong.
pub open spec fn vote_read_as(value: Seq<char>, r: Result<PollOptionVote, IdError>) -> bool {
    match r {
        Ok(v) => parse_vote(value) == Ok::<PollOptionVote, FormatError>(v),
        Err(e) => {
            &&& parse_vote(value) == Err::<PollOptionVote, FormatError>(e.kind)
            &&& e.kind == FormatError::Malformed ==> e.text@ == vote_malformed_text(value)
            &&& e.kind == FormatError::InvalidNumber ==> e.text@ == vote_number_error_text(value)
        },
    }
}

impl PollOption {
    /// The text form `<poll_id>-<opt_id>`, under which the message of the
    /// option is stored.
    pub fn key(&self) -> (s: String)
        ensures
            s@ == option_key(*self),
    {
        let mut s = u64_to_string(self.poll_id);
        s.push('-');
        let o = usize_to_string(self.opt_id);
        append_str(&mut s, o.as_str());
        s
    }
}

impl PollOptionVote {
    /// The text form `<poll_id>-<opt_id>-<value>`.
    pub fn to_text(&self) -> (s: String)
        ensures
            s@ == vote_text(*self),
    {
        let mut s = u64_to_string(self.poll_id);
        s.push('-');
        let o = usize_to_string(self.opt_id);
        append_str(&mut s, o.as_str());
        s.push('-');
        let v = usize_to_string(self.value);
        append_str(&mut s, v.as_str());
        s
    }

    /// Reads `<poll_id>-<opt_id>-<value>`: the text is split at its last two
    /// `-`, and each part must be a number of its field's type (the poll id
    /// read first, then the option, then the value; the first that fails gives
    /// the error).
    pub fn parse(value: &str) -> (r: Result<PollOptionVote, IdError>)
        ensures
            vote_read_as(value@, r),
    {
        let chars = chars_of(value);
        let parts = rsplitn(&chars, 3, '-');
        let ghost views = string_views(parts@);
        assert(views.len() == parts.len());
        match collect_triple(parts) {
            None => Err(
                malformed(value, "' is not a PollOptionVote. Expecting <poll_id>-<option_id>-<vote>"),
            ),
            Some((vote, option_id, poll_id)) => {
                assert(views[0] == vote@ && views[1] == option_id@ && views[2] == poll_id@);
                let poll_id = match parse_u64(poll_id.as_str()) {
                    Ok(p) => p,
                    Err(t) => {
                        return Err(invalid_number(t));
                    },
                };
                let opt_id = match parse_usize(option_id.as_str()) {
                    Ok(o) => o,
                    Err(t) => {
                        return Err(invalid_number(t));
                    },
                };
                let value = match parse_usize(vote.as_str()) {
                    Ok(v) => v,
                    Err(t) => {
                        return Err(invalid_number(t));
                    },
                };
                Ok(PollOptionVote { poll_id, opt_id, value })
            },
        }
    }
}

impl From<PollOptionVote> for String {
    fn from(poll_opt: PollOptionVote) -> (s: String)
        ensures
            s@ == vote_text(poll_opt),
    {
        poll_opt.to_text()
    }
}

impl vstd::std_specs::convert::FromSpecImpl<PollOptionVote> for String {
    open spec fn obeys_from_spec() -> bool {
        false
    }

    open spec fn from_spec(v: PollOptionVote) -> String {
        choose|s: String| s@ == vote_text(v)
    }
}

impl TryFrom<String> for PollOptionVote {
    type Error = IdError;

    fn try_from(value: String) -> (r: Result<Self, IdError>)
        ensures
            vote_read_as(value@, r),
    {
        PollOptionVote::parse(value.as_str())
    }
}

impl vstd::std_specs::convert::TryFromSpecImpl<String> for PollOptionVote {
    open spec fn obeys_try_from_spec() -> bool {
        false
    }

    open spec fn try_from_spec(v: String) -> Result<Self, IdError> {
        choose|r: Result<Self, IdError>| vote_read_as(v@, r)
    }
}

/// Law: reading the text form of a vote gives the vote back.
pub proof fn lemma_vote_text_roundtrip(v: PollOptionVote)
    ensures
        parse_vote(vote_text(v)) == Ok::<PollOptionVote, FormatError>(v),
{
    let p = decimal(v.poll_id as nat);
    let o = decimal(v.opt_id as nat);
    let d = decimal(v.value as nat);
    lemma_decimal(v.poll_id as nat);
    lemma_decimal(v.opt_id as nat);
    lemma_decimal(v.value as nat);
    let head = p + seq!['-'] + o;
    let s = head + seq!['-'] + d;
    assert(s =~= vote_text(v));
    lemma_last_index_of_join(head, '-', d);
    assert(s.subrange(head.len() as int + 1, s.len() as int) =~= d);
    assert(s.subrange(0, head.len() as int) =~= head);
    lemma_last_index_of_join(p, '-', o);
    assert(head.subrange(p.len() as int + 1, head.len() as int) =~= o);
    assert(head.subrange(0, p.len() as int) =~= p);
    assert(rsplitn_seq(p, 1, '-') =~= seq![p]);
    assert(rsplitn_seq(head, 2, '-') =~= seq![o, p]);
    assert(rsplitn_seq(s, 3, '-') =~= seq![d, o, p]);
    lemma_parse_decimal(v.poll_id as nat, u64::MAX as nat);
    lemma_parse_decimal(v.opt_id as nat, usize::MAX as nat);
    lemma_parse_decimal(v.value as nat, usize::MAX as nat);
}


/// Law: the key of an option reads back to it: split at its last `-`, the
/// part after is the option id and the part before the poll id, each in full.
pub proof fn lemma_option_key_roundtrip(o: PollOption)
    ensures
        rsplitn_seq(option_key(o), 2, '-').len() == 2,
        parsed_usize(rsplitn_seq(option_key(o), 2, '-')[0]) == Some(o.opt_id),
        parsed_u64(rsplitn_seq(option_key(o), 2, '-')[1]) == Some(o.poll_id),
{
    let p = decimal(o.poll_id as nat);
    let d = decimal(o.opt_id as nat);
    lemma_decimal(o.poll_id as nat);
    lemma_decimal(o.opt_id as nat);
    let s = p + seq!['-'] + d;
    assert(s =~= option_key(o));
    lemma_last_index_of_join(p, '-', d);
    assert(s.subrange(p.len() as int + 1, s.len() as int) =~= d);
    assert(s.subrange(0, p.len() as int) =~= p);
    assert(rsplitn_seq(p, 1, '-') =~= seq![p]);
    assert(rsplitn_seq(s, 2, '-') =~= seq![d, p]);
    lemma_parse_decimal(o.poll_id as nat, u64::MAX as nat);
    lemma_parse_decimal(o.opt_id as nat, usize::MAX as nat);
}

/// Law: two different options never share a key.
pub proof fn lemma_option_key_injective(a: PollOption, b: PollOption)
    requires
        option_key(a) == option_key(b),
    ensures
        a == b,
{
    lemma_option_key_roundtrip(a);
    lemma_option_key_roundtrip(b);
}

/// Law: two different votes never share a text.
pub proof fn lemma_vote_text_injective(a: PollOptionVote, b: PollOptionVote)
    requires
        vote_text(a) == vote_text(b),
    ensures
        a == b,
{
    lemma_vote_text_roundtrip(a);
    lemma_vote_text_roundtrip(b);
}

} // verus!
