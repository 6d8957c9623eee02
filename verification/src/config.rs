use vstd::prelude::*;

verus! {

/// The vote values that a voter can pick, each with the symbol that fills the
/// vote bar of an option for that value; value `v` is the index into both.
pub struct Config {
    pub vote_values: Vec<String>,
    pub vote_display: Vec<String>,
}

impl Config {
    /// The views of the vote values.
    pub open spec fn values_view(&self) -> Seq<Seq<char>> {
        self.vote_values@.map_values(|s: String| s@)
    }

    /// The views of the vote bar symbols.
    pub open spec fn display_view(&self) -> Seq<Seq<char>> {
        self.vote_display@.map_values(|s: String| s@)
    }
}

/// The default vote values, from worst to best.
pub open spec fn default_values() -> Seq<Seq<char>> {
    seq!["😣"@, "😕"@, "🙂"@, "🤩"@]
}

/// The default vote bar symbols: a square of the colour of each value.
pub open spec fn default_display() -> Seq<Seq<char>> {
    seq!["🟥"@, "🟧"@, "🟨"@, "🟩"@]
}

/// Each default vote bar symbol is a single character.
pub proof fn lemma_default_display_single()
    ensures
        forall|k: int| 0 <= k < default_display().len() ==> #[trigger] default_display()[k].len() == 1,
{
    reveal_strlit("🟥");
    reveal_strlit("🟧");
    reveal_strlit("🟨");
    reveal_strlit("🟩");
}

impl Default for Config {
    /// Four values, from worst to best, each with a square of its colour.
    fn default() -> (c: Self)
        ensures
            c.values_view() == default_values(),
            c.display_view() == default_display(),
    {
        let mut vote_values: Vec<String> = Vec::new();
        vote_values.push("😣".to_owned());
        vote_values.push("😕".to_owned());
        vote_values.push("🙂".to_owned());
        vote_values.push("🤩".to_owned());
        let mut vote_display: Vec<String> = Vec::new();
        vote_display.push("🟥".to_owned());
        vote_display.push("🟧".to_owned());
        vote_display.push("🟨".to_owned());
        vote_display.push("🟩".to_owned());
        let c = Config { vote_values, vote_display };
        assert(c.values_view() =~= seq!["😣"@, "😕"@, "🙂"@, "🤩"@]);
        assert(c.display_view() =~= seq!["🟥"@, "🟧"@, "🟨"@, "🟩"@]);
        c
    }
}

} // verus!
