//! `branch.toml`: which branch a workspace works on.
use vstd::prelude::*;

use crate::text;

verus! {

/// The content of a `branch.toml`.
#[derive(Debug)]
pub struct BranchConfig {
    pub branch: String,
}

/// Why a `branch.toml` does not name a branch.
#[derive(Debug)]
pub enum ConfigError {
    /// It is not TOML; the parser says why.
    Syntax(String),
    /// It has no `branch`.
    Missing,
    /// Its `branch` is not a string.
    NotText,
}

/// The content of a `ConfigError`.
pub enum ConfigErrorView {
    Syntax(Seq<char>),
    Missing,
    NotText,
}

impl DeepView for ConfigError {
    type V = ConfigErrorView;

    open spec fn deep_view(&self) -> ConfigErrorView {
        match self {
            ConfigError::Syntax(msg) => ConfigErrorView::Syntax(msg@),
            ConfigError::Missing => ConfigErrorView::Missing,
            ConfigError::NotText => ConfigErrorView::NotText,
        }
    }
}

/// The entries of a table: each key with its value where that is a string.
pub type Entries = Seq<(Seq<char>, Option<Seq<char>>)>;

/// What `toml::from_str` makes of a document: the entries of its top level, or what it says of a
/// document that it does not accept.
pub uninterp spec fn toml_table(content: Seq<char>) -> Result<Entries, Seq<char>>;

/// `toml::from_str` into a map of `serde_json` values, which hold whatever TOML can say under
/// whatever key: no value is refused once the document is TOML. (The crate is built without the
/// features of `serde_json` that give some keys a meaning.) The result depends on the document
/// alone; what a document holds is left to the name. Values that are not strings are told apart
/// from strings, and no more is handed out of them.
#[verifier::external_body]
fn parse_table(content: &str) -> (out: Result<Vec<(String, Option<String>)>, String>)
    ensures
        match out {
            Ok(entries) => toml_table(content@) == Ok::<Entries, Seq<char>>(entries.deep_view()),
            Err(msg) => toml_table(content@) == Err::<Entries, Seq<char>>(msg@),
        },
{
    let table = toml::from_str::<serde_json::Map<String, serde_json::Value>>(content)
        .map_err(|e| e.to_string())?;
    let entries = table.into_iter().map(|(key, value)| match value {
        serde_json::Value::String(s) => (key, Some(s)),
        serde_json::Value::Null => (key, None),
        serde_json::Value::Bool(_) => (key, None),
        serde_json::Value::Number(_) => (key, None),
        serde_json::Value::Array(_) => (key, None),
        serde_json::Value::Object(_) => (key, None),
    });
    Ok(entries.collect())
}

/// What `toml::to_string_pretty` writes of a table with one entry.
pub uninterp spec fn toml_entry(key: Seq<char>, value: Seq<char>) -> Seq<char>;

/// Whether a key needs no quotes: letters, digits, `-` and `_`, and at least one of them.
pub open spec fn is_bare(key: Seq<char>) -> bool {
    key.len() > 0 && forall|i: int|
        0 <= i < key.len() ==> text::is_alphanumeric(#[trigger] key[i]) || key[i] == '-' || key[i]
            == '_'
}

/// How many quotes of one kind may stand in a row: the writer counts them in a byte.
pub const MAX_QUOTE_RUN: usize = 255;

/// Whether no more quotes stand in a row than the writer can count.
pub open spec fn countable_quotes(s: Seq<char>) -> bool {
    forall|i: int, q: char|
        0 <= i && i + MAX_QUOTE_RUN < s.len() && (q == '"' || q == '\'') ==> !#[trigger] run_at(
            s,
            q,
            i,
        )
}

/// Whether a run of more quotes `q` than the writer can count starts at `i`.
pub open spec fn run_at(s: Seq<char>, q: char, i: int) -> bool {
    forall|j: int| i <= j <= i + MAX_QUOTE_RUN ==> #[trigger] s[j] == q
}

/// `toml::to_string_pretty` on a table with one entry, a string. Writing strings to memory does
/// not fail. The text depends on the key and the value alone; how it spells them is left to the
/// name, but `toml::from_str` reads the same entry in it and no other.
#[verifier::external_body]
fn write_entry(key: &str, value: &str) -> (out: Result<String, String>)
    requires
        is_bare(key@),
        countable_quotes(value@),
    ensures
        match out {
            Ok(t) => t@ == toml_entry(key@, value@) && toml_table(t@) == Ok::<Entries, Seq<char>>(
                seq![(key@, Some(value@))],
            ),
            Err(_) => false,
        },
{
    let mut table = toml::Table::new();
    table.insert(key.to_owned(), toml::Value::String(value.to_owned()));
    toml::to_string_pretty(&table).map_err(|e| e.to_string())
}

// ---------------------------------------------------------------------------------------------
// Reading

/// The value of `key` among the entries.
pub open spec fn entry(entries: Entries, key: Seq<char>) -> Option<Option<Seq<char>>>
    decreases entries.len(),
{
    if entries.len() == 0 {
        None
    } else if entries[0].0 == key {
        Some(entries[0].1)
    } else {
        entry(entries.drop_first(), key)
    }
}

/// The branch that the entries name.
pub open spec fn branch_in(entries: Entries) -> Result<Seq<char>, ConfigErrorView> {
    match entry(entries, "branch"@) {
        Some(Some(branch)) => Ok(branch),
        Some(None) => Err(ConfigErrorView::NotText),
        None => Err(ConfigErrorView::Missing),
    }
}

/// The branch that a document names.
pub open spec fn config_in(content: Seq<char>) -> Result<Seq<char>, ConfigErrorView> {
    match toml_table(content) {
        Ok(entries) => branch_in(entries),
        Err(msg) => Err(ConfigErrorView::Syntax(msg)),
    }
}

/// The branch that the entries of a document name; other entries do not matter.
pub fn branch_entry(entries: &Vec<(String, Option<String>)>) -> (out: Result<
    BranchConfig,
    ConfigError,
>)
    ensures
        match out {
            Ok(config) => branch_in(entries.deep_view()) == Ok::<Seq<char>, ConfigErrorView>(
                config.branch@,
            ),
            Err(e) => branch_in(entries.deep_view()) == Err::<Seq<char>, ConfigErrorView>(
                e.deep_view(),
            ),
        },
{
    let ghost all = entries.deep_view();
    let mut i: usize = 0;
    assert(all.skip(0) =~= all);
    while i < entries.len()
        invariant
            i <= entries.len(),
            all == entries.deep_view(),
            entry(all, "branch"@) == entry(all.skip(i as int), "branch"@),
        decreases entries.len() - i,
    {
        proof {
            assert(all.skip(i as int)[0] == entries@[i as int].deep_view());
            assert(all.skip(i as int).drop_first() =~= all.skip(i + 1));
        }
        if text::same_text(entries[i].0.as_str(), "branch") {
            return match &entries[i].1 {
                Some(branch) => Ok(BranchConfig { branch: branch.clone() }),
                None => Err(ConfigError::NotText),
            };
        }
        i += 1;
    }
    Err(ConfigError::Missing)
}

/// Reads the content of a `branch.toml`. What else stands in it does not matter, as long as it is
/// TOML.
pub fn read_branch_config(content: &str) -> (out: Result<BranchConfig, ConfigError>)
    ensures
        match out {
            Ok(config) => config_in(content@) == Ok::<Seq<char>, ConfigErrorView>(config.branch@),
            Err(e) => config_in(content@) == Err::<Seq<char>, ConfigErrorView>(e.deep_view()),
        },
{
    match parse_table(content) {
        Ok(entries) => branch_entry(&entries),
        Err(msg) => Err(ConfigError::Syntax(msg)),
    }
}

impl ConfigError {
    /// What is wrong, in a few words; the place in the document is not among them, but in what the
    /// parser says of its syntax.
    pub fn message(&self) -> (out: String)
        ensures
            match *self {
                ConfigError::Syntax(msg) => out@ == msg@,
                ConfigError::Missing => out@ == "missing field `branch`"@,
                ConfigError::NotText => out@ == "invalid type for `branch`, expected a string"@,
            },
    {
        match self {
            ConfigError::Syntax(msg) => msg.clone(),
            ConfigError::Missing => "missing field `branch`".to_owned(),
            ConfigError::NotText => "invalid type for `branch`, expected a string".to_owned(),
        }
    }
}

// ---------------------------------------------------------------------------------------------
// Writing

proof fn lemma_branch_is_bare()
    ensures
        is_bare("branch"@),
{
    reveal_strlit("branch");
}

/// The content of the `branch.toml` for `config`. Reading it gives `config` back.
pub fn branch_toml(config: &BranchConfig) -> (out: Result<String, String>)
    requires
        countable_quotes(config.branch@),
    ensures
        match out {
            Ok(t) => t@ == toml_entry("branch"@, config.branch@) && config_in(t@) == Ok::<
                Seq<char>,
                ConfigErrorView,
            >(config.branch@),
            Err(_) => false,
        },
{
    proof {
        lemma_branch_is_bare();
    }
    write_entry("branch", config.branch.as_str())
}

/// Tests whether no more quotes stand in a row in `s` than the writer can count.
pub fn quotes_are_countable(s: &str) -> (b: bool)
    ensures
        b == countable_quotes(s@),
{
    let chars = text::chars_of(s);
    let ghost all = s@;
    // The length of the run of equal quotes that ends in front of `i`.
    let mut run: usize = 0;
    let mut i: usize = 0;
    while i < chars.len()
        invariant
            i <= chars.len(),
            chars@ == all,
            all == s@,
            run <= i,
            run <= MAX_QUOTE_RUN,
            run > 0 ==> (all[i - 1] == '"' || all[i - 1] == '\''),
            forall|j: int| i - run <= j < i ==> #[trigger] all[j] == all[i - 1],
            run == 0 && i > 0 ==> all[i - 1] != '"' && all[i - 1] != '\'',
            run > 0 && run < i ==> all[i - run - 1] != all[i - 1],
            forall|k: int, q: char|
                0 <= k && k + MAX_QUOTE_RUN < i && (q == '"' || q == '\'') ==> !#[trigger] run_at(
                    all,
                    q,
                    k,
                ),
        decreases chars.len() - i,
    {
        let c: char = chars[i];
        let ghost was = run;
        if c == '"' || c == '\'' {
            if run > 0 && chars[i - 1] == c {
                run += 1;
            } else {
                run = 1;
            }
        } else {
            run = 0;
        }
        if run > MAX_QUOTE_RUN {
            proof {
                let k = i - MAX_QUOTE_RUN;
                assert(run_at(all, c, k as int));
            }
            return false;
        }
        i += 1;
        proof {
            assert forall|k: int, q: char|
                0 <= k && k + MAX_QUOTE_RUN < i && (q == '"' || q == '\'') implies !#[trigger] run_at(
                all,
                q,
                k,
            ) by {
                if k + MAX_QUOTE_RUN == i - 1 && run_at(all, q, k) {
                    assert(all[i - 1] == q);
                    assert(all[i - run - 1] == q);
                }
            }
        }
    }
    true
}

// ---------------------------------------------------------------------------------------------
// What a document says

/// The branch is the value of the first entry called `branch`, whatever else is there; it has to be
/// a string.
pub proof fn law_branch_entry(entries: Entries, i: int)
    requires
        0 <= i < entries.len(),
        entries[i].0 == "branch"@,
        forall|j: int| 0 <= j < i ==> (#[trigger] entries[j]).0 != "branch"@,
    ensures
        match entries[i].1 {
            Some(branch) => branch_in(entries) == Ok::<Seq<char>, ConfigErrorView>(branch),
            None => branch_in(entries) == Err::<Seq<char>, ConfigErrorView>(
                ConfigErrorView::NotText,
            ),
        },
    decreases i,
{
    if i > 0 {
        let t = entries.drop_first();
        assert(entries[0].0 != "branch"@);
        assert forall|j: int| 0 <= j < i - 1 implies (#[trigger] t[j]).0 != "branch"@ by {
            assert(t[j] == entries[j + 1]);
        }
        law_branch_entry(t, i - 1);
    }
}

/// Where no entry is called `branch`, the branch is missing.
pub proof fn law_no_branch_entry(entries: Entries)
    requires
        forall|j: int| 0 <= j < entries.len() ==> (#[trigger] entries[j]).0 != "branch"@,
    ensures
        branch_in(entries) == Err::<Seq<char>, ConfigErrorView>(ConfigErrorView::Missing),
    decreases entries.len(),
{
    if entries.len() > 0 {
        let t = entries.drop_first();
        assert(entries[0].0 != "branch"@);
        assert forall|j: int| 0 <= j < t.len() implies (#[trigger] t[j]).0 != "branch"@ by {
            assert(t[j] == entries[j + 1]);
        }
        law_no_branch_entry(t);
    }
}

/// A document that is not TOML is an error of syntax, with the parser's words; any other says what
/// its entries say.
pub proof fn law_document(content: Seq<char>)
    ensures
        match toml_table(content) {
            Ok(entries) => config_in(content) == branch_in(entries),
            Err(msg) => config_in(content) == Err::<Seq<char>, ConfigErrorView>(
                ConfigErrorView::Syntax(msg),
            ),
        },
{
}

/// A text cannot be written where 256 quotes of one kind stand in a row, wherever they do; and it
/// can be where they do not.
pub proof fn law_countable_quotes(before: Seq<char>, run: Seq<char>, behind: Seq<char>)
    ensures
        run.len() == 256 && (forall|i: int| 0 <= i < 256 ==> #[trigger] run[i] == '"')
            ==> !countable_quotes(before + run + behind),
        run.len() == 256 && (forall|i: int| 0 <= i < 256 ==> #[trigger] run[i] == '\'')
            ==> !countable_quotes(before + run + behind),
        before.len() < 256 ==> countable_quotes(before),
        !before.contains('"') && !before.contains('\'') ==> countable_quotes(before),
{
    let s = before + run + behind;
    let i = before.len() as int;
    if run.len() == 256 && (forall|k: int| 0 <= k < 256 ==> #[trigger] run[k] == '"') {
        assert forall|j: int| i <= j <= i + 255 implies #[trigger] s[j] == '"' by {
            assert(s[j] == run[j - i]);
        }
        assert(run_at(s, '"', i));
    }
    if run.len() == 256 && (forall|k: int| 0 <= k < 256 ==> #[trigger] run[k] == '\'') {
        assert forall|j: int| i <= j <= i + 255 implies #[trigger] s[j] == '\'' by {
            assert(s[j] == run[j - i]);
        }
        assert(run_at(s, '\'', i));
    }
    if !before.contains('"') && !before.contains('\'') {
        assert forall|k: int, q: char|
            0 <= k && k + MAX_QUOTE_RUN < before.len() && (q == '"' || q == '\'') implies !#[trigger] run_at(
        before, q, k) by {
            if run_at(before, q, k) {
                assert(before[k] == q);
            }
        }
    }
}

} // verus!
