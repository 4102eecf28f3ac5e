//! The settings that name the master and archive directories.

use vstd::prelude::*;
use vstd::std_specs::iter::IteratorSpec;

verus! {

/// The settings written on first run. `{CUR}` stands for the directory of
/// the program.
pub const DEFAULT_CONFIG: &'static str = "\n[master]\ndirectory = \"{CUR}/data/master_csv/\"\nhistory = \"{CUR}/data/history/\"\n";

/// The placeholder for the program's own directory.
pub const CUR_PLACEHOLDER: &'static str = "{CUR}";

/// The most `[` and `{` that a settings text may hold: the TOML reader
/// recurses once per nested array or inline table, without a depth limit.
pub const MAX_OPENERS: usize = 128;

/// `text` with the occurrences of a non-empty `from` replaced by `to`,
/// found from left to right without overlapping.
pub open spec fn replaced(text: Seq<char>, from: Seq<char>, to: Seq<char>) -> Seq<char>
    decreases text.len(),
{
    if from.len() == 0 || text.len() < from.len() {
        text
    } else if text.take(from.len() as int) == from {
        to + replaced(text.skip(from.len() as int), from, to)
    } else {
        seq![text[0]] + replaced(text.skip(1), from, to)
    }
}

pub open spec fn is_opener(c: char) -> bool {
    c == '[' || c == '{'
}

/// How many `[` and `{` the text holds.
pub open spec fn opener_count(text: Seq<char>) -> nat
    decreases text.len(),
{
    if text.len() == 0 {
        0
    } else {
        opener_count(text.drop_last()) + if is_opener(text.last()) {
            1nat
        } else {
            0nat
        }
    }
}

proof fn lemma_opener_count_append(a: Seq<char>, b: Seq<char>)
    ensures
        opener_count(a + b) == opener_count(a) + opener_count(b),
    decreases b.len(),
{
    if b.len() > 0 {
        lemma_opener_count_append(a, b.drop_last());
        assert((a + b).drop_last() =~= a + b.drop_last());
    } else {
        assert(a + b =~= a);
    }
}

/// The string stored under `key` in the table `section` of the TOML
/// document `text`; `None` where `text` is not TOML or holds no such string.
pub uninterp spec fn toml_string(text: Seq<char>, section: Seq<char>, key: Seq<char>) -> Option<Seq<char>>;

/// Relies on str::replace: the matches of `from`, found from left to right
/// without overlapping, replaced by `to`.
#[verifier::external_body]
fn replace_all(text: &str, from: &str, to: &str) -> (r: String)
    requires
        from@.len() > 0,
    ensures
        r@ == replaced(text@, from@, to@),
{
    text.replace(from, to)
}

/// Relies on toml::Value's FromStr, toml::Value::get and
/// toml::Value::as_str: parse, look the key up in the section, read a string.
/// The reader recurses on nested arrays and inline tables with no depth
/// limit, so the text is bounded in its `[` and `{`.
#[verifier::external_body]
fn lookup_string(text: &str, section: &str, key: &str) -> (r: Option<String>)
    requires
        opener_count(text@) <= MAX_OPENERS,
    ensures
        match r {
            Some(s) => toml_string(text@, section@, key@) == Some(s@),
            None => toml_string(text@, section@, key@).is_none(),
        },
{
    let value = text.parse::<toml::Value>().ok()?;
    value.get(section)?.get(key)?.as_str().map(|s| s.to_string())
}

/// The directories named by the settings.
#[derive(Debug, Clone, PartialEq, Eq)]
pub struct StoreDirs {
    pub master_directory: String,
    pub archive_directory: String,
}

/// Why the settings could not be used.
#[derive(Debug, Clone, Copy, PartialEq, Eq, Structural)]
pub enum ConfigError {
    /// No string `master.directory`, or the text is not TOML.
    MissingMaster,
    /// No string `master.history`.
    MissingHistory,
    /// More than `MAX_OPENERS` of `[` and `{`.
    TooNested,
}

/// Whether `text` holds at most `MAX_OPENERS` of `[` and `{`.
pub fn openers_within_bound(text: &str) -> (r: bool)
    ensures
        r == (opener_count(text@) <= MAX_OPENERS),
{
    let mut it = text.chars();
    let ghost mut seen: Seq<char> = Seq::empty();
    let mut n: usize = 0;
    loop
        invariant
            seen + it.remaining() == text@,
            n as nat == opener_count(seen),
            n <= MAX_OPENERS,
        decreases text@.len() - seen.len(),
    {
        match it.next() {
            Some(c) => {
                proof {
                    assert(seen.push(c).drop_last() =~= seen);
                    assert(seen.push(c) + it.remaining() =~= text@);
                    seen = seen.push(c);
                }
                if c == '[' || c == '{' {
                    if n == MAX_OPENERS {
                        proof {
                            lemma_opener_count_append(seen, it.remaining());
                        }
                        return false;
                    }
                    n = n + 1;
                }
            },
            None => {
                assert(seen =~= text@);
                return true;
            },
        }
    }
}

/// The settings text to use: what was found, or the default when nothing
/// was found.
pub fn config_text(found: String) -> (r: String)
    ensures
        found@.len() == 0 ==> r@ == DEFAULT_CONFIG@,
        found@.len() > 0 ==> r == found,
{
    if found.as_str().is_empty() {
        DEFAULT_CONFIG.to_owned()
    } else {
        found
    }
}

/// Reads the master directory (`master.directory`) and the archive root
/// (`master.history`) from the settings `text`, after replacing `{CUR}` by
/// `program_dir`. A text with more than `MAX_OPENERS` of `[` and `{` is
/// refused before it is read as TOML.
pub fn load_config(text: &str, program_dir: &str) -> (r: Result<StoreDirs, ConfigError>)
    ensures
        ({
            let t = replaced(text@, CUR_PLACEHOLDER@, program_dir@);
            let m = toml_string(t, "master"@, "directory"@);
            let h = toml_string(t, "master"@, "history"@);
            if opener_count(t) > MAX_OPENERS {
                r == Err::<StoreDirs, ConfigError>(ConfigError::TooNested)
            } else {
                match r {
                    Ok(dirs) => m == Some(dirs.master_directory@) && h == Some(dirs.archive_directory@),
                    Err(ConfigError::MissingMaster) => m.is_none(),
                    Err(ConfigError::MissingHistory) => m.is_some() && h.is_none(),
                    Err(ConfigError::TooNested) => false,
                }
            }
        }),
{
    proof {
        reveal_strlit("{CUR}");
    }
    let resolved = replace_all(text, CUR_PLACEHOLDER, program_dir);
    if !openers_within_bound(resolved.as_str()) {
        return Err(ConfigError::TooNested);
    }
    match lookup_string(resolved.as_str(), "master", "directory") {
        None => Err(ConfigError::MissingMaster),
        Some(master_directory) => match lookup_string(resolved.as_str(), "master", "history") {
            None => Err(ConfigError::MissingHistory),
            Some(archive_directory) => Ok(StoreDirs { master_directory, archive_directory }),
        },
    }
}

} // verus!
