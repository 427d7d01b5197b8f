//! Model configuration defaults read from a hub-style `config.json`:
//! the parsing decision is verified here, the file reading is the
//! caller's.

use vstd::prelude::*;

use crate::strutil::rfind_slash;

verus! {

/// The tunable model parameters this crate knows about.
pub struct LlmConfig {
    /// The model's context window, in tokens.
    pub context_length: usize,
}

/// A configuration file that could not be parsed.
#[derive(Clone, Copy, Debug, PartialEq, Eq, Structural)]
pub enum ConfigParseError {
    /// The text is not valid JSON.
    Invalid,
}

/// What parsing a configuration text yields: nothing for invalid JSON,
/// otherwise the `max_position_embeddings` field if it is present as a
/// nonnegative integer.
pub uninterp spec fn config_max_position(s: Seq<char>) -> Option<Option<u64>>;

/// Relies on serde_json::from_str and Value::get / Value::as_u64: the
/// parse of a string depends on its characters alone.
#[verifier::external_body]
fn read_max_position(contents: &str) -> (r: Option<Option<u64>>)
    ensures
        r == config_max_position(contents@),
{
    match serde_json::from_str::<serde_json::Value>(contents) {
        Err(_) => None,
        Ok(v) => Some(
            match v.get("max_position_embeddings") {
                None => None,
                Some(x) => x.as_u64(),
            },
        ),
    }
}

/// Applies the defaults found in a configuration text.
///
/// Invalid JSON is an error and changes nothing; a missing field changes
/// nothing; a present field sets the context length.
pub fn parse_config_json(contents: &str, llm_config: &mut LlmConfig) -> (r: Result<
    (),
    ConfigParseError,
>)
    ensures
        config_max_position(contents@) is None ==> r == Err::<(), ConfigParseError>(
            ConfigParseError::Invalid,
        ) && *final(llm_config) == *old(llm_config),
        config_max_position(contents@) matches Some(None) ==> r is Ok && *final(llm_config)
            == *old(llm_config),
        config_max_position(contents@) matches Some(Some(m)) ==> r is Ok
            && final(llm_config).context_length == m as usize,
{
    match read_max_position(contents) {
        None => Err(ConfigParseError::Invalid),
        Some(None) => Ok(()),
        Some(Some(m)) => {
            llm_config.context_length = m as usize;
            Ok(())
        },
    }
}

/// The path of the configuration file that belongs to a model path: for a
/// file, `config.json` beside it; for a directory, `config.json` inside
/// it. A file path without a containing directory has no configuration.
pub fn config_json_path(path: &str, path_is_file: bool) -> (r: Option<String>)
    ensures
        !path_is_file ==> (r matches Some(p) && p@ == path@ + "/config.json"@),
        path_is_file ==> match r {
            Some(p) => exists|q: int|
                {
                    &&& 0 <= q < path@.len()
                    &&& path@[q] == '/'
                    &&& forall|i: int| q < i < path@.len() ==> path@[i] != '/'
                    &&& p@ == path@.take(q) + "/config.json"@
                },
            None => forall|i: int| 0 <= i < path@.len() ==> path@[i] != '/',
        },
{
    if !path_is_file {
        let mut p = path.to_owned();
        p.append("/config.json");
        return Some(p);
    }
    match rfind_slash(path) {
        None => None,
        Some(q) => {
            let mut p = path.substring_char(0, q).to_owned();
            p.append("/config.json");
            Some(p)
        },
    }
}

} // verus!
