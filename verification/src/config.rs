//! What the program remembers from one run to the next.

use vstd::prelude::*;
use vstd::slice::slice_subrange;
use vstd::string::StringExecFns;
use crate::cursor::{chars_before, is_boundary, lemma_located_boundary, locate};
use crate::state::setting_views;
use crate::strings::{byte_len, chars_of, string_of};

verus! {

/// The settings that are kept between runs.
#[derive(Debug, Clone)]
pub struct AppConfig {
    pub last_used_model: Option<String>,
}

/// The model to use: the one that was used last, else the one that the
/// environment names, else the default.
pub open spec fn chosen_model(
    saved: Option<Seq<char>>,
    env_model: Option<Seq<char>>,
    default: Seq<char>,
) -> Seq<char> {
    match saved {
        Some(model) => model,
        None => match env_model {
            Some(model) => model,
            None => default,
        },
    }
}

impl AppConfig {
    /// The model that was used last, if one is remembered.
    pub open spec fn saved_model(&self) -> Option<Seq<char>> {
        match self.last_used_model {
            Some(model) => Some(model@),
            None => None,
        }
    }

    /// The model to use: the one that was used last, else the one that the
    /// environment names, else `default`.
    pub fn get_model(&self, env_model: Option<&str>, default: &str) -> (model: String)
        ensures
            model@ == chosen_model(
                self.saved_model(),
                match env_model {
                    Some(name) => Some(name@),
                    None => None,
                },
                default@,
            ),
    {
        match &self.last_used_model {
            Some(saved_model) => saved_model.clone(),
            None => match env_model {
                Some(env_model) => String::from_str(env_model),
                None => String::from_str(default),
            },
        }
    }

    /// Remembers `model` as the model that was used last.
    pub fn set_last_used_model(&mut self, model: String)
        ensures
            final(self).saved_model() == Some(model@),
    {
        self.last_used_model = Some(model);
    }
}

impl Default for AppConfig {
    fn default() -> (config: AppConfig)
        ensures
            config.last_used_model is None,
    {
        AppConfig { last_used_model: None }
    }
}

/// What the environment holds of the variables that the program reads.
#[derive(Debug, Clone)]
pub struct Environment {
    /// `OPENAI_API_KEY`
    pub api_key: Option<String>,
    /// `OPENAI_MODEL`
    pub model: Option<String>,
    /// `PROMPT`
    pub prompt: Option<String>,
    /// `VOICEVOX_ENGINE_URL`
    pub engine_url: Option<String>,
}

/// The text of a string that may be missing.
pub open spec fn text_view(text: Option<String>) -> Option<Seq<char>> {
    match text {
        Some(t) => Some(t@),
        None => None,
    }
}

/// The first eight and the last eight bytes of a key, with three dots
/// between them.
pub open spec fn masked_key(key: Seq<char>) -> Seq<char> {
    key.take(chars_before(key, 8)) + "..."@ + key.skip(chars_before(key, byte_len(key) - 8))
}

/// A key can be masked if it has eight bytes at least, and eight bytes can
/// be cut off at its start and at its end without cutting a character.
pub open spec fn can_mask(key: Seq<char>) -> bool {
    byte_len(key) >= 8 && is_boundary(key, 8) && is_boundary(key, byte_len(key) - 8)
}

/// A prompt of more than fifty bytes is shown by its first forty-seven
/// bytes and three dots.
pub open spec fn short_prompt(prompt: Seq<char>) -> Seq<char> {
    if byte_len(prompt) > 50 {
        prompt.take(chars_before(prompt, 47)) + "..."@
    } else {
        prompt
    }
}

/// A prompt can be shortened if it is cut between two characters.
pub open spec fn can_shorten(prompt: Seq<char>) -> bool {
    byte_len(prompt) > 50 ==> is_boundary(prompt, 47)
}

/// The settings can be listed for this environment.
pub open spec fn can_list(env: Environment) -> bool {
    &&& env.api_key matches Some(key) ==> can_mask(key@)
    &&& env.prompt matches Some(prompt) ==> can_shorten(prompt@)
}

/// One entry if there is a value, none otherwise.
pub open spec fn entry_if(label: Seq<char>, value: Option<Seq<char>>) -> Seq<
    (Seq<char>, Seq<char>),
> {
    match value {
        Some(v) => seq![(label, v)],
        None => Seq::empty(),
    }
}

/// `value` with `tag` behind it, or `otherwise` if there is no value.
pub open spec fn tagged_or(
    value: Option<Seq<char>>,
    tag: Seq<char>,
    otherwise: Seq<char>,
) -> Seq<char> {
    match value {
        Some(v) => v + tag,
        None => otherwise,
    }
}

/// The settings as the settings screen lists them, each with the place
/// that its value comes from, in the order of their labels.
pub open spec fn settings_of(
    saved: Option<Seq<char>>,
    env: Environment,
    config_path: Option<Seq<char>>,
) -> Seq<(Seq<char>, Seq<char>)> {
    seq![
        ("Available Models"@, "gpt-5, gpt-5-mini, gpt-5-nano"@),
        ("Config File Path"@, tagged_or(config_path, Seq::empty(), "Could not determine"@)),
    ] + entry_if(
        "Last Used Model"@,
        match saved {
            Some(model) => Some(model + " [config]"@),
            None => None,
        },
    ) + entry_if(
        "OpenAI API Key"@,
        match env.api_key {
            Some(key) => Some(masked_key(key@) + " [env]"@),
            None => None,
        },
    ) + seq![
        ("OpenAI Model (env)"@, tagged_or(text_view(env.model), " [env]"@, "Not set"@)),
        (
            "System Prompt"@,
            tagged_or(
                match env.prompt {
                    Some(prompt) => Some(short_prompt(prompt@)),
                    None => None,
                },
                " [env]"@,
                "Using default [default]"@,
            ),
        ),
        (
            "VOICEVOX Engine URL"@,
            tagged_or(
                text_view(env.engine_url),
                " [env]"@,
                "http://localhost:50021 [default]"@,
            ),
        ),
    ]
}

/// Whether eight bytes can be cut off a key at both ends.
pub fn key_can_be_masked(key: &str) -> (can: bool)
    ensures
        can == can_mask(key@),
{
    let bytes = key.as_bytes().len();
    if bytes < 8 {
        return false;
    }
    let chars = chars_of(key);
    let head = locate(chars.as_slice(), 8);
    let tail = locate(chars.as_slice(), bytes - 8);
    proof {
        lemma_located_boundary(chars@, 8);
        lemma_located_boundary(chars@, bytes - 8);
    }
    head.next_start == 8 && tail.next_start == bytes - 8
}

/// Whether a prompt can be shortened.
pub fn prompt_can_be_shortened(prompt: &str) -> (can: bool)
    ensures
        can == can_shorten(prompt@),
{
    let bytes = prompt.as_bytes().len();
    if bytes <= 50 {
        return true;
    }
    let chars = chars_of(prompt);
    let cut = locate(chars.as_slice(), 47);
    proof {
        lemma_located_boundary(chars@, 47);
    }
    cut.next_start == 47
}

fn mask_key(key: &str) -> (masked: String)
    requires
        can_mask(key@),
    ensures
        masked@ == masked_key(key@),
{
    let bytes = key.as_bytes().len();
    let chars = chars_of(key);
    let head = locate(chars.as_slice(), 8);
    let tail = locate(chars.as_slice(), bytes - 8);
    let mut masked = string_of(slice_subrange(chars.as_slice(), 0, head.count));
    masked.append("...");
    masked.append(string_of(slice_subrange(chars.as_slice(), tail.count, chars.len())).as_str());
    assert(masked@ =~= masked_key(key@));
    masked
}

fn shorten_prompt(prompt: &str) -> (short: String)
    requires
        can_shorten(prompt@),
    ensures
        short@ == short_prompt(prompt@),
{
    let bytes = prompt.as_bytes().len();
    if bytes > 50 {
        let chars = chars_of(prompt);
        let cut = locate(chars.as_slice(), 47);
        let mut short = string_of(slice_subrange(chars.as_slice(), 0, cut.count));
        short.append("...");
        assert(short@ =~= short_prompt(prompt@));
        short
    } else {
        String::from_str(prompt)
    }
}

fn tagged(value: &str, tag: &str) -> (text: String)
    ensures
        text@ == value@ + tag@,
{
    let mut text = String::from_str(value);
    text.append(tag);
    text
}

fn entry(label: &str, value: String) -> (pair: (String, String))
    ensures
        pair.0@ == label@,
        pair.1@ == value@,
{
    (String::from_str(label), value)
}

impl Environment {
    /// Whether the settings can be listed for this environment.
    pub fn can_be_listed(&self) -> (can: bool)
        ensures
            can == can_list(*self),
    {
        let key_fits = match &self.api_key {
            Some(key) => key_can_be_masked(key.as_str()),
            None => true,
        };
        let prompt_fits = match &self.prompt {
            Some(prompt) => prompt_can_be_shortened(prompt.as_str()),
            None => true,
        };
        key_fits && prompt_fits
    }
}

impl AppConfig {
    /// The settings as the settings screen lists them. `config_path` is
    /// where the settings are kept, if that could be told.
    pub fn get_all_settings(&self, env: &Environment, config_path: Option<&str>) -> (settings: Vec<
        (String, String),
    >)
        requires
            can_list(*env),
        ensures
            setting_views(settings@) == settings_of(
                self.saved_model(),
                *env,
                match config_path {
                    Some(path) => Some(path@),
                    None => None,
                },
            ),
    {
        let mut settings: Vec<(String, String)> = Vec::new();
        settings.push(entry("Available Models", String::from_str("gpt-5, gpt-5-mini, gpt-5-nano")));
        settings.push(
            entry(
                "Config File Path",
                match config_path {
                    Some(path) => {
                        assert(path@ + Seq::<char>::empty() =~= path@);
                        String::from_str(path)
                    },
                    None => String::from_str("Could not determine"),
                },
            ),
        );
        match &self.last_used_model {
            Some(model) => {
                settings.push(entry("Last Used Model", tagged(model.as_str(), " [config]")));
            },
            None => {},
        }
        match &env.api_key {
            Some(key) => {
                let masked = mask_key(key.as_str());
                settings.push(entry("OpenAI API Key", tagged(masked.as_str(), " [env]")));
            },
            None => {},
        }
        settings.push(
            entry(
                "OpenAI Model (env)",
                match &env.model {
                    Some(model) => tagged(model.as_str(), " [env]"),
                    None => String::from_str("Not set"),
                },
            ),
        );
        settings.push(
            entry(
                "System Prompt",
                match &env.prompt {
                    Some(prompt) => {
                        let short = shorten_prompt(prompt.as_str());
                        tagged(short.as_str(), " [env]")
                    },
                    None => String::from_str("Using default [default]"),
                },
            ),
        );
        settings.push(
            entry(
                "VOICEVOX Engine URL",
                match &env.engine_url {
                    Some(url) => tagged(url.as_str(), " [env]"),
                    None => String::from_str("http://localhost:50021 [default]"),
                },
            ),
        );
        assert(setting_views(settings@) =~= settings_of(
            self.saved_model(),
            *env,
            match config_path {
                Some(path) => Some(path@),
                None => None,
            },
        ));
        settings
    }
}

} // verus!
