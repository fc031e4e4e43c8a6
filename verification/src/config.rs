//! The configuration of the proxy, and which provider serves a model.

use vstd::prelude::*;
use vstd::string::*;

use crate::json::{empty_object, group_json, views, Json, Jv};
use crate::text::{chars_of, contains, has, lowercase, same, split, starts_with, texts, to_lower, trim, trimmed};
use crate::util::{csv_entries, holds, model_key, normalize_model_id, parse_csv};

verus! {

broadcast use group_json;

/// What the environment says; `None` where it says nothing.
pub struct Settings {
    pub proxy_port: Option<String>,
    pub minimax_base_url: Option<String>,
    pub minimax_api_key: Option<String>,
    pub minimax_models: Option<String>,
    pub openai_base_url: Option<String>,
    pub openai_api_key: Option<String>,
    pub openai_model_prefixes: Option<String>,
    pub default_provider: Option<String>,
    /// The token for the GitHub API, from wherever it was had.
    pub github_token: String,
}

/// Why there is no configuration, or no provider.
#[derive(Clone, Copy, Debug, PartialEq, Eq, Structural)]
pub enum ConfigError {
    /// Neither of the two upstream providers has a key.
    NoKey,
    /// No provider is enabled.
    NoProvider,
}

impl ConfigError {
    /// What went wrong, in words.
    pub fn message(&self) -> (r: &'static str)
        ensures
            r@ == (match *self {
                ConfigError::NoKey =>
                    "At least one upstream provider key is required: set MINIMAX_API_KEY and/or OPENAI_API_KEY"@,
                ConfigError::NoProvider => "No providers are enabled"@,
            }),
    {
        match self {
            ConfigError::NoKey => {
                "At least one upstream provider key is required: set MINIMAX_API_KEY and/or OPENAI_API_KEY"
            },
            ConfigError::NoProvider => "No providers are enabled",
        }
    }
}

pub struct Config {
    pub port: u16,
    pub minimax_base: String,
    pub minimax_key: String,
    pub minimax_models: Vec<String>,
    pub openai_base: String,
    pub openai_key: String,
    pub openai_model_prefixes: Vec<String>,
    pub default_provider: String,
    pub github_token: String,
    /// The providers that have a key, each once.
    pub enabled_providers: Vec<String>,
    /// Which provider serves a model, by the form in which model identifiers are compared. Of
    /// two entries for one model the later counts.
    pub explicit_model_provider: Vec<(String, String)>,
    pub model_catalog: Vec<Json>,
}

// ─── Reading the settings ──────────────────────────────────────────────────

/// The value of a decimal digit.
pub open spec fn digit(c: char) -> Option<nat> {
    if '0' <= c <= '9' {
        Some((c as int - '0' as int) as nat)
    } else {
        None
    }
}

/// The number that a list of decimal digits stands for.
pub open spec fn digits_value(s: Seq<char>) -> Option<nat>
    decreases s.len(),
{
    if s.len() == 0 {
        Some(0)
    } else {
        match (digits_value(s.drop_last()), digit(s.last())) {
            (Some(n), Some(d)) => Some(n * 10 + d),
            _ => None,
        }
    }
}

/// The digits of a number text: all of it, but for a plus sign in front.
pub open spec fn unsigned_digits(s: Seq<char>) -> Seq<char> {
    if s.len() > 0 && s[0] == '+' {
        s.skip(1)
    } else {
        s
    }
}

/// The port that a text gives: a decimal number of at most sixteen bits, with or without a plus
/// sign.
pub open spec fn port_in(s: Seq<char>) -> Option<u16> {
    let digits = unsigned_digits(s);
    if digits.len() == 0 {
        None
    } else {
        match digits_value(digits) {
            Some(n) => if n <= u16::MAX {
                Some(n as u16)
            } else {
                None
            },
            None => None,
        }
    }
}

proof fn lemma_digits_grow(s: Seq<char>, k: int)
    requires
        0 <= k <= s.len(),
    ensures
        digits_value(s.take(k)) is None ==> digits_value(s) is None,
        (digits_value(s.take(k)) matches Some(n) && n > u16::MAX) ==> (digits_value(s) matches Some(
            m,
        ) ==> m > u16::MAX),
    decreases s.len() - k,
{
    if k == s.len() {
        assert(s.take(k) =~= s);
    } else {
        assert(s.take(k + 1).drop_last() =~= s.take(k));
        lemma_digits_grow(s, k + 1);
    }
}

fn parse_port(text: &str) -> (r: Option<u16>)
    ensures
        r == port_in(text@),
{
    let chars = chars_of(text);
    let start: usize = if chars.len() > 0 && chars[0] == '+' {
        1
    } else {
        0
    };
    let ghost digits = unsigned_digits(text@);
    assert(digits =~= text@.skip(start as int));
    if start == chars.len() {
        return None;
    }
    let mut value: u32 = 0;
    let mut i: usize = start;
    assert(digits.take(0) =~= Seq::empty());
    while i < chars.len()
        invariant
            start <= i <= chars@.len(),
            start < chars@.len(),
            chars@ == text@,
            digits == text@.skip(start as int),
            digits == unsigned_digits(text@),
            value <= u16::MAX,
            digits_value(digits.take(i - start)) == Some(value as nat),
        decreases chars@.len() - i,
    {
        let c = chars[i];
        proof {
            assert(digits[i - start] == c);
            assert(digits.take(i + 1 - start).drop_last() =~= digits.take(i - start));
            assert(digits.take(i + 1 - start).last() == c);
            lemma_digits_grow(digits, i + 1 - start);
        }
        if !('0' <= c && c <= '9') {
            return None;
        }
        value = value * 10 + (c as u32 - '0' as u32);
        if value > 65535 {
            return None;
        }
        i = i + 1;
    }
    assert(digits.take(i - start) =~= digits);
    Some(value as u16)
}

/// A setting, or its default where there is none.
pub open spec fn setting(value: Option<String>, default: Seq<char>) -> Seq<char> {
    match value {
        Some(s) => s@,
        None => default,
    }
}

fn setting_or(value: &Option<String>, default: &str) -> (r: String)
    ensures
        r@ == setting(*value, default@),
{
    match value {
        Some(s) => s.clone(),
        None => default.to_owned(),
    }
}

/// The providers that have a key.
pub open spec fn providers_with_key(minimax_key: Seq<char>, openai_key: Seq<char>) -> Seq<
    Seq<char>,
> {
    (if minimax_key.len() > 0 {
        seq!["minimax"@]
    } else {
        Seq::empty()
    }) + (if openai_key.len() > 0 {
        seq!["openai"@]
    } else {
        Seq::empty()
    })
}

/// The entry of the catalog for a model.
pub open spec fn catalog_entry(model: Seq<char>) -> Jv {
    empty_object().put("id"@, Jv::Str(model)).put("object"@, Jv::Str("model"@)).put(
        "owned_by"@,
        Jv::Str("minimax"@),
    )
}

/// The entries of a map from model to provider.
pub open spec fn pairs(list: Seq<(String, String)>) -> Seq<(Seq<char>, Seq<char>)> {
    Seq::new(list.len(), |i: int| (list[i].0@, list[i].1@))
}

/// The configuration that the settings make, given that there is one, and given the forms in
/// which the models and the default provider are compared.
pub open spec fn assembles(
    s: Settings,
    model_keys: Seq<Seq<char>>,
    default_provider: Seq<char>,
    c: Config,
) -> bool {
    let models = models_in(s);
    &&& c.port == (match s.proxy_port {
        Some(text) => match port_in(text@) {
            Some(port) => port,
            None => 4000,
        },
        None => 4000,
    })
    &&& c.minimax_base@ == setting(s.minimax_base_url, "https://api.minimax.io/v1"@)
    &&& c.minimax_key@ == setting(s.minimax_api_key, ""@)
    &&& texts(c.minimax_models@) == models
    &&& c.openai_base@ == setting(s.openai_base_url, "https://api.openai.com/v1"@)
    &&& c.openai_key@ == setting(s.openai_api_key, ""@)
    &&& texts(c.openai_model_prefixes@) == csv_entries(
        split(setting(s.openai_model_prefixes, "gpt-,o1,o3,o4,codex-,chatgpt-"@), ","@),
    )
    &&& c.default_provider@ == default_provider
    &&& c.github_token@ == s.github_token@
    &&& texts(c.enabled_providers@) == providers_with_key(c.minimax_key@, c.openai_key@)
    &&& pairs(c.explicit_model_provider@) == model_keys.map_values(
        |key: Seq<char>| (key, "minimax"@),
    )
    &&& views(c.model_catalog@) == models.map_values(|m: Seq<char>| catalog_entry(m))
}

/// The models that the settings name.
pub open spec fn models_in(s: Settings) -> Seq<Seq<char>> {
    csv_entries(split(setting(s.minimax_models, "MiniMax-M2.7"@), ","@))
}

/// The configuration that the settings make, given that there is one.
pub open spec fn configures(s: Settings, c: Config) -> bool {
    assembles(
        s,
        models_in(s).map_values(|m: Seq<char>| model_key(m)),
        lowercase(trimmed(setting(s.default_provider, ""@))),
        c,
    )
}

/// Whether the settings give a key for one of the two upstream providers.
pub open spec fn has_key(s: Settings) -> bool {
    setting(s.minimax_api_key, ""@).len() > 0 || setting(s.openai_api_key, ""@).len() > 0
}

// ─── Choosing a provider ───────────────────────────────────────────────────

/// The provider that a map from model to provider gives for a key.
pub open spec fn provider_for(map: Seq<(Seq<char>, Seq<char>)>, key: Seq<char>) -> Option<Seq<char>>
    decreases map.len(),
{
    if map.len() == 0 {
        None
    } else if map.last().0 == key {
        Some(map.last().1)
    } else {
        provider_for(map.drop_last(), key)
    }
}

/// Whether a text starts with one of a list of prefixes.
pub open spec fn has_prefix(text: Seq<char>, prefixes: Seq<Seq<char>>) -> bool {
    exists|i: int| 0 <= i < prefixes.len() && (#[trigger] prefixes[i]).is_prefix_of(text)
}

impl Config {
    /// Whether a provider is enabled.
    pub open spec fn enables(&self, provider: Seq<char>) -> bool {
        texts(self.enabled_providers@).contains(provider)
    }

    /// The provider to fall back on: the default where it is enabled, then OpenAI, then MiniMax.
    pub open spec fn fallback(&self) -> Option<Seq<char>> {
        if self.default_provider@.len() > 0 && self.enables(self.default_provider@) {
            Some(self.default_provider@)
        } else if self.enables("openai"@) {
            Some("openai"@)
        } else if self.enables("minimax"@) {
            Some("minimax"@)
        } else {
            None
        }
    }

    /// The provider that a model identifier asks for, by the map, by its name, or by one of the
    /// given prefixes of OpenAI, where that provider is enabled.
    pub open spec fn asked_for(&self, key: Seq<char>, prefixes: Seq<Seq<char>>) -> Option<
        Seq<char>,
    > {
        let mapped = provider_for(pairs(self.explicit_model_provider@), key);
        if key.len() == 0 {
            None
        } else if mapped is Some && self.enables(mapped->0) {
            mapped
        } else if self.enables("minimax"@) && has(key, "minimax"@) {
            Some("minimax"@)
        } else if self.enables("openai"@) && has_prefix(key, prefixes) {
            Some("openai"@)
        } else {
            None
        }
    }

    /// The provider that serves a model, by the form in which model identifiers are compared,
    /// given the prefixes of OpenAI in that form.
    pub open spec fn provider_by(&self, key: Seq<char>, prefixes: Seq<Seq<char>>) -> Seq<char> {
        match self.asked_for(key, prefixes) {
            Some(provider) => provider,
            None => match self.fallback() {
                Some(provider) => provider,
                None => "openai"@,
            },
        }
    }

    /// The prefixes of OpenAI in the form in which model identifiers are compared.
    pub open spec fn lowered_prefixes(&self) -> Seq<Seq<char>> {
        texts(self.openai_model_prefixes@).map_values(|p: Seq<char>| lowercase(p))
    }

    /// The provider that serves a model.
    pub open spec fn provider_of(&self, model: Seq<char>) -> Seq<char> {
        self.provider_by(model_key(model), self.lowered_prefixes())
    }

    /// The configuration that the settings make, given the forms in which the models and the
    /// default provider are compared; an error where neither provider has a key.
    pub fn assemble(
        settings: Settings,
        model_keys: Vec<String>,
        default_provider: String,
    ) -> (r: Result<Config, ConfigError>)
        ensures
            (match r {
                Ok(config) => has_key(settings) && assembles(
                    settings,
                    texts(model_keys@),
                    default_provider@,
                    config,
                ),
                Err(e) => e == ConfigError::NoKey && !has_key(settings),
            }),
    {
        let port = match &settings.proxy_port {
            Some(text) => match parse_port(text.as_str()) {
                Some(port) => port,
                None => 4000,
            },
            None => 4000,
        };
        let minimax_key = setting_or(&settings.minimax_api_key, "");
        let openai_key = setting_or(&settings.openai_api_key, "");
        if minimax_key.as_str().is_empty() && openai_key.as_str().is_empty() {
            return Err(ConfigError::NoKey);
        }
        let minimax_models = parse_csv(
            setting_or(&settings.minimax_models, "MiniMax-M2.7").as_str(),
        );
        let openai_model_prefixes = parse_csv(
            setting_or(&settings.openai_model_prefixes, "gpt-,o1,o3,o4,codex-,chatgpt-").as_str(),
        );
        let mut enabled_providers: Vec<String> = Vec::new();
        if !minimax_key.as_str().is_empty() {
            enabled_providers.push("minimax".to_owned());
        }
        if !openai_key.as_str().is_empty() {
            enabled_providers.push("openai".to_owned());
        }
        assert(texts(enabled_providers@) =~= providers_with_key(minimax_key@, openai_key@));
        let explicit_model_provider = map_to_minimax(&model_keys);
        let model_catalog = catalog_of(&minimax_models);
        Ok(
            Config {
                port,
                minimax_base: setting_or(&settings.minimax_base_url, "https://api.minimax.io/v1"),
                minimax_key,
                minimax_models,
                openai_base: setting_or(&settings.openai_base_url, "https://api.openai.com/v1"),
                openai_key,
                openai_model_prefixes,
                default_provider,
                github_token: settings.github_token,
                enabled_providers,
                explicit_model_provider,
                model_catalog,
            },
        )
    }

    /// The configuration that the settings make; an error where neither provider has a key.
    pub fn from_settings(settings: Settings) -> (r: Result<Config, ConfigError>)
        ensures
            (match r {
                Ok(config) => has_key(settings) && configures(settings, config),
                Err(e) => e == ConfigError::NoKey && !has_key(settings),
            }),
    {
        let models = parse_csv(setting_or(&settings.minimax_models, "MiniMax-M2.7").as_str());
        let ghost named = models_in(settings);
        let mut model_keys: Vec<String> = Vec::new();
        let mut i: usize = 0;
        while i < models.len()
            invariant
                i <= models@.len(),
                named == texts(models@),
                model_keys@.len() == i,
                forall|k: int| 0 <= k < i ==> (#[trigger] model_keys@[k])@ == model_key(named[k]),
            decreases models@.len() - i,
        {
            model_keys.push(normalize_model_id(models[i].as_str()));
            i = i + 1;
        }
        assert(texts(model_keys@) =~= named.map_values(|m: Seq<char>| model_key(m)));
        let default_provider = to_lower(
            trim(setting_or(&settings.default_provider, "").as_str()).as_str(),
        );
        Config::assemble(settings, model_keys, default_provider)
    }

    /// The provider to fall back on; an error where none is enabled.
    pub fn get_fallback_provider(&self) -> (r: Result<String, ConfigError>)
        ensures
            (match r {
                Ok(provider) => self.fallback() == Some(provider@),
                Err(e) => e == ConfigError::NoProvider && self.fallback() is None,
            }),
    {
        if !self.default_provider.as_str().is_empty() && holds(
            &self.enabled_providers,
            self.default_provider.as_str(),
        ) {
            return Ok(self.default_provider.clone());
        }
        if holds(&self.enabled_providers, "openai") {
            return Ok("openai".to_owned());
        }
        if holds(&self.enabled_providers, "minimax") {
            return Ok("minimax".to_owned());
        }
        Err(ConfigError::NoProvider)
    }

    fn mapped_provider(&self, key: &str) -> (r: Option<&str>)
        ensures
            (match r {
                Some(provider) => provider_for(pairs(self.explicit_model_provider@), key@) == Some(
                    provider@,
                ),
                None => provider_for(pairs(self.explicit_model_provider@), key@) is None,
            }),
    {
        let ghost all = pairs(self.explicit_model_provider@);
        let mut i: usize = self.explicit_model_provider.len();
        assert(all.take(i as int) =~= all);
        while i > 0
            invariant
                i <= self.explicit_model_provider@.len(),
                all == pairs(self.explicit_model_provider@),
                provider_for(all, key@) == provider_for(all.take(i as int), key@),
            decreases i,
        {
            assert(all.take(i as int).drop_last() =~= all.take(i - 1));
            assert(all.take(i as int).last() == all[i - 1]);
            i = i - 1;
            if same(self.explicit_model_provider[i].0.as_str(), key) {
                return Some(self.explicit_model_provider[i].1.as_str());
            }
        }
        None
    }

    /// The provider that serves a model, by the form in which model identifiers are compared,
    /// given the prefixes of OpenAI in that form.
    pub fn provider_for_key(&self, key: &str, prefixes: &Vec<String>) -> (r: String)
        ensures
            r@ == self.provider_by(key@, texts(prefixes@)),
    {
        if !key.is_empty() {
            match self.mapped_provider(key) {
                Some(provider) => {
                    if holds(&self.enabled_providers, provider) {
                        return provider.to_owned();
                    }
                },
                None => {},
            }
            if holds(&self.enabled_providers, "minimax") && contains(key, "minimax") {
                return "minimax".to_owned();
            }
            if holds(&self.enabled_providers, "openai") && starts_with_any(key, prefixes) {
                return "openai".to_owned();
            }
        }
        match self.get_fallback_provider() {
            Ok(provider) => provider,
            Err(_) => "openai".to_owned(),
        }
    }

    /// The provider that serves a model.
    pub fn resolve_provider_for_model(&self, model: &str) -> (r: String)
        ensures
            r@ == self.provider_of(model@),
    {
        let key = normalize_model_id(model);
        let mut prefixes: Vec<String> = Vec::new();
        let mut i: usize = 0;
        while i < self.openai_model_prefixes.len()
            invariant
                i <= self.openai_model_prefixes@.len(),
                prefixes@.len() == i,
                forall|k: int|
                    0 <= k < i ==> (#[trigger] prefixes@[k])@ == lowercase(
                        self.openai_model_prefixes@[k]@,
                    ),
            decreases self.openai_model_prefixes@.len() - i,
        {
            prefixes.push(to_lower(self.openai_model_prefixes[i].as_str()));
            i = i + 1;
        }
        assert(texts(prefixes@) =~= self.lowered_prefixes());
        self.provider_for_key(key.as_str(), &prefixes)
    }
}

/// The entries of the map that send models to MiniMax.
fn map_to_minimax(model_keys: &Vec<String>) -> (r: Vec<(String, String)>)
    ensures
        pairs(r@) == texts(model_keys@).map_values(|key: Seq<char>| (key, "minimax"@)),
{
    let ghost all = texts(model_keys@);
    let mut r: Vec<(String, String)> = Vec::new();
    let mut i: usize = 0;
    while i < model_keys.len()
        invariant
            i <= model_keys@.len(),
            all == texts(model_keys@),
            r@.len() == i,
            forall|k: int|
                0 <= k < i ==> (#[trigger] r@[k]).0@ == all[k] && r@[k].1@ == "minimax"@,
        decreases model_keys@.len() - i,
    {
        r.push((model_keys[i].clone(), "minimax".to_owned()));
        i = i + 1;
    }
    assert(pairs(r@) =~= all.map_values(|key: Seq<char>| (key, "minimax"@)));
    r
}

/// The catalog of a list of models.
fn catalog_of(models: &Vec<String>) -> (r: Vec<Json>)
    ensures
        views(r@) == texts(models@).map_values(|m: Seq<char>| catalog_entry(m)),
{
    let ghost all = texts(models@);
    let mut r: Vec<Json> = Vec::new();
    let mut i: usize = 0;
    while i < models.len()
        invariant
            i <= models@.len(),
            all == texts(models@),
            r@.len() == i,
            forall|k: int| 0 <= k < i ==> (#[trigger] r@[k])@ == catalog_entry(all[k]),
        decreases models@.len() - i,
    {
        let model = models[i].as_str();
        r.push(
            Json::object().with("id", Json::text(model)).with("object", Json::text("model")).with(
                "owned_by",
                Json::text("minimax"),
            ),
        );
        i = i + 1;
    }
    assert(views(r@) =~= all.map_values(|m: Seq<char>| catalog_entry(m)));
    r
}

fn starts_with_any(text: &str, prefixes: &Vec<String>) -> (r: bool)
    ensures
        r == has_prefix(text@, texts(prefixes@)),
{
    let ghost all = texts(prefixes@);
    let mut i: usize = 0;
    while i < prefixes.len()
        invariant
            i <= prefixes@.len(),
            all == texts(prefixes@),
            forall|k: int| 0 <= k < i ==> !(#[trigger] all[k]).is_prefix_of(text@),
        decreases prefixes@.len() - i,
    {
        if starts_with(text, prefixes[i].as_str()) {
            assert(all[i as int].is_prefix_of(text@));
            return true;
        }
        i = i + 1;
    }
    false
}

// ─── Laws ──────────────────────────────────────────────────────────────────

/// A model is never routed to a provider that is not enabled, as long as one of the two is.
pub proof fn law_provider_is_enabled(config: Config, model: Seq<char>)
    requires
        config.enables("openai"@) || config.enables("minimax"@),
    ensures
        config.enables(config.provider_of(model)),
{
}

/// A configuration from settings enables exactly the providers that have a key, so it always
/// enables one, and falls back on one.
pub proof fn law_settings_enable_a_provider(settings: Settings, config: Config)
    requires
        configures(settings, config),
        config.minimax_key@.len() > 0 || config.openai_key@.len() > 0,
    ensures
        config.enables("minimax"@) == (config.minimax_key@.len() > 0),
        config.enables("openai"@) == (config.openai_key@.len() > 0),
        config.fallback() is Some,
{
    reveal_strlit("minimax");
    reveal_strlit("openai");
    assert("minimax"@.len() == 7 && "openai"@.len() == 6);
    let on = providers_with_key(config.minimax_key@, config.openai_key@);
    assert(on == texts(config.enabled_providers@));
    if config.minimax_key@.len() > 0 {
        assert(on[0] == "minimax"@);
    }
    if config.openai_key@.len() > 0 {
        assert(on[on.len() - 1] == "openai"@);
    }
}

/// The explicit map comes before every other rule.
pub proof fn law_explicit_map_comes_first(config: Config, model: Seq<char>, provider: Seq<char>)
    requires
        model_key(model).len() > 0,
        provider_for(pairs(config.explicit_model_provider@), model_key(model)) == Some(provider),
        config.enables(provider),
    ensures
        config.provider_of(model) == provider,
{
}

/// Where the explicit map says nothing, a name with `minimax` in it goes to MiniMax, then a name
/// with a prefix of OpenAI goes to OpenAI, and every other name goes to the default provider,
/// each where it is enabled.
pub proof fn law_order_of_routing(config: Config, model: Seq<char>)
    ensures
        ({
            let key = model_key(model);
            let mapped = provider_for(pairs(config.explicit_model_provider@), key);
            let unmapped = mapped is None || !config.enables(mapped->0);
            let named = config.enables("minimax"@) && has(key, "minimax"@);
            let prefixed = config.enables("openai"@) && has_prefix(key, config.lowered_prefixes());
            let default = config.default_provider@;
            &&& key.len() > 0 && unmapped && named ==> config.provider_of(model) == "minimax"@
            &&& key.len() > 0 && unmapped && !named && prefixed ==> config.provider_of(model)
                == "openai"@
            &&& (key.len() == 0 || unmapped && !named && !prefixed) && default.len() > 0
                && config.enables(default) ==> config.provider_of(model) == default
        }),
{
}

proof fn lemma_provider_for_minimax(keys: Seq<Seq<char>>, k: int)
    requires
        0 <= k < keys.len(),
    ensures
        provider_for(keys.map_values(|key: Seq<char>| (key, "minimax"@)), keys[k]) == Some(
            "minimax"@,
        ),
    decreases keys.len(),
{
    let map = keys.map_values(|key: Seq<char>| (key, "minimax"@));
    let head = keys.drop_last();
    assert(map.drop_last() =~= head.map_values(|key: Seq<char>| (key, "minimax"@)));
    if k < head.len() {
        lemma_provider_for_minimax(head, k);
        assert(head[k] == keys[k]);
    }
}

/// Every model of the catalog is served by MiniMax, where MiniMax has a key.
pub proof fn law_catalog_models_go_to_minimax(settings: Settings, config: Config, k: int)
    requires
        configures(settings, config),
        config.minimax_key@.len() > 0,
        0 <= k < config.minimax_models@.len(),
        model_key(config.minimax_models@[k]@).len() > 0,
    ensures
        config.provider_of(config.minimax_models@[k]@) == "minimax"@,
{
    law_settings_enable_a_provider(settings, config);
    let models = models_in(settings);
    let keys = models.map_values(|m: Seq<char>| model_key(m));
    lemma_provider_for_minimax(keys, k);
    assert(models[k] == config.minimax_models@[k]@);
    assert(keys[k] == model_key(models[k]));
}

} // verus!
