//! What the settings of the proxy mean, one by one, and where a model goes.

use vstd::prelude::*;

use crate::config::{
    configures, digits_value, has_key, has_prefix, pairs, port_in, provider_for, Config, Settings,
};
use crate::json::views;
use crate::text::{lowercase, split, texts, trimmed};
use crate::util::{csv_entries, model_key, unix_seconds};
use crate::words::lemma_words_differ;

verus! {

/// The text of a setting, or what counts where it is not given.
pub open spec fn given_or(value: Option<String>, otherwise: Seq<char>) -> Seq<char> {
    match value {
        Some(text) => text@,
        None => otherwise,
    }
}

/// Every setting counts as it is given. Where it is not: the port is 4000 (also where none can be
/// read), the services are at their own addresses, there is no key and no default provider, the
/// model of MiniMax is `MiniMax-M2.7`, and OpenAI's models are known by six prefixes.
pub proof fn law_settings_count(s: Settings, c: Config)
    requires
        configures(s, c),
    ensures
        s.proxy_port is None ==> c.port == 4000,
        s.proxy_port matches Some(text) ==> match port_in(text@) {
            Some(port) => c.port == port,
            None => c.port == 4000,
        },
        c.minimax_base@ == given_or(s.minimax_base_url, "https://api.minimax.io/v1"@),
        c.openai_base@ == given_or(s.openai_base_url, "https://api.openai.com/v1"@),
        c.minimax_key@ == given_or(s.minimax_api_key, ""@),
        c.openai_key@ == given_or(s.openai_api_key, ""@),
        c.github_token@ == s.github_token@,
        texts(c.minimax_models@) == csv_entries(
            split(given_or(s.minimax_models, "MiniMax-M2.7"@), ","@),
        ),
        texts(c.openai_model_prefixes@) == csv_entries(
            split(given_or(s.openai_model_prefixes, "gpt-,o1,o3,o4,codex-,chatgpt-"@), ","@),
        ),
        c.default_provider@ == lowercase(trimmed(given_or(s.default_provider, ""@))),
        has_key(s) <==> c.minimax_key@.len() > 0 || c.openai_key@.len() > 0,
{
}

/// A provider is enabled where it has a key, MiniMax before OpenAI.
pub proof fn law_enabled_providers(s: Settings, c: Config)
    requires
        configures(s, c),
    ensures
        ({
            let on = texts(c.enabled_providers@);
            let minimax = c.minimax_key@.len() > 0;
            let openai = c.openai_key@.len() > 0;
            &&& minimax && openai ==> on == seq!["minimax"@, "openai"@]
            &&& minimax && !openai ==> on == seq!["minimax"@]
            &&& !minimax && openai ==> on == seq!["openai"@]
            &&& !minimax && !openai ==> on.len() == 0
        }),
{
    let on = texts(c.enabled_providers@);
    if c.minimax_key@.len() > 0 && c.openai_key@.len() > 0 {
        assert(on =~= seq!["minimax"@, "openai"@]);
    } else if c.minimax_key@.len() > 0 {
        assert(on =~= seq!["minimax"@]);
    } else if c.openai_key@.len() > 0 {
        assert(on =~= seq!["openai"@]);
    }
}

/// The catalog lists the models of MiniMax, in their order, each by its name, and each of them is
/// mapped to MiniMax by the name under which it is compared.
pub proof fn law_catalog(s: Settings, c: Config, k: int)
    requires
        configures(s, c),
        0 <= k < c.minimax_models@.len(),
    ensures
        c.model_catalog@.len() == c.minimax_models@.len(),
        c.explicit_model_provider@.len() == c.minimax_models@.len(),
        ({
            let entry = c.model_catalog@[k]@;
            &&& entry.text_at("id"@) == Some(c.minimax_models@[k]@)
            &&& entry.text_at("object"@) == Some("model"@)
            &&& entry.text_at("owned_by"@) == Some("minimax"@)
            &&& forall|key: Seq<char>|
                key != "id"@ && key != "object"@ && key != "owned_by"@ ==> #[trigger] entry.get(
                    key,
                ) is None
        }),
        c.explicit_model_provider@[k].0@ == lowercase(trimmed(c.minimax_models@[k]@)),
        c.explicit_model_provider@[k].1@ == "minimax"@,
{
    lemma_words_differ();
    reveal_strlit("owned_by");
    assert("owned_by"@.len() == 8 && "owned_by"@[0] == 'o');
    let models = texts(c.minimax_models@);
    assert(models[k] == c.minimax_models@[k]@);
    assert(models.len() == c.minimax_models@.len());
    assert(views(c.model_catalog@).len() == c.model_catalog@.len());
    assert(views(c.model_catalog@)[k] == c.model_catalog@[k]@);
    assert(c.model_catalog@[k]@ == crate::config::catalog_entry(models[k]));
    assert(pairs(c.explicit_model_provider@).len() == c.explicit_model_provider@.len());
    assert(pairs(c.explicit_model_provider@)[k] == (
        c.explicit_model_provider@[k].0@,
        c.explicit_model_provider@[k].1@,
    ));
}

/// Where a model that nothing speaks for goes: to the default provider where it is enabled, else to
/// OpenAI, else to MiniMax; nowhere without either.
pub proof fn law_fallback(c: Config)
    ensures
        ({
            let on = texts(c.enabled_providers@);
            let default = c.default_provider@;
            let chosen = default.len() > 0 && on.contains(default);
            &&& chosen ==> c.fallback() == Some(default)
            &&& !chosen && on.contains("openai"@) ==> c.fallback() == Some("openai"@)
            &&& !chosen && !on.contains("openai"@) && on.contains("minimax"@) ==> c.fallback()
                == Some("minimax"@)
            &&& !chosen && !on.contains("openai"@) && !on.contains("minimax"@)
                ==> c.fallback() is None
        }),
{
}

/// Where a model goes. A name that is mapped to a provider that is enabled goes there; else a name
/// with `minimax` in it goes to MiniMax, and a name that starts with a prefix of OpenAI goes to
/// OpenAI, where these are enabled; every other name, and an empty one, goes to the fallback, and
/// to OpenAI without one.
pub proof fn law_where_a_model_goes(c: Config, model: Seq<char>)
    ensures
        ({
            let on = texts(c.enabled_providers@);
            let key = lowercase(trimmed(model));
            let mapped = provider_for(pairs(c.explicit_model_provider@), key);
            let by_map = key.len() > 0 && mapped is Some && on.contains(mapped->0);
            let by_name = key.len() > 0 && on.contains("minimax"@) && crate::text::has(
                key,
                "minimax"@,
            );
            let by_prefix = key.len() > 0 && on.contains("openai"@) && exists|i: int|
                0 <= i < c.openai_model_prefixes@.len() && #[trigger] lowercase(
                    c.openai_model_prefixes@[i]@,
                ).is_prefix_of(key);
            &&& by_map ==> c.provider_of(model) == mapped->0
            &&& !by_map && by_name ==> c.provider_of(model) == "minimax"@
            &&& !by_map && !by_name && by_prefix ==> c.provider_of(model) == "openai"@
            &&& !by_map && !by_name && !by_prefix ==> c.provider_of(model) == (match c.fallback() {
                Some(provider) => provider,
                None => "openai"@,
            })
        }),
{
    let key = model_key(model);
    let prefixes = c.lowered_prefixes();
    if exists|i: int|
        0 <= i < c.openai_model_prefixes@.len() && #[trigger] lowercase(
            c.openai_model_prefixes@[i]@,
        ).is_prefix_of(key) {
        let i = choose|i: int|
            0 <= i < c.openai_model_prefixes@.len() && #[trigger] lowercase(
                c.openai_model_prefixes@[i]@,
            ).is_prefix_of(key);
        assert(texts(c.openai_model_prefixes@)[i] == c.openai_model_prefixes@[i]@);
        assert(prefixes[i] == lowercase(c.openai_model_prefixes@[i]@));
        assert(has_prefix(key, prefixes));
    } else if has_prefix(key, prefixes) {
        let i = choose|i: int| 0 <= i < prefixes.len() && (#[trigger] prefixes[i]).is_prefix_of(key);
        assert(texts(c.openai_model_prefixes@)[i] == c.openai_model_prefixes@[i]@);
        assert(lowercase(c.openai_model_prefixes@[i]@).is_prefix_of(key));
    }
}

/// Of two mappings of one name the later one counts.
pub proof fn law_mapping(
    map: Seq<(Seq<char>, Seq<char>)>,
    name: Seq<char>,
    provider: Seq<char>,
    other: Seq<char>,
)
    ensures
        provider_for(Seq::empty(), other) is None,
        provider_for(map.push((name, provider)), name) == Some(provider),
        other != name ==> provider_for(map.push((name, provider)), other) == provider_for(
            map,
            other,
        ),
{
    assert(map.push((name, provider)).drop_last() =~= map);
}

/// A text with anything but digits in it is no number, and so no port, but for one plus sign in
/// front.
pub proof fn law_numbers_are_digits(s: Seq<char>, k: int)
    requires
        0 <= k < s.len(),
        !('0' <= s[k] <= '9'),
    ensures
        digits_value(s) is None,
        k > 0 || s[k] != '+' ==> port_in(s) is None,
    decreases s.len(),
{
    if k < s.len() - 1 {
        assert(s.drop_last()[k] == s[k]);
        law_numbers_are_digits(s.drop_last(), k);
    }
    if s[0] == '+' && k > 0 {
        assert(s.skip(1)[k - 1] == s[k]);
        law_numbers_are_digits(s.skip(1), k - 1);
    }
}

/// The time of a response is the whole seconds since the epoch, and zero before it.
pub proof fn law_time_of_a_response(since: Option<u64>)
    ensures
        since is None ==> unix_seconds(since) == 0,
        since matches Some(seconds) ==> (seconds <= i64::MAX ==> unix_seconds(since) == seconds),
{
}

} // verus!
