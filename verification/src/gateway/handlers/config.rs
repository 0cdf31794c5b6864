//! Asking for the configuration.

use crate::gateway::dispatch::MethodError;
use crate::json;
use crate::json::Json;
use crate::json::JsonView;
use crate::text;
use crate::text::Text;
use vstd::prelude::*;
use vstd::string::*;

verus! {

/// What can be asked for.
pub struct ConfigSettings<S = String> {
    pub active_provider: S,
    pub model: S,
    pub max_tokens: u32,
    pub max_turns: u32,
}

impl View for ConfigSettings<String> {
    type V = ConfigSettings<Text>;

    open spec fn view(&self) -> ConfigSettings<Text> {
        ConfigSettings {
            active_provider: self.active_provider@,
            model: self.model@,
            max_tokens: self.max_tokens,
            max_turns: self.max_turns,
        }
    }
}

/// A value of the configuration.
pub enum ConfigValue<S = String> {
    Words(S),
    Number(u32),
}

impl View for ConfigValue<String> {
    type V = ConfigValue<Text>;

    open spec fn view(&self) -> ConfigValue<Text> {
        match *self {
            ConfigValue::Words(s) => ConfigValue::Words(s@),
            ConfigValue::Number(n) => ConfigValue::Number(n),
        }
    }
}

/// A key of the configuration, and its value.
pub struct ConfigReply<S = String> {
    pub key: S,
    pub value: ConfigValue<S>,
}

impl View for ConfigReply<String> {
    type V = ConfigReply<Text>;

    open spec fn view(&self) -> ConfigReply<Text> {
        ConfigReply { key: self.key@, value: self.value@ }
    }
}

/// The value of a key.
pub open spec fn value_of(c: ConfigSettings<Text>, key: Text) -> Option<ConfigValue<Text>> {
    if key == "provider"@ {
        Some(ConfigValue::Words(c.active_provider))
    } else if key == "model"@ {
        Some(ConfigValue::Words(c.model))
    } else if key == "max_tokens"@ {
        Some(ConfigValue::Number(c.max_tokens))
    } else if key == "max_turns"@ {
        Some(ConfigValue::Number(c.max_turns))
    } else {
        None
    }
}

/// What is replied to a question for the configuration.
pub open spec fn config_reply(c: ConfigSettings<Text>, params: JsonView) -> Result<
    ConfigReply<Text>,
    MethodError<Text>,
> {
    match json::str_member(params, "key"@) {
        None => Err(MethodError::InvalidParams("missing 'key' field"@)),
        Some(key) => match value_of(c, key) {
            Some(value) => Ok(ConfigReply { key, value }),
            None => Err(MethodError::NotFound("unknown config key: "@ + key)),
        },
    }
}

/// What a reply or an error holds.
pub open spec fn reply_view(r: Result<ConfigReply, MethodError>) -> Result<
    ConfigReply<Text>,
    MethodError<Text>,
> {
    match r {
        Ok(v) => Ok(v@),
        Err(e) => Err(e@),
    }
}

/// Answers `config.get`.
pub struct ConfigGetHandler {
    pub settings: ConfigSettings,
}

impl ConfigGetHandler {
    /// A handler for a configuration.
    pub fn new(settings: ConfigSettings) -> (r: ConfigGetHandler)
        ensures
            r.settings@ == settings@,
    {
        ConfigGetHandler { settings }
    }

    /// The value of the key that is asked for.
    pub fn handle(&self, params: &Json) -> (r: Result<ConfigReply, MethodError>)
        ensures
            reply_view(r) == config_reply(self.settings@, params@),
    {
        let key = match params.get_str("key") {
            Some(key) => key,
            None => {
                return Err(MethodError::InvalidParams(text::copy("missing 'key' field")));
            },
        };
        if text::same(key.as_str(), "provider") {
            let value = ConfigValue::Words(text::copy(self.settings.active_provider.as_str()));
            Ok(ConfigReply { key, value })
        } else if text::same(key.as_str(), "model") {
            let value = ConfigValue::Words(text::copy(self.settings.model.as_str()));
            Ok(ConfigReply { key, value })
        } else if text::same(key.as_str(), "max_tokens") {
            Ok(ConfigReply { key, value: ConfigValue::Number(self.settings.max_tokens) })
        } else if text::same(key.as_str(), "max_turns") {
            Ok(ConfigReply { key, value: ConfigValue::Number(self.settings.max_turns) })
        } else {
            Err(MethodError::NotFound(text::cat2("unknown config key: ", key.as_str())))
        }
    }
}

/// Each setting that can be asked for is answered with its own value, under the key that
/// was asked for.
pub proof fn law_settings_are_told_as_they_are(c: ConfigSettings<Text>, params: JsonView)
    ensures
        json::str_member(params, "key"@) == Some("provider"@) ==> config_reply(c, params) == Ok::<
            _,
            MethodError<Text>,
        >(ConfigReply { key: "provider"@, value: ConfigValue::Words(c.active_provider) }),
        json::str_member(params, "key"@) == Some("model"@) ==> config_reply(c, params) == Ok::<
            _,
            MethodError<Text>,
        >(ConfigReply { key: "model"@, value: ConfigValue::Words(c.model) }),
        json::str_member(params, "key"@) == Some("max_tokens"@) ==> config_reply(c, params)
            == Ok::<_, MethodError<Text>>(
            ConfigReply { key: "max_tokens"@, value: ConfigValue::Number(c.max_tokens) },
        ),
        json::str_member(params, "key"@) == Some("max_turns"@) ==> config_reply(c, params)
            == Ok::<_, MethodError<Text>>(
            ConfigReply { key: "max_turns"@, value: ConfigValue::Number(c.max_turns) },
        ),
        json::str_member(params, "key"@) is None ==> config_reply(c, params) is Err,
{
    reveal_strlit("provider");
    reveal_strlit("model");
    reveal_strlit("max_tokens");
    reveal_strlit("max_turns");
    assert("provider"@.len() == 8 && "model"@.len() == 5);
    assert("max_tokens"@.len() == 10 && "max_turns"@.len() == 9);
}

} // verus!
