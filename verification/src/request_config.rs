//! Per-request configuration, merged from a compiled-in default and the
//! per-directory override files along the ancestor chain of the resolved
//! path (root first, last writer wins; list fields replace wholesale;
//! missing or unparsable values are skipped).

use vstd::prelude::*;

verus! {

/// The effective settings for one request.
pub struct ServerConfig {
    pub force_trailing_slash: bool,
    pub allow_extension_elision: Vec<String>,
    pub use_index: bool,
    pub auto_index: bool,
    pub allow_methods: Vec<String>,
    pub render_hbs: bool,
}

/// The configuration computed for one request.
pub struct RequestConfig {
    pub server: ServerConfig,
}

/// Spec-level image of a `ServerConfig`.
pub struct ConfigV {
    pub force_trailing_slash: bool,
    pub allow_extension_elision: Seq<Seq<char>>,
    pub use_index: bool,
    pub auto_index: bool,
    pub allow_methods: Seq<Seq<char>>,
    pub render_hbs: bool,
}

impl ServerConfig {
    /// The spec-level view of this configuration.
    pub open spec fn view_spec(&self) -> ConfigV {
        ConfigV {
            force_trailing_slash: self.force_trailing_slash,
            allow_extension_elision: self.allow_extension_elision.deep_view(),
            use_index: self.use_index,
            auto_index: self.auto_index,
            allow_methods: self.allow_methods.deep_view(),
            render_hbs: self.render_hbs,
        }
    }
}

/// The compiled-in defaults: serve `GET` only, elide `html` and `md`
/// extensions, use directory index files, generate listings, redirect
/// directories to their trailing-slash form, render templates.
pub open spec fn default_config_v() -> ConfigV {
    ConfigV {
        force_trailing_slash: true,
        allow_extension_elision: seq!["html"@, "md"@],
        use_index: true,
        auto_index: true,
        allow_methods: seq!["GET"@],
        render_hbs: true,
    }
}

impl Default for ServerConfig {
    /// The compiled-in default configuration.
    fn default() -> (r: ServerConfig)
        ensures
            r.view_spec() == default_config_v(),
    {
        let mut elision: Vec<String> = Vec::new();
        elision.push(String::from_str("html"));
        elision.push(String::from_str("md"));
        let mut methods: Vec<String> = Vec::new();
        methods.push(String::from_str("GET"));
        let r = ServerConfig {
            force_trailing_slash: true,
            allow_extension_elision: elision,
            use_index: true,
            auto_index: true,
            allow_methods: methods,
            render_hbs: true,
        };
        proof {
            assert(r.allow_extension_elision.deep_view() =~~= seq!["html"@, "md"@]);
            assert(r.allow_methods.deep_view() =~~= seq!["GET"@]);
        }
        r
    }
}

impl Default for RequestConfig {
    /// A request configuration holding the compiled-in defaults.
    fn default() -> (r: RequestConfig)
        ensures
            r.server.view_spec() == default_config_v(),
    {
        RequestConfig { server: ServerConfig::default() }
    }
}

/// The recognized fields of one per-directory override file; a field is
/// `None` when the file does not set it (or could not be parsed).
pub struct OverrideConfig {
    pub force_trailing_slash: Option<bool>,
    pub allow_extension_elision: Option<Vec<String>>,
    pub use_index: Option<bool>,
    pub auto_index: Option<bool>,
    pub allow_methods: Option<Vec<String>>,
    pub render_hbs: Option<bool>,
}

/// Spec-level image of an `OverrideConfig`.
pub struct OverrideV {
    pub force_trailing_slash: Option<bool>,
    pub allow_extension_elision: Option<Seq<Seq<char>>>,
    pub use_index: Option<bool>,
    pub auto_index: Option<bool>,
    pub allow_methods: Option<Seq<Seq<char>>>,
    pub render_hbs: Option<bool>,
}

impl OverrideConfig {
    /// The spec-level view of this override.
    pub open spec fn view_spec(&self) -> OverrideV {
        OverrideV {
            force_trailing_slash: self.force_trailing_slash,
            allow_extension_elision: self.allow_extension_elision.deep_view(),
            use_index: self.use_index,
            auto_index: self.auto_index,
            allow_methods: self.allow_methods.deep_view(),
            render_hbs: self.render_hbs,
        }
    }
}

/// One override applied to an accumulated configuration: a set field
/// overwrites, scalar or list alike; an unset field keeps the prior value.
pub open spec fn apply_v(c: ConfigV, o: OverrideV) -> ConfigV {
    ConfigV {
        force_trailing_slash: match o.force_trailing_slash {
            Some(v) => v,
            None => c.force_trailing_slash,
        },
        allow_extension_elision: match o.allow_extension_elision {
            Some(v) => v,
            None => c.allow_extension_elision,
        },
        use_index: match o.use_index {
            Some(v) => v,
            None => c.use_index,
        },
        auto_index: match o.auto_index {
            Some(v) => v,
            None => c.auto_index,
        },
        allow_methods: match o.allow_methods {
            Some(v) => v,
            None => c.allow_methods,
        },
        render_hbs: match o.render_hbs {
            Some(v) => v,
            None => c.render_hbs,
        },
    }
}

impl ServerConfig {
    /// Overwrites the fields that the override sets; keeps the rest.
    pub fn apply(&mut self, o: OverrideConfig)
        ensures
            final(self).view_spec() == apply_v(old(self).view_spec(), o.view_spec()),
    {
        let OverrideConfig {
            force_trailing_slash,
            allow_extension_elision,
            use_index,
            auto_index,
            allow_methods,
            render_hbs,
        } = o;
        match force_trailing_slash {
            Some(v) => {
                self.force_trailing_slash = v;
            },
            None => {},
        }
        match allow_extension_elision {
            Some(v) => {
                self.allow_extension_elision = v;
            },
            None => {},
        }
        match use_index {
            Some(v) => {
                self.use_index = v;
            },
            None => {},
        }
        match auto_index {
            Some(v) => {
                self.auto_index = v;
            },
            None => {},
        }
        match allow_methods {
            Some(v) => {
                self.allow_methods = v;
            },
            None => {},
        }
        match render_hbs {
            Some(v) => {
                self.render_hbs = v;
            },
            None => {},
        }
    }
}

/// What the TOML document at `text` holds under a dotted boolean key.
pub uninterp spec fn toml_bool_key(text: Seq<char>, key: Seq<char>) -> Option<bool>;

/// What the TOML document at `text` holds under a dotted string-list key.
pub uninterp spec fn toml_string_list_key(text: Seq<char>, key: Seq<char>) -> Option<
    Seq<Seq<char>>,
>;

/// Relies on the config crate's TOML backend: `Config::get_bool` on a
/// document built from `text` with `File::from_str`. The value found (or
/// its absence) depends on the text and the key alone.
#[verifier::external_body]
fn toml_get_bool(text: &str, key: &str) -> (r: Option<bool>)
    ensures
        r == toml_bool_key(text@, key@),
{
    let built = config::Config::builder().add_source(
        config::File::from_str(text, config::FileFormat::Toml),
    ).build();
    match built {
        Ok(c) => c.get_bool(key).ok(),
        Err(_) => None,
    }
}

/// Relies on the config crate's TOML backend: `Config::get` deserializing
/// a list of strings found under a dotted key of a document built from
/// `text`. The value found (or its absence) depends on the text and the
/// key alone.
#[verifier::external_body]
fn toml_get_string_list(text: &str, key: &str) -> (r: Option<Vec<String>>)
    ensures
        match r {
            Some(v) => toml_string_list_key(text@, key@) == Some(v.deep_view()),
            None => toml_string_list_key(text@, key@) is None,
        },
{
    let built = config::Config::builder().add_source(
        config::File::from_str(text, config::FileFormat::Toml),
    ).build();
    match built {
        Ok(c) => c.get::<Vec<String>>(key).ok(),
        Err(_) => None,
    }
}

/// The override that a given document text denotes.
pub open spec fn parsed_override(text: Seq<char>) -> OverrideV {
    OverrideV {
        force_trailing_slash: toml_bool_key(text, "server.force_trailing_slash"@),
        allow_extension_elision: toml_string_list_key(text, "server.allow_extension_elision"@),
        use_index: toml_bool_key(text, "server.use_index"@),
        auto_index: toml_bool_key(text, "server.auto_index"@),
        allow_methods: toml_string_list_key(text, "server.allow_methods"@),
        render_hbs: toml_bool_key(text, "server.render_hbs"@),
    }
}

/// Reads the recognized fields out of one override document.
pub fn parse_override(text: &str) -> (r: OverrideConfig)
    ensures
        r.view_spec() == parsed_override(text@),
{
    OverrideConfig {
        force_trailing_slash: toml_get_bool(text, "server.force_trailing_slash"),
        allow_extension_elision: toml_get_string_list(text, "server.allow_extension_elision"),
        use_index: toml_get_bool(text, "server.use_index"),
        auto_index: toml_get_bool(text, "server.auto_index"),
        allow_methods: toml_get_string_list(text, "server.allow_methods"),
        render_hbs: toml_get_bool(text, "server.render_hbs"),
    }
}

/// The cascade: the defaults, then each present ancestor override applied
/// root-first.
pub open spec fn cascade_v(c: ConfigV, texts: Seq<Option<Seq<char>>>) -> ConfigV
    decreases texts.len(),
{
    if texts.len() == 0 {
        c
    } else {
        let rest = cascade_v(c, texts.drop_last());
        match texts.last() {
            None => rest,
            Some(t) => apply_v(rest, parsed_override(t)),
        }
    }
}

impl RequestConfig {
    /// Builds the request configuration from the override texts found
    /// along the ancestor chain, root-first: the defaults first, then each
    /// present override merged over the accumulator. A directory without
    /// an override contributes `None` and is skipped.
    pub fn generate_from_ancestors(texts: &Vec<Option<String>>) -> (r: RequestConfig)
        ensures
            r.server.view_spec() == cascade_v(default_config_v(), texts.deep_view()),
    {
        let mut cfg = ServerConfig::default();
        let n = texts.len();
        let mut i: usize = 0;
        proof {
            assert(texts.deep_view().subrange(0, 0) =~~= Seq::<Option<Seq<char>>>::empty());
        }
        while i < n
            invariant
                n == texts@.len(),
                i <= n,
                cfg.view_spec() == cascade_v(
                    default_config_v(),
                    texts.deep_view().subrange(0, i as int),
                ),
            decreases n - i,
        {
            let ghost pre = texts.deep_view().subrange(0, i as int);
            let ghost post = texts.deep_view().subrange(0, i + 1);
            proof {
                assert(post.drop_last() =~~= pre);
                assert(post.last() == texts.deep_view()[i as int]);
            }
            match &texts[i] {
                Some(text) => {
                    let o = parse_override(text.as_str());
                    cfg.apply(o);
                },
                None => {},
            }
            i = i + 1;
        }
        proof {
            assert(texts.deep_view().subrange(0, n as int) =~~= texts.deep_view());
        }
        RequestConfig { server: cfg }
    }
}

/// The last override along the chain that sets `auto_index`, if any.
pub open spec fn last_auto_index_setting(texts: Seq<Option<Seq<char>>>) -> Option<bool>
    decreases texts.len(),
{
    if texts.len() == 0 {
        None
    } else {
        match texts.last() {
            Some(t) => match parsed_override(t).auto_index {
                Some(v) => Some(v),
                None => last_auto_index_setting(texts.drop_last()),
            },
            None => last_auto_index_setting(texts.drop_last()),
        }
    }
}

/// Last writer wins for `auto_index`: the effective value is the one set
/// by the deepest ancestor override that sets it, and the default where no
/// ancestor sets it. In particular a subtree override pins the value for
/// every chain running through it with no deeper setting, while chains
/// that never meet such an override keep the default.
pub proof fn lemma_cascade_auto_index(c: ConfigV, texts: Seq<Option<Seq<char>>>)
    ensures
        cascade_v(c, texts).auto_index == match last_auto_index_setting(texts) {
            Some(v) => v,
            None => c.auto_index,
        },
    decreases texts.len(),
{
    if texts.len() > 0 {
        lemma_cascade_auto_index(c, texts.drop_last());
    }
}

} // verus!
