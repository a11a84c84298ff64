//! The chain of providers: its configuration and how a provider is asked.
use crate::text;
use crate::text::trimmed_end_of;
use vstd::prelude::*;

verus! {

/// A provider of models.
pub struct ProviderEntry {
    pub model: String,
    pub base_url: String,
    pub api_key: String,
}

/// A provider over mathematical sequences.
#[verifier::ext_equal]
pub struct ProviderView {
    pub model: Seq<char>,
    pub base_url: Seq<char>,
    pub api_key: Seq<char>,
}

impl View for ProviderEntry {
    type V = ProviderView;

    open spec fn view(&self) -> ProviderView {
        ProviderView { model: self.model@, base_url: self.base_url@, api_key: self.api_key@ }
    }
}

impl ProviderEntry {
    /// The same provider again.
    pub fn duplicate(&self) -> (r: ProviderEntry)
        ensures
            r@ == self@,
    {
        ProviderEntry {
            model: self.model.clone(),
            base_url: self.base_url.clone(),
            api_key: self.api_key.clone(),
        }
    }

    /// The address of the provider's chat endpoint.
    pub fn endpoint(&self) -> (r: String)
        ensures
            r@ == text::trim_end_of(self@.base_url, '/') + "/chat/completions"@,
    {
        let mut r = trimmed_end_of(self.base_url.as_str(), '/');
        r.append("/chat/completions");
        r
    }

    /// The value of the `Authorization` header for the provider.
    pub fn authorization(&self) -> (r: String)
        ensures
            r@ == "Bearer "@ + self@.api_key,
    {
        let mut r = "Bearer ".to_owned();
        r.append(self.api_key.as_str());
        r
    }
}

/// A chain of providers with fallback: they are tried in order until one
/// succeeds.
pub struct ModelChain {
    pub providers: Vec<ProviderEntry>,
}

/// What came of reading the configuration of a chain.
pub enum ChainConfig {
    /// The file could not be read.
    Unreadable,
    /// The file does not hold a list of providers.
    Invalid,
    Providers(Vec<ProviderEntry>),
}

/// Why there is no chain.
#[derive(PartialEq, Eq, Structural)]
pub enum ChainFault {
    Unreadable,
    Invalid,
    Empty,
}

/// A chain could not be set up from the configuration at `path`.
pub struct ChainError {
    pub fault: ChainFault,
    pub path: String,
}

impl ChainError {
    /// What went wrong, in words.
    pub open spec fn words(self) -> Seq<char> {
        match self.fault {
            ChainFault::Unreadable => "Failed to read chain config at "@ + self.path@,
            ChainFault::Invalid => "Invalid chain.json"@,
            ChainFault::Empty => "chain.json must contain at least one provider"@,
        }
    }

    /// What went wrong, in words.
    pub fn message(&self) -> (r: String)
        ensures
            r@ == self.words(),
    {
        match self.fault {
            ChainFault::Unreadable => {
                let mut r = "Failed to read chain config at ".to_owned();
                r.append(self.path.as_str());
                r
            },
            ChainFault::Invalid => "Invalid chain.json".to_owned(),
            ChainFault::Empty => "chain.json must contain at least one provider".to_owned(),
        }
    }
}

/// Where the configuration is, when the environment does or does not say.
pub fn config_path(configured: Option<String>) -> (r: String)
    ensures
        r@ == (match configured {
            Some(p) => p@,
            None => "./chain.json"@,
        }),
{
    match configured {
        Some(p) => p,
        None => "./chain.json".to_owned(),
    }
}

/// Why a configuration gives no chain, where it gives none.
pub open spec fn config_fault(config: ChainConfig) -> Option<ChainFault> {
    match config {
        ChainConfig::Unreadable => Some(ChainFault::Unreadable),
        ChainConfig::Invalid => Some(ChainFault::Invalid),
        ChainConfig::Providers(p) => if p@.len() == 0 {
            Some(ChainFault::Empty)
        } else {
            None
        },
    }
}

impl ModelChain {
    /// The chain that was configured at `path`, in the order of the
    /// configuration. It needs at least one provider.
    pub fn from_env(path: &str, config: ChainConfig) -> (r: Result<ModelChain, ChainError>)
        ensures
            match r {
                Ok(chain) => config == ChainConfig::Providers(chain.providers)
                    && chain.providers@.len() > 0,
                Err(e) => config_fault(config) == Some(e.fault) && e.path@ == path@,
            },
            r is Ok <==> config_fault(config) is None,
    {
        match config {
            ChainConfig::Unreadable => Err(
                ChainError { fault: ChainFault::Unreadable, path: path.to_owned() },
            ),
            ChainConfig::Invalid => Err(
                ChainError { fault: ChainFault::Invalid, path: path.to_owned() },
            ),
            ChainConfig::Providers(providers) => {
                if providers.len() == 0 {
                    Err(ChainError { fault: ChainFault::Empty, path: path.to_owned() })
                } else {
                    Ok(ModelChain { providers })
                }
            },
        }
    }
}

impl ModelChain {
    /// The providers of the chain again.
    pub fn copies(&self) -> (r: Vec<ProviderEntry>)
        ensures
            text::views(r@) == text::views(self.providers@),
    {
        let ghost all = text::views(self.providers@);
        let mut r: Vec<ProviderEntry> = Vec::new();
        let mut i: usize = 0;
        while i < self.providers.len()
            invariant
                i <= self.providers@.len(),
                all == text::views(self.providers@),
                text::views(r@) =~= all.take(i as int),
            decreases self.providers@.len() - i,
        {
            let ghost before = text::views(r@);
            r.push(self.providers[i].duplicate());
            assert(text::views(r@) =~= before.push(all[i as int]));
            i = i + 1;
        }
        assert(all.take(i as int) =~= all);
        r
    }
}

/// The model of the first provider, or `unknown`.
pub open spec fn first_model(providers: Seq<ProviderView>) -> Seq<char> {
    if providers.len() > 0 {
        providers[0].model
    } else {
        "unknown"@
    }
}

/// The model that replies are reported under: that of the first provider.
pub fn reported_model(providers: &Vec<ProviderEntry>) -> (r: String)
    ensures
        r@ == first_model(text::views(providers@)),
{
    if providers.len() > 0 {
        providers[0].model.clone()
    } else {
        "unknown".to_owned()
    }
}

/// The line that announces a model, as the first one or in place of another.
pub open spec fn model_label(first: bool, model: Seq<char>) -> Seq<char> {
    if first {
        "**Model: "@ + model + "**\n\n"@
    } else {
        "\n\n🔄 Switched to **Model: "@ + model + "**\n\n"@
    }
}

/// The line that announces a model.
pub fn label_text(first: bool, model: &str) -> (r: String)
    ensures
        r@ == model_label(first, model@),
{
    let mut r = if first {
        "**Model: ".to_owned()
    } else {
        "\n\n🔄 Switched to **Model: ".to_owned()
    };
    r.append(model);
    r.append("**\n\n");
    r
}

/// A configuration gives a chain exactly when it is a list with at least one provider.
/// Otherwise what is told names the file that cannot be read, or what is wrong in it.
pub proof fn law_chain_needs_a_provider(config: ChainConfig, e: ChainError)
    ensures
        config_fault(config) is None <==> (config matches ChainConfig::Providers(p)
            && p@.len() > 0),
        config is Unreadable && config_fault(config) == Some(e.fault) ==> e.words()
            == "Failed to read chain config at "@ + e.path@,
        config is Invalid && config_fault(config) == Some(e.fault) ==> e.words()
            == "Invalid chain.json"@,
        config is Providers && config_fault(config) == Some(e.fault) ==> e.words()
            == "chain.json must contain at least one provider"@,
{
}

/// Whatever providers follow it, the first provider's model is the one that replies are
/// reported under.
pub proof fn law_first_provider_is_reported(p: ProviderView, rest: Seq<ProviderView>)
    ensures
        first_model(seq![p] + rest) == p.model,
        first_model(Seq::empty()) == "unknown"@,
{
    assert((seq![p] + rest)[0] == p);
}

/// A label names its model, in bold and on a line of its own, and one that comes after
/// another says so.
pub proof fn law_label_names_the_model(model: Seq<char>)
    ensures
        model_label(true, model) == "**Model: "@ + model + "**\n\n"@,
        model_label(false, model) == "\n\n🔄 Switched to "@ + model_label(true, model),
{
    reveal_strlit("**Model: ");
    reveal_strlit("\n\n🔄 Switched to **Model: ");
    reveal_strlit("\n\n🔄 Switched to ");
    assert("\n\n🔄 Switched to **Model: "@ =~= "\n\n🔄 Switched to "@ + "**Model: "@);
    assert(model_label(false, model) =~= "\n\n🔄 Switched to "@ + model_label(true, model));
}

} // verus!
