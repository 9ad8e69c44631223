//! How the script that a timer's string becomes is fetched.
use vstd::prelude::*;

verus! {

/// How a script came into its document.
#[derive(Clone, Copy, Debug, PartialEq, Eq, Structural)]
pub enum ParserMetadata {
    Default,
    ParserInserted,
    NotParserInserted,
}

/// Options of a script fetch. `M` stands for the credentials mode, `R` for the referrer policy.
#[derive(Debug, PartialEq, Eq)]
pub struct ScriptFetchOptions<M, R> {
    pub cryptographic_nonce: String,
    pub integrity_metadata: String,
    pub parser_metadata: ParserMetadata,
    pub credentials_mode: M,
    pub referrer_policy: R,
    pub render_blocking: bool,
}

/// What a timer's string takes over from the script that set the timer. `U` stands for a URL.
#[derive(Debug, PartialEq, Eq)]
pub struct InitiatingScriptFetchInfo<M, R, U> {
    pub fetch_options: ScriptFetchOptions<M, R>,
    pub base_url: U,
}

/// What a timer's string takes over: from an initiating script its nonce, credentials mode,
/// referrer policy and base URL, without its integrity metadata; otherwise the defaults of the
/// global.
pub fn initiating_script_fetch_info<M, R, U>(
    initiating_script: Option<InitiatingScriptFetchInfo<M, R, U>>,
    defaults: InitiatingScriptFetchInfo<M, R, U>,
) -> (info: InitiatingScriptFetchInfo<M, R, U>)
    ensures
        match initiating_script {
            None => info == defaults,
            Some(script) => {
                &&& info.fetch_options.cryptographic_nonce
                    == script.fetch_options.cryptographic_nonce
                &&& info.fetch_options.integrity_metadata@.len() == 0
                &&& info.fetch_options.parser_metadata is NotParserInserted
                &&& info.fetch_options.credentials_mode == script.fetch_options.credentials_mode
                &&& info.fetch_options.referrer_policy == script.fetch_options.referrer_policy
                &&& !info.fetch_options.render_blocking
                &&& info.base_url == script.base_url
            },
        },
{
    match initiating_script {
        None => defaults,
        Some(script) => InitiatingScriptFetchInfo {
            fetch_options: ScriptFetchOptions {
                cryptographic_nonce: script.fetch_options.cryptographic_nonce,
                integrity_metadata: String::new(),
                parser_metadata: ParserMetadata::NotParserInserted,
                credentials_mode: script.fetch_options.credentials_mode,
                referrer_policy: script.fetch_options.referrer_policy,
                render_blocking: false,
            },
            base_url: script.base_url,
        },
    }
}

} // verus!
