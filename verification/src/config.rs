//! The settings of the companion.

use vstd::prelude::*;

use crate::score::Score;

verus! {

#[derive(Clone, Debug)]
pub struct Config {
    pub telegram: TelegramConfig,
    pub discord: DiscordConfig,
    pub database: DatabaseConfig,
    pub session: SessionConfig,
    pub audio_guide: AudioGuideConfig,
    pub llm: ProviderConfig,
    pub embedding: EmbeddingConfig,
    pub asr: AsrConfig,
    pub ocr: OcrConfig,
    pub tts: TtsConfig,
}

#[derive(Clone, Debug)]
pub struct TelegramConfig {
    pub enabled: bool,
    pub bot_token: String,
    pub poll_timeout_seconds: u64,
    pub download_dir: String,
}

#[derive(Clone, Debug)]
pub struct DiscordConfig {
    pub enabled: bool,
    pub bot_token: String,
}

#[derive(Clone, Debug)]
pub struct DatabaseConfig {
    pub artworks_db_path: String,
}

#[derive(Clone, Debug)]
pub struct SessionConfig {
    pub countdown_minutes: u64,
    pub max_history_messages: usize,
    pub auto_accept_confidence: Score,
    pub confirm_confidence: Score,
    pub min_top_gap: Score,
}

#[derive(Clone, Debug)]
pub struct ProviderConfig {
    pub base_url: String,
    pub api_key: String,
    pub model: String,
}

#[derive(Clone, Debug)]
pub struct EmbeddingConfig {
    pub base_url: String,
    pub api_key: String,
    pub model: String,
    pub dimensions: usize,
    pub min_match_score: Score,
}

#[derive(Clone, Debug)]
pub struct AudioGuideConfig {
    pub enabled: bool,
    pub museum: String,
}

#[derive(Clone, Debug)]
pub struct AsrConfig {
    pub enabled: bool,
    pub base_url: String,
    pub api_key: String,
    pub model: String,
}

#[derive(Clone, Debug)]
pub struct OcrConfig {
    pub enabled: bool,
    pub base_url: String,
    pub api_key: String,
    pub model: String,
}

#[derive(Clone, Debug)]
pub struct TtsConfig {
    pub enabled: bool,
    pub base_url: String,
    pub api_key: String,
    pub model: String,
    pub voice: String,
    pub format: String,
}

/// Neither chat service is switched on.
#[derive(Clone, Copy, Debug, PartialEq, Eq, Structural)]
pub struct NoChannelEnabled;

/// Whether at least one chat service is switched on.
pub open spec fn has_channel(config: Config) -> bool {
    config.telegram.enabled || config.discord.enabled
}

/// Checks that at least one chat service is switched on.
pub fn ensure_supported_channels(config: &Config) -> (r: Result<(), NoChannelEnabled>)
    ensures
        r == (if has_channel(*config) {
            Ok::<(), NoChannelEnabled>(())
        } else {
            Err(NoChannelEnabled)
        }),
{
    if !config.telegram.enabled && !config.discord.enabled {
        return Err(NoChannelEnabled);
    }
    Ok(())
}

/// One chat service is enough, whichever it is and whatever else is configured; none is not.
pub proof fn law_one_channel_is_enough(config: Config)
    ensures
        config.telegram.enabled ==> has_channel(config),
        config.discord.enabled ==> has_channel(config),
        !config.telegram.enabled && !config.discord.enabled ==> !has_channel(config),
{
}

} // verus!
