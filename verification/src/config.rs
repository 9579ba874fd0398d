//! Prompts, configuration structures and the pure parts of configuration
//! management (defaults, preset lists, field updates).

use vstd::prelude::*;
use crate::text::str_eq;

verus! {

// ---------------------------------------------------------------------------
// Prompts
// ---------------------------------------------------------------------------

/// Default prompt for screenshot activity analysis (single image).
pub const SCREENSHOT_ANALYSIS_PROMPT: &'static str = r#"You are a work activity analyzer. Given a screenshot of the user's screen, identify:
1. What application is active
2. What window/tab title
3. What the user is doing (be specific)
4. Activity category (one of: dev, meeting, communication, design, documentation, browsing, other)

Respond ONLY with valid JSON (no markdown, no code blocks, no extra text):
{
  "activity": "short description",
  "app_name": "app name",
  "window_title": "window title",
  "category": "category",
  "confidence": 0.0-1.0
}

请用中文回复，使用专业简洁的表述。"#;

/// Screenshot analysis prompt — English (same as SCREENSHOT_ANALYSIS_PROMPT, kept for bilingual support).
pub const SCREENSHOT_ANALYSIS_PROMPT_EN: &'static str = r#"You are a work activity analyzer. Given a screenshot of the user's screen, identify:
1. What application is active
2. What window/tab title
3. What the user is doing (be specific)
4. Activity category (one of: dev, meeting, communication, design, documentation, browsing, other)

Respond ONLY with valid JSON (no markdown, no code blocks, no extra text):
{
  "activity": "short description",
  "app_name": "app name",
  "window_title": "window title",
  "category": "category",
  "confidence": 0.0-1.0
}

Please respond in English with professional and concise wording."#;

/// Default prompt for batch screenshot analysis (multiple images in a time window).
pub const BATCH_ANALYSIS_PROMPT: &'static str = r#"You are a work activity analyzer. Below are multiple screenshots captured over a period of time showing the user's screen activity.

Please analyze ALL screenshots together and produce a SINGLE consolidated analysis that best represents what the user was doing during this period.

Respond ONLY with valid JSON (no markdown, no code blocks, no extra text):
{
  "activity": "summary of what the user was doing during this period",
  "app_name": "the most used application",
  "window_title": "the most relevant window title",
  "category": "activity category (one of: dev, meeting, communication, design, documentation, browsing, other)",
  "confidence": 0.0-1.0
}

请用中文回复，使用专业简洁的表述。"#;

/// Batch analysis prompt — English.
pub const BATCH_ANALYSIS_PROMPT_EN: &'static str = r#"You are a work activity analyzer. Below are multiple screenshots captured over a period of time showing the user's screen activity.

Please analyze ALL screenshots together and produce a SINGLE consolidated analysis that best represents what the user was doing during this period.

Respond ONLY with valid JSON (no markdown, no code blocks, no extra text):
{
  "activity": "summary of what the user was doing during this period",
  "app_name": "the most used application",
  "window_title": "the most relevant window title",
  "category": "activity category (one of: dev, meeting, communication, design, documentation, browsing, other)",
  "confidence": 0.0-1.0
}

Please respond in English with professional and concise wording."#;

/// Default prompt for daily work summary generation.
pub const DAILY_SUMMARY_PROMPT: &'static str = r#"你是一个专业的工作报告生成器。根据用户今天的活动记录，生成一份简洁的日报。

请按以下结构输出（Markdown 格式）：

# XXXX年X月X日 工作日报

## 今日概览
- 总工作时间：X小时X分钟
- 活动片段数：X个
- 主要工作分类：分类1（X分钟）、分类2（X分钟）

## 时间线
（按时间顺序列出主要活动，每项包含时间段、时长、内容摘要）

## 重点成果
（列出当日最重要的2-3项工作成果）

## 备注
（任何值得记录的模式、中断或观察）

要求：
- 字数控制在 300 字以内
- 数据为空时输出"当天没有记录到活动。"
- 请用中文回复，使用专业简洁的表述"#;

/// Daily summary prompt — English.
pub const DAILY_SUMMARY_PROMPT_EN: &'static str = r#"You are a professional work report generator. Based on today's activity records, generate a concise daily summary.

Output in Markdown with the following structure:

# Daily Work Summary - YYYY-MM-DD

## Overview
- Total working time: Xh Xmin
- Number of activity segments: X
- Main categories: Category 1 (Xmin), Category 2 (Xmin)

## Timeline
(List main activities chronologically, each with time range, duration, and description)

## Key Accomplishments
(2-3 most important achievements)

## Notes
(Any notable patterns, interruptions, or observations)

Requirements:
- Keep within 300 words
- For empty data, output "No activity was recorded for this day."
- Please respond in English with professional and concise wording."#;

/// 周报总结 prompt — 中文
pub const WEEKLY_SUMMARY_PROMPT_ZH: &'static str = r#"你是一个专业的工作报告生成器。根据用户本周的活动记录，生成一份简洁的周报。

请按以下结构输出（Markdown 格式）：

# XXXX年X月X日 - XXXX年X月X日 工作周报

## 本周概览
- 总工作时间：X小时X分钟
- 工作天数：X天
- 日均工作时间：X小时X分钟
- 主要工作分类：分类1（X分钟）、分类2（X分钟）

## 时间线
（按天列出主要活动，每天包含时间段、时长、内容摘要）

## 重点成果
（列出本周最重要的3-5项工作成果）

## 分类统计
（按活动分类汇总时间，如 开发: X小时, 会议: X小时）

## 本周趋势与观察
（分析本周工作效率、模式变化、中断情况等）

## 备注
（任何值得记录的观察或建议）

要求：
- 字数控制在 500 字以内
- 数据为空时输出"本周没有记录到活动。"
- 请用中文回复，使用专业简洁的表述"#;

/// Weekly summary prompt — English
pub const WEEKLY_SUMMARY_PROMPT_EN: &'static str = r#"You are a professional work report generator. Based on this week's activity records, generate a concise weekly summary.

Output in Markdown with the following structure:

# Weekly Work Summary - YYYY-MM-DD to YYYY-MM-DD

## Overview
- Total working time: Xh Xmin
- Working days: X
- Daily average: Xh Xmin
- Main categories: Category 1 (Xmin), Category 2 (Xmin)

## Timeline
(List main activities by day, each with time range, duration, and description)

## Key Accomplishments
(3-5 most important achievements this week)

## Category Breakdown
(Time aggregated by activity category, e.g., Development: Xh, Meetings: Xh)

## Trends & Observations
(Productivity patterns, changes, interruptions, etc.)

## Notes
(Any notable observations or suggestions)

Requirements:
- Keep within 500 words
- For empty data, output "No activity was recorded for this week."
- Please respond in English with professional and concise wording."#;

/// 月报总结 prompt — 中文
pub const MONTHLY_SUMMARY_PROMPT_ZH: &'static str = r#"你是一个专业的工作报告生成器。根据用户本月的活动记录，生成一份简洁的月报。

请按以下结构输出（Markdown 格式）：

# XXXX年X月 工作月报

## 月度概览
- 总工作时间：X小时X分钟
- 工作天数：X天
- 日均工作时间：X小时X分钟
- 主要工作分类：分类1（X分钟）、分类2（X分钟）

## 重点项目
（列出本月最重要的3-5个重点项目，每项包含投入时间、关键进展、成果）

## 分类统计
（按活动分类汇总时间，如 开发: X小时, 会议: X小时, 设计: X小时）

## 月度趋势
（分析本月工作效率变化、各周对比、分类占比变化趋势）

## 总结与建议
（月度整体评估，下月改进建议）

要求：
- 字数控制在 800 字以内
- 数据为空时输出"本月没有记录到活动。"
- 请用中文回复，使用专业简洁的表述"#;

/// Monthly summary prompt — English
pub const MONTHLY_SUMMARY_PROMPT_EN: &'static str = r#"You are a professional work report generator. Based on this month's activity records, generate a concise monthly summary.

Output in Markdown with the following structure:

# Monthly Work Summary - YYYY-MM

## Overview
- Total working time: Xh Xmin
- Working days: X
- Daily average: Xh Xmin
- Main categories: Category 1 (Xmin), Category 2 (Xmin)

## Major Projects
(3-5 key projects this month, each with time invested, key progress, and outcomes)

## Category Breakdown
(Time aggregated by activity category, e.g., Development: Xh, Meetings: Xh, Design: Xh)

## Monthly Trends
(Productivity changes across weeks, category proportion shifts, weekly comparisons)

## Summary & Recommendations
(Overall monthly assessment, suggestions for the next month)

Requirements:
- Keep within 800 words
- For empty data, output "No activity was recorded for this month."
- Please respond in English with professional and concise wording."#;

/// The locale string `"en"`.
pub open spec fn is_english(locale: Seq<char>) -> bool {
    locale == seq!['e', 'n']
}

/// Whether the locale is `"en"`.
pub fn english_locale(locale: &str) -> (res: bool)
    ensures
        res == is_english(locale@),
{
    let r = str_eq(locale, "en");
    proof {
        reveal_strlit("en");
        assert("en"@ =~= seq!['e', 'n']);
    }
    r
}

/// Select the screenshot analysis prompt for a locale.
/// `"en"` selects the English text; every other locale the Chinese one.
pub fn get_analysis_prompt(locale: &str) -> (p: &'static str)
    ensures
        p@ == (if is_english(locale@) { SCREENSHOT_ANALYSIS_PROMPT_EN@ } else { SCREENSHOT_ANALYSIS_PROMPT@ }),
{
    if english_locale(locale) {
        SCREENSHOT_ANALYSIS_PROMPT_EN
    } else {
        SCREENSHOT_ANALYSIS_PROMPT
    }
}

/// Select the batch analysis prompt for a locale.
/// `"en"` selects the English text; every other locale the Chinese one.
pub fn get_batch_analysis_prompt(locale: &str) -> (p: &'static str)
    ensures
        p@ == (if is_english(locale@) { BATCH_ANALYSIS_PROMPT_EN@ } else { BATCH_ANALYSIS_PROMPT@ }),
{
    if english_locale(locale) {
        BATCH_ANALYSIS_PROMPT_EN
    } else {
        BATCH_ANALYSIS_PROMPT
    }
}

/// Select the daily summary prompt for a locale.
/// `"en"` selects the English text; every other locale the Chinese one.
pub fn get_daily_summary_prompt(locale: &str) -> (p: &'static str)
    ensures
        p@ == (if is_english(locale@) { DAILY_SUMMARY_PROMPT_EN@ } else { DAILY_SUMMARY_PROMPT@ }),
{
    if english_locale(locale) {
        DAILY_SUMMARY_PROMPT_EN
    } else {
        DAILY_SUMMARY_PROMPT
    }
}

/// Select the weekly summary prompt for a locale.
/// `"en"` selects the English text; every other locale the Chinese one.
pub fn get_weekly_summary_prompt(locale: &str) -> (p: &'static str)
    ensures
        p@ == (if is_english(locale@) { WEEKLY_SUMMARY_PROMPT_EN@ } else { WEEKLY_SUMMARY_PROMPT_ZH@ }),
{
    if english_locale(locale) {
        WEEKLY_SUMMARY_PROMPT_EN
    } else {
        WEEKLY_SUMMARY_PROMPT_ZH
    }
}

/// Select the monthly summary prompt for a locale.
/// `"en"` selects the English text; every other locale the Chinese one.
pub fn get_monthly_summary_prompt(locale: &str) -> (p: &'static str)
    ensures
        p@ == (if is_english(locale@) { MONTHLY_SUMMARY_PROMPT_EN@ } else { MONTHLY_SUMMARY_PROMPT_ZH@ }),
{
    if english_locale(locale) {
        MONTHLY_SUMMARY_PROMPT_EN
    } else {
        MONTHLY_SUMMARY_PROMPT_ZH
    }
}

// ---------------------------------------------------------------------------
// Config structures
// ---------------------------------------------------------------------------

/// Screenshot capture settings.
#[derive(Clone, Debug)]
pub struct ScreenshotConfig {
    /// Interval between captures (seconds).
    pub interval_secs: u64,
    /// Interval between LLM batch analyses (seconds); meant to be a multiple
    /// of `interval_secs`.
    pub analysis_interval_secs: u64,
    /// Output directory for screenshot files.
    pub output_dir: String,
    /// Maximum number of screenshots to retain.
    pub max_files: u32,
    /// JPEG quality (1-100).
    pub jpeg_quality: u32,
    /// Maximum image width (in pixels).
    pub max_width: u32,
    /// Whether to include the cursor in screenshots.
    pub include_cursor: bool,
    /// Deduplication threshold (lower = more aggressive dedup).
    pub dedup_threshold: u32,
    /// Number of days to retain screenshots.
    pub retention_days: u32,
    /// Capture all connected displays and stitch them together.
    pub capture_all_displays: bool,
}

impl ScreenshotConfig {
    /// The field values of `ScreenshotConfig::default()`.
    pub open spec fn is_default(&self) -> bool {
        &&& self.interval_secs == 30
        &&& self.analysis_interval_secs == 300
        &&& self.output_dir@ == Seq::<char>::empty()
        &&& self.max_files == 5000
        &&& self.jpeg_quality == 85
        &&& self.max_width == 1200
        &&& self.include_cursor
        &&& self.dedup_threshold == 5
        &&& self.retention_days == 30
        &&& !self.capture_all_displays
    }
}

impl Default for ScreenshotConfig {
    fn default() -> (c: Self)
        ensures
            c.is_default(),
    {
        ScreenshotConfig {
            interval_secs: 30,
            analysis_interval_secs: 300,
            output_dir: String::new(),
            max_files: 5000,
            jpeg_quality: 85,
            max_width: 1200,
            include_cursor: true,
            dedup_threshold: 5,
            retention_days: 30,
            capture_all_displays: false,
        }
    }
}

/// Privacy controls.
#[derive(Clone, Debug)]
pub struct PrivacyConfig {
    /// Blur sensitive regions before analysis.
    pub blur_sensitive: bool,
    /// Do not capture when these app names are active.
    pub blocked_apps: Vec<String>,
    /// Automatically pause capture after idle minutes.
    pub idle_pause_minutes: u64,
}

impl PrivacyConfig {
    /// The field values of `PrivacyConfig::default()`: blur on, a five minute
    /// idle pause, and four blocked apps (login window, terminals, keychain).
    pub open spec fn is_default(&self) -> bool {
        &&& self.blur_sensitive
        &&& self.idle_pause_minutes == 5
        &&& self.blocked_apps@.len() == 4
        &&& self.blocked_apps@[0]@ == "LoginWindow"@
        &&& self.blocked_apps@[1]@ == "iTerm2"@
        &&& self.blocked_apps@[2]@ == "Terminal"@
        &&& self.blocked_apps@[3]@ == "Keychain Access"@
    }
}

impl Default for PrivacyConfig {
    fn default() -> (c: Self)
        ensures
            c.is_default(),
    {
        let mut blocked_apps: Vec<String> = Vec::new();
        blocked_apps.push(String::from_str("LoginWindow"));
        // dev terminals may hold credentials
        blocked_apps.push(String::from_str("iTerm2"));
        blocked_apps.push(String::from_str("Terminal"));
        blocked_apps.push(String::from_str("Keychain Access"));
        PrivacyConfig { blur_sensitive: true, blocked_apps, idle_pause_minutes: 5 }
    }
}

/// LLM provider configuration.
#[derive(Clone, Debug)]
pub struct LlmConfig {
    /// Human-friendly name for this config preset.
    pub name: String,
    /// Provider type: "openai" | "ollama" | "custom".
    pub provider: String,
    /// API base URL.
    pub base_url: String,
    /// Model identifier.
    pub model: String,
    /// API key for the LLM provider.
    pub api_key: Option<String>,
    /// Maximum output tokens.
    pub max_tokens: u32,
    /// Whether this config is the active one.
    pub is_active: bool,
    /// Use the batch API instead of the real-time API.
    pub use_batch_api: bool,
}

impl LlmConfig {
    /// The field values of `LlmConfig::default()`: a local Ollama preset.
    pub open spec fn is_default(&self) -> bool {
        &&& self.name@ == "Default"@
        &&& self.provider@ == "ollama"@
        &&& self.base_url@ == "http://localhost:11434"@
        &&& self.model@ == "qwen2.5:7b"@
        &&& self.api_key is None
        &&& self.max_tokens == 4096
        &&& self.is_active
        &&& !self.use_batch_api
    }
}

impl Default for LlmConfig {
    fn default() -> (c: Self)
        ensures
            c.is_default(),
    {
        LlmConfig {
            name: String::from_str("Default"),
            provider: String::from_str("ollama"),
            base_url: String::from_str("http://localhost:11434"),
            model: String::from_str("qwen2.5:7b"),
            api_key: None,
            max_tokens: 4096,
            is_active: true,
            use_batch_api: false,
        }
    }
}

/// Top-level application configuration.
#[derive(Clone, Debug)]
pub struct AppConfig {
    pub screenshot: ScreenshotConfig,
    pub llm: LlmConfig,
    pub privacy: PrivacyConfig,
    /// User locale preference ("zh" or "en").
    pub locale: String,
    /// Path where this config was loaded from / saved to.
    pub config_path: Option<String>,
}

/// The default locale, `"zh"`.
pub fn default_locale() -> (l: String)
    ensures
        l@ == "zh"@,
{
    String::from_str("zh")
}

impl AppConfig {
    /// The field values of `AppConfig::default()`.
    pub open spec fn is_default(&self) -> bool {
        &&& self.screenshot.is_default()
        &&& self.llm.is_default()
        &&& self.privacy.is_default()
        &&& self.locale@ == "zh"@
        &&& self.config_path is None
    }

    /// The configuration read from disk, or the default one when reading or
    /// parsing it failed (`AppConfig::load().unwrap_or_default()`).
    pub fn load_or_default(loaded: Result<AppConfig, ConfigError>) -> (c: AppConfig)
        ensures
            loaded is Ok ==> c == loaded->Ok_0,
            loaded is Err ==> c.is_default(),
    {
        match loaded {
            Ok(c) => c,
            Err(_) => AppConfig::default(),
        }
    }

    /// Sets the user locale.
    pub fn set_locale(&mut self, locale: &str)
        ensures
            final(self).locale@ == locale@,
            final(self).screenshot == old(self).screenshot,
            final(self).llm == old(self).llm,
            final(self).privacy == old(self).privacy,
            final(self).config_path == old(self).config_path,
    {
        self.locale = String::from_str(locale);
    }
}

impl Default for AppConfig {
    fn default() -> (c: Self)
        ensures
            c.is_default(),
    {
        AppConfig {
            screenshot: ScreenshotConfig::default(),
            llm: LlmConfig::default(),
            privacy: PrivacyConfig::default(),
            locale: default_locale(),
            config_path: None,
        }
    }
}

/// Errors of configuration loading and saving.  Outside errors (file
/// system, JSON) are carried as their messages.
#[derive(Clone, Debug)]
pub enum ConfigError {
    NotFound(String),
    Io(String),
    Parse(String),
    Validation(String),
}

/// The message of a configuration error.
pub open spec fn config_error_text(e: ConfigError) -> Seq<char> {
    match e {
        ConfigError::NotFound(p) => "Config file not found: "@ + p@,
        ConfigError::Io(m) => "IO error: "@ + m@,
        ConfigError::Parse(m) => "Parse error: "@ + m@,
        ConfigError::Validation(m) => "Validation error: "@ + m@,
    }
}

impl ConfigError {
    /// The error's message.
    pub fn message(&self) -> (s: String)
        ensures
            s@ == config_error_text(*self),
    {
        match self {
            ConfigError::NotFound(p) => String::from_str("Config file not found: ").concat(p.as_str()),
            ConfigError::Io(m) => String::from_str("IO error: ").concat(m.as_str()),
            ConfigError::Parse(m) => String::from_str("Parse error: ").concat(m.as_str()),
            ConfigError::Validation(m) => String::from_str("Validation error: ").concat(m.as_str()),
        }
    }
}

// ---------------------------------------------------------------------------
// Where configuration and data live
// ---------------------------------------------------------------------------

/// The configuration directory on Linux, as path components:
/// `$XDG_CONFIG_HOME/wornitor`, or `$HOME/.config/wornitor` (with `/tmp`
/// standing in for a missing `HOME`).
pub fn config_dir_parts(xdg_config_home: Option<String>, home: Option<String>) -> (parts: Vec<String>)
    ensures
        match xdg_config_home {
            Some(x) => parts@.len() == 2 && parts@[0]@ == x@ && parts@[1]@ == "wornitor"@,
            None => parts@.len() == 3 && parts@[0]@ == (match home { Some(h) => h@, None => "/tmp"@ })
                && parts@[1]@ == ".config"@ && parts@[2]@ == "wornitor"@,
        },
{
    let mut parts: Vec<String> = Vec::new();
    match xdg_config_home {
        Some(x) => {
            parts.push(x);
            parts.push(String::from_str("wornitor"));
        },
        None => {
            let h = match home {
                Some(h) => h,
                None => String::from_str("/tmp"),
            };
            parts.push(h);
            parts.push(String::from_str(".config"));
            parts.push(String::from_str("wornitor"));
        },
    }
    parts
}

/// The configuration file in a configuration directory.
pub fn config_path(dir: &Vec<String>) -> (parts: Vec<String>)
    ensures
        parts@.len() == dir@.len() + 1,
        forall|i: int| 0 <= i < dir@.len() ==> #[trigger] parts@[i]@ == dir@[i]@,
        parts@.last()@ == "config.json"@,
{
    let mut parts = copy_strings(dir);
    parts.push(String::from_str("config.json"));
    parts
}

/// The model presets file in a configuration directory.
pub fn llm_configs_path(dir: &Vec<String>) -> (parts: Vec<String>)
    ensures
        parts@.len() == dir@.len() + 1,
        forall|i: int| 0 <= i < dir@.len() ==> #[trigger] parts@[i]@ == dir@[i]@,
        parts@.last()@ == "llm_configs.json"@,
{
    let mut parts = copy_strings(dir);
    parts.push(String::from_str("llm_configs.json"));
    parts
}

/// A copy of a list of strings.
fn copy_strings(v: &Vec<String>) -> (r: Vec<String>)
    ensures
        r@.len() == v@.len(),
        forall|i: int| 0 <= i < v@.len() ==> #[trigger] r@[i]@ == v@[i]@,
{
    let mut r: Vec<String> = Vec::new();
    let mut i: usize = 0;
    while i < v.len()
        invariant
            i <= v.len(),
            r@.len() == i,
            forall|k: int| 0 <= k < i ==> #[trigger] r@[k]@ == v@[k]@,
        decreases v.len() - i,
    {
        r.push(v[i].clone());
        i = i + 1;
    }
    r
}

/// The database file on Linux: `$HOME/.local/share/wornitor/wornitor.db`,
/// none without a `HOME`.
pub fn dirs_db_path(home: Option<&str>) -> (p: Option<String>)
    ensures
        match home {
            Some(h) => p matches Some(x) && x@ == h@ + "/.local/share/wornitor"@ + "/wornitor.db"@,
            None => p is None,
        },
{
    match home {
        Some(h) => Some(String::from_str(h).concat("/.local/share/wornitor").concat("/wornitor.db")),
        None => None,
    }
}

/// The model presets: those read from the presets file, or the default
/// preset alone when there is no file.
pub fn presets_or_default(read: Option<Vec<LlmConfig>>) -> (v: Vec<LlmConfig>)
    ensures
        match read {
            Some(r) => v == r,
            None => v@.len() == 1 && v@[0].is_default(),
        },
{
    match read {
        Some(r) => r,
        None => {
            let mut v: Vec<LlmConfig> = Vec::new();
            v.push(LlmConfig::default());
            v
        },
    }
}

} // verus!
