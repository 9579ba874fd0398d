//! Configuration commands: the response sent to the frontend, field-wise
//! updates of the configuration, and management of LLM presets.

use vstd::prelude::*;
use crate::config::{AppConfig, LlmConfig};
use crate::text::str_eq;

verus! {

/// Privacy settings as sent to the frontend.
#[derive(Clone, Debug)]
pub struct PrivacyResponse {
    pub blur_sensitive: bool,
    pub blocked_apps: Vec<String>,
    pub idle_pause_minutes: u64,
}

/// The full configuration as sent to the frontend.
#[derive(Clone, Debug)]
pub struct ConfigResponse {
    pub screenshot_interval: u64,
    pub analysis_interval_secs: u64,
    pub output_dir: String,
    pub llm_provider: String,
    pub llm_model: String,
    pub llm_endpoint: String,
    pub auto_start: bool,
    pub jpeg_quality: u32,
    pub max_width: u32,
    pub include_cursor: bool,
    pub dedup_threshold: u32,
    pub retention_days: u32,
    pub capture_all_displays: bool,
    pub privacy: PrivacyResponse,
}

impl ConfigResponse {
    /// The response for a configuration (`get_config`); auto start is off.
    pub fn from_config(c: AppConfig) -> (r: ConfigResponse)
        ensures
            r.screenshot_interval == c.screenshot.interval_secs,
            r.analysis_interval_secs == c.screenshot.analysis_interval_secs,
            r.output_dir == c.screenshot.output_dir,
            r.llm_provider == c.llm.provider,
            r.llm_model == c.llm.model,
            r.llm_endpoint == c.llm.base_url,
            !r.auto_start,
            r.jpeg_quality == c.screenshot.jpeg_quality,
            r.max_width == c.screenshot.max_width,
            r.include_cursor == c.screenshot.include_cursor,
            r.dedup_threshold == c.screenshot.dedup_threshold,
            r.retention_days == c.screenshot.retention_days,
            r.capture_all_displays == c.screenshot.capture_all_displays,
            r.privacy.blur_sensitive == c.privacy.blur_sensitive,
            r.privacy.blocked_apps == c.privacy.blocked_apps,
            r.privacy.idle_pause_minutes == c.privacy.idle_pause_minutes,
    {
        ConfigResponse {
            screenshot_interval: c.screenshot.interval_secs,
            analysis_interval_secs: c.screenshot.analysis_interval_secs,
            output_dir: c.screenshot.output_dir,
            llm_provider: c.llm.provider,
            llm_model: c.llm.model,
            llm_endpoint: c.llm.base_url,
            auto_start: false,
            jpeg_quality: c.screenshot.jpeg_quality,
            max_width: c.screenshot.max_width,
            include_cursor: c.screenshot.include_cursor,
            dedup_threshold: c.screenshot.dedup_threshold,
            retention_days: c.screenshot.retention_days,
            capture_all_displays: c.screenshot.capture_all_displays,
            privacy: PrivacyResponse {
                blur_sensitive: c.privacy.blur_sensitive,
                blocked_apps: c.privacy.blocked_apps,
                idle_pause_minutes: c.privacy.idle_pause_minutes,
            },
        }
    }
}

/// The optional new values of `update_config`; `None` keeps a field.
#[derive(Clone, Debug)]
pub struct ConfigUpdate {
    pub screenshot_interval: Option<u64>,
    pub analysis_interval_secs: Option<u64>,
    pub output_dir: Option<String>,
    pub llm_provider: Option<String>,
    pub llm_model: Option<String>,
    pub llm_endpoint: Option<String>,
    pub jpeg_quality: Option<u32>,
    pub max_width: Option<u32>,
    pub include_cursor: Option<bool>,
    pub dedup_threshold: Option<u32>,
    pub retention_days: Option<u32>,
    pub capture_all_displays: Option<bool>,
    pub blur_sensitive: Option<bool>,
    pub blocked_apps: Option<Vec<String>>,
    pub idle_pause_minutes: Option<u64>,
}

/// `name` appended to `names` when `present`.
pub open spec fn note(names: Seq<Seq<char>>, present: bool, name: Seq<char>) -> Seq<Seq<char>> {
    if present { names.push(name) } else { names }
}

/// Names of the fields an update sets, in the order `update_config` applies them.
pub open spec fn changed_fields(u: ConfigUpdate) -> Seq<Seq<char>> {
    let n0 = Seq::<Seq<char>>::empty();
    let n1 = note(n0, u.screenshot_interval is Some, "screenshot_interval"@);
    let n2 = note(n1, u.analysis_interval_secs is Some, "analysis_interval_secs"@);
    let n3 = note(n2, u.output_dir is Some, "output_dir"@);
    let n4 = note(n3, u.jpeg_quality is Some, "jpeg_quality"@);
    let n5 = note(n4, u.max_width is Some, "max_width"@);
    let n6 = note(n5, u.include_cursor is Some, "include_cursor"@);
    let n7 = note(n6, u.dedup_threshold is Some, "dedup_threshold"@);
    let n8 = note(n7, u.retention_days is Some, "retention_days"@);
    let n9 = note(n8, u.capture_all_displays is Some, "capture_all_displays"@);
    let n10 = note(n9, u.llm_provider is Some, "llm_provider"@);
    let n11 = note(n10, u.llm_model is Some, "llm_model"@);
    let n12 = note(n11, u.llm_endpoint is Some, "llm_endpoint"@);
    let n13 = note(n12, u.blur_sensitive is Some, "blur_sensitive"@);
    let n14 = note(n13, u.blocked_apps is Some, "blocked_apps"@);
    note(n14, u.idle_pause_minutes is Some, "idle_pause_minutes"@)
}

/// `Some(v)` gives `v`, `None` keeps `old`.
pub open spec fn updated<T>(new: Option<T>, old: T) -> T {
    match new {
        Some(v) => v,
        None => old,
    }
}

fn note_field(names: &mut Vec<&'static str>, present: bool, name: &'static str)
    ensures
        final(names)@.map_values(|n: &'static str| n@) == note(
            old(names)@.map_values(|n: &'static str| n@),
            present,
            name@,
        ),
{
    if present {
        names.push(name);
        proof {
            assert(final(names)@.map_values(|n: &'static str| n@) =~= old(names)@.map_values(
                |n: &'static str| n@,
            ).push(name@));
        }
    }
}

/// Names of the fields that an update sets, in order.
pub fn changed_field_names(u: &ConfigUpdate) -> (changed: Vec<&'static str>)
    ensures
        changed@.map_values(|n: &'static str| n@) == changed_fields(*u),
{
    let mut changed: Vec<&'static str> = Vec::new();
    proof {
        assert(changed@.map_values(|n: &'static str| n@) =~= Seq::<Seq<char>>::empty());
    }
    note_field(&mut changed, u.screenshot_interval.is_some(), "screenshot_interval");
    note_field(&mut changed, u.analysis_interval_secs.is_some(), "analysis_interval_secs");
    note_field(&mut changed, u.output_dir.is_some(), "output_dir");
    note_field(&mut changed, u.jpeg_quality.is_some(), "jpeg_quality");
    note_field(&mut changed, u.max_width.is_some(), "max_width");
    note_field(&mut changed, u.include_cursor.is_some(), "include_cursor");
    note_field(&mut changed, u.dedup_threshold.is_some(), "dedup_threshold");
    note_field(&mut changed, u.retention_days.is_some(), "retention_days");
    note_field(&mut changed, u.capture_all_displays.is_some(), "capture_all_displays");
    note_field(&mut changed, u.llm_provider.is_some(), "llm_provider");
    note_field(&mut changed, u.llm_model.is_some(), "llm_model");
    note_field(&mut changed, u.llm_endpoint.is_some(), "llm_endpoint");
    note_field(&mut changed, u.blur_sensitive.is_some(), "blur_sensitive");
    note_field(&mut changed, u.blocked_apps.is_some(), "blocked_apps");
    note_field(&mut changed, u.idle_pause_minutes.is_some(), "idle_pause_minutes");
    changed
}

/// The configuration after an update.
pub open spec fn config_updated(old: AppConfig, new: AppConfig, u: ConfigUpdate) -> bool {
    &&& new.screenshot.interval_secs == updated(u.screenshot_interval, old.screenshot.interval_secs)
    &&& new.screenshot.analysis_interval_secs == updated(u.analysis_interval_secs, old.screenshot.analysis_interval_secs)
    &&& new.screenshot.output_dir == updated(u.output_dir, old.screenshot.output_dir)
    &&& new.screenshot.jpeg_quality == updated(u.jpeg_quality, old.screenshot.jpeg_quality)
    &&& new.screenshot.max_width == updated(u.max_width, old.screenshot.max_width)
    &&& new.screenshot.include_cursor == updated(u.include_cursor, old.screenshot.include_cursor)
    &&& new.screenshot.dedup_threshold == updated(u.dedup_threshold, old.screenshot.dedup_threshold)
    &&& new.screenshot.retention_days == updated(u.retention_days, old.screenshot.retention_days)
    &&& new.screenshot.capture_all_displays == updated(u.capture_all_displays, old.screenshot.capture_all_displays)
    &&& new.screenshot.max_files == old.screenshot.max_files
    &&& new.llm.provider == updated(u.llm_provider, old.llm.provider)
    &&& new.llm.model == updated(u.llm_model, old.llm.model)
    &&& new.llm.base_url == updated(u.llm_endpoint, old.llm.base_url)
    &&& new.llm.name == old.llm.name
    &&& new.llm.api_key == old.llm.api_key
    &&& new.llm.max_tokens == old.llm.max_tokens
    &&& new.llm.is_active == old.llm.is_active
    &&& new.llm.use_batch_api == old.llm.use_batch_api
    &&& new.privacy.blur_sensitive == updated(u.blur_sensitive, old.privacy.blur_sensitive)
    &&& new.privacy.blocked_apps == updated(u.blocked_apps, old.privacy.blocked_apps)
    &&& new.privacy.idle_pause_minutes == updated(u.idle_pause_minutes, old.privacy.idle_pause_minutes)
    &&& new.locale == old.locale
    &&& new.config_path == old.config_path
}

fn set_opt<T>(field: &mut T, v: Option<T>)
    ensures
        *final(field) == updated(v, *old(field)),
{
    if let Some(x) = v {
        *field = x;
    }
}

/// Applies an update to the configuration (`update_config`) and returns the
/// names of the fields it set, in order.  Fields left `None` keep their value.
pub fn apply_config_update(config: &mut AppConfig, u: ConfigUpdate) -> (changed: Vec<&'static str>)
    ensures
        changed@.map_values(|n: &'static str| n@) == changed_fields(u),
        config_updated(*old(config), *final(config), u),
{
    let changed = changed_field_names(&u);
    let ghost u0 = u;
    let ConfigUpdate {
        screenshot_interval,
        analysis_interval_secs,
        output_dir,
        llm_provider,
        llm_model,
        llm_endpoint,
        jpeg_quality,
        max_width,
        include_cursor,
        dedup_threshold,
        retention_days,
        capture_all_displays,
        blur_sensitive,
        blocked_apps,
        idle_pause_minutes,
    } = u;
    set_opt(&mut config.screenshot.interval_secs, screenshot_interval);
    set_opt(&mut config.screenshot.analysis_interval_secs, analysis_interval_secs);
    set_opt(&mut config.screenshot.output_dir, output_dir);
    set_opt(&mut config.screenshot.jpeg_quality, jpeg_quality);
    set_opt(&mut config.screenshot.max_width, max_width);
    set_opt(&mut config.screenshot.include_cursor, include_cursor);
    set_opt(&mut config.screenshot.dedup_threshold, dedup_threshold);
    set_opt(&mut config.screenshot.retention_days, retention_days);
    set_opt(&mut config.screenshot.capture_all_displays, capture_all_displays);
    set_opt(&mut config.llm.provider, llm_provider);
    set_opt(&mut config.llm.model, llm_model);
    set_opt(&mut config.llm.base_url, llm_endpoint);
    set_opt(&mut config.privacy.blur_sensitive, blur_sensitive);
    set_opt(&mut config.privacy.blocked_apps, blocked_apps);
    set_opt(&mut config.privacy.idle_pause_minutes, idle_pause_minutes);
    changed
}

/// Each setting after an update comes from its own field of the update
/// alone: a field given a value takes exactly that value, a field left
/// `None` keeps the old one, and the settings an update cannot touch (file
/// limit, model name, key, token limit, activity, batch use, locale, path)
/// never change.
pub proof fn lemma_update_field_by_field(c: AppConfig, u: ConfigUpdate, d: AppConfig)
    requires
        config_updated(c, d, u),
    ensures
        u.screenshot_interval matches Some(v) ==> d.screenshot.interval_secs == v,
        u.screenshot_interval is None ==> d.screenshot.interval_secs == c.screenshot.interval_secs,
        u.analysis_interval_secs matches Some(v) ==> d.screenshot.analysis_interval_secs == v,
        u.analysis_interval_secs is None ==> d.screenshot.analysis_interval_secs == c.screenshot.analysis_interval_secs,
        u.output_dir matches Some(v) ==> d.screenshot.output_dir == v,
        u.output_dir is None ==> d.screenshot.output_dir == c.screenshot.output_dir,
        u.jpeg_quality matches Some(v) ==> d.screenshot.jpeg_quality == v,
        u.jpeg_quality is None ==> d.screenshot.jpeg_quality == c.screenshot.jpeg_quality,
        u.max_width matches Some(v) ==> d.screenshot.max_width == v,
        u.max_width is None ==> d.screenshot.max_width == c.screenshot.max_width,
        u.include_cursor matches Some(v) ==> d.screenshot.include_cursor == v,
        u.include_cursor is None ==> d.screenshot.include_cursor == c.screenshot.include_cursor,
        u.dedup_threshold matches Some(v) ==> d.screenshot.dedup_threshold == v,
        u.dedup_threshold is None ==> d.screenshot.dedup_threshold == c.screenshot.dedup_threshold,
        u.retention_days matches Some(v) ==> d.screenshot.retention_days == v,
        u.retention_days is None ==> d.screenshot.retention_days == c.screenshot.retention_days,
        u.capture_all_displays matches Some(v) ==> d.screenshot.capture_all_displays == v,
        u.capture_all_displays is None ==> d.screenshot.capture_all_displays == c.screenshot.capture_all_displays,
        u.llm_provider matches Some(v) ==> d.llm.provider == v,
        u.llm_provider is None ==> d.llm.provider == c.llm.provider,
        u.llm_model matches Some(v) ==> d.llm.model == v,
        u.llm_model is None ==> d.llm.model == c.llm.model,
        u.llm_endpoint matches Some(v) ==> d.llm.base_url == v,
        u.llm_endpoint is None ==> d.llm.base_url == c.llm.base_url,
        u.blur_sensitive matches Some(v) ==> d.privacy.blur_sensitive == v,
        u.blur_sensitive is None ==> d.privacy.blur_sensitive == c.privacy.blur_sensitive,
        u.blocked_apps matches Some(v) ==> d.privacy.blocked_apps == v,
        u.blocked_apps is None ==> d.privacy.blocked_apps == c.privacy.blocked_apps,
        u.idle_pause_minutes matches Some(v) ==> d.privacy.idle_pause_minutes == v,
        u.idle_pause_minutes is None ==> d.privacy.idle_pause_minutes == c.privacy.idle_pause_minutes,
        d.screenshot.max_files == c.screenshot.max_files,
        d.llm.name == c.llm.name,
        d.llm.api_key == c.llm.api_key,
        d.llm.max_tokens == c.llm.max_tokens,
        d.llm.is_active == c.llm.is_active,
        d.llm.use_batch_api == c.llm.use_batch_api,
        d.locale == c.locale,
        d.config_path == c.config_path,
{
}

/// An update that sets no field changes nothing and reports no field.
pub proof fn lemma_empty_update_is_identity(c: AppConfig, u: ConfigUpdate, d: AppConfig)
    requires
        u.screenshot_interval is None,
        u.analysis_interval_secs is None,
        u.output_dir is None,
        u.llm_provider is None,
        u.llm_model is None,
        u.llm_endpoint is None,
        u.jpeg_quality is None,
        u.max_width is None,
        u.include_cursor is None,
        u.dedup_threshold is None,
        u.retention_days is None,
        u.capture_all_displays is None,
        u.blur_sensitive is None,
        u.blocked_apps is None,
        u.idle_pause_minutes is None,
        config_updated(c, d, u),
    ensures
        d == c,
        changed_fields(u) == Seq::<Seq<char>>::empty(),
{
    assert(changed_fields(u) =~= Seq::<Seq<char>>::empty());
}

// ---------------------------------------------------------------------------
// Model presets
// ---------------------------------------------------------------------------

/// The names of a list of presets.
pub open spec fn preset_names(v: Seq<LlmConfig>) -> Seq<Seq<char>> {
    v.map_values(|c: LlmConfig| c.name@)
}

/// Index of the first preset named `name`.
pub open spec fn first_named(v: Seq<LlmConfig>, name: Seq<char>) -> Option<int>
    decreases v.len(),
{
    if v.len() == 0 {
        None
    } else {
        match first_named(v.drop_last(), name) {
            Some(k) => Some(k),
            None => if v.last().name@ == name { Some(v.len() - 1) } else { None },
        }
    }
}

/// The preset found for a name is the earliest preset of that name; with
/// none, no preset has the name.
pub proof fn lemma_first_named(v: Seq<LlmConfig>, name: Seq<char>)
    ensures
        match first_named(v, name) {
            Some(k) => 0 <= k < v.len() && v[k].name@ == name && forall|j: int| 0 <= j < k ==> #[trigger] v[j].name@ != name,
            None => forall|j: int| 0 <= j < v.len() ==> #[trigger] v[j].name@ != name,
        },
    decreases v.len(),
{
    if v.len() > 0 {
        let d = v.drop_last();
        lemma_first_named(d, name);
        match first_named(d, name) {
            Some(k) => {
                assert(v[k] == d[k]);
                assert forall|j: int| 0 <= j < k implies #[trigger] v[j].name@ != name by {
                    assert(v[j] == d[j]);
                }
            },
            None => {
                assert forall|j: int| 0 <= j < d.len() implies #[trigger] v[j].name@ != name by {
                    assert(v[j] == d[j]);
                }
            },
        }
    }
}

proof fn lemma_first_named_at(v: Seq<LlmConfig>, name: Seq<char>, i: int)
    requires
        0 <= i < v.len(),
        v[i].name@ == name,
        forall|j: int| 0 <= j < i ==> #[trigger] v[j].name@ != name,
    ensures
        first_named(v, name) == Some(i),
{
    lemma_first_named(v, name);
}

/// Saves a preset: it replaces the first preset of the same name, or is
/// added at the end when there is none.
pub fn upsert_preset(configs: &mut Vec<LlmConfig>, config: LlmConfig)
    ensures
        match first_named(old(configs)@, config.name@) {
            Some(k) => final(configs)@ == old(configs)@.update(k, config),
            None => final(configs)@ == old(configs)@.push(config),
        },
{
    proof {
        lemma_first_named(configs@, config.name@);
    }
    let mut i: usize = 0;
    while i < configs.len()
        invariant
            i <= configs.len(),
            configs@ == old(configs)@,
            forall|j: int| 0 <= j < i ==> #[trigger] configs@[j].name@ != config.name@,
        decreases configs.len() - i,
    {
        if str_eq(configs[i].name.as_str(), config.name.as_str()) {
            proof {
                lemma_first_named_at(configs@, config.name@, i as int);
            }
            configs.set(i, config);
            return;
        }
        i = i + 1;
    }
    configs.push(config);
}

/// Saving a preset leaves every preset of another name where it was, and
/// keeps the order of the list.
pub proof fn lemma_upsert_keeps_others(before: Seq<LlmConfig>, after: Seq<LlmConfig>, config: LlmConfig)
    requires
        match first_named(before, config.name@) {
            Some(k) => after == before.update(k, config),
            None => after == before.push(config),
        },
    ensures
        forall|j: int| 0 <= j < before.len() && #[trigger] before[j].name@ != config.name@ ==> after[j] == before[j],
        after.len() >= before.len(),
        exists|k: int| 0 <= k < after.len() && after[k] == config,
{
    lemma_first_named(before, config.name@);
    match first_named(before, config.name@) {
        Some(k) => {
            assert(after[k] == config);
        },
        None => {
            assert(after[after.len() - 1] == config);
        },
    }
}

/// After a preset is saved, the first preset of its name is the one saved,
/// and saving never adds a second preset of one name.
pub proof fn lemma_upsert_then_lookup(before: Seq<LlmConfig>, after: Seq<LlmConfig>, config: LlmConfig)
    requires
        match first_named(before, config.name@) {
            Some(k) => after == before.update(k, config),
            None => after == before.push(config),
        },
    ensures
        first_named(after, config.name@) matches Some(k) && after[k] == config,
        first_named(before, config.name@) is Some ==> after.len() == before.len(),
        first_named(before, config.name@) is None ==> after.len() == before.len() + 1,
{
    lemma_first_named(before, config.name@);
    match first_named(before, config.name@) {
        Some(k) => {
            assert forall|j: int| 0 <= j < k implies #[trigger] after[j].name@ != config.name@ by {
                assert(after[j] == before[j]);
            }
            lemma_first_named_at(after, config.name@, k);
        },
        None => {
            assert forall|j: int| 0 <= j < before.len() implies #[trigger] after[j].name@ != config.name@ by {
                assert(after[j] == before[j]);
            }
            lemma_first_named_at(after, config.name@, before.len() as int);
        },
    }
}

/// Deletes every preset named `name`; the others stay in order.
pub fn remove_presets(configs: &mut Vec<LlmConfig>, name: &str)
    ensures
        final(configs)@ == old(configs)@.filter(|c: LlmConfig| c.name@ != name@),
{
    let ghost orig = old(configs)@;
    let ghost mut k: int = 0;
    let mut i: usize = 0;
    proof {
        assert(orig.take(0).filter(|c: LlmConfig| c.name@ != name@) =~= Seq::<LlmConfig>::empty());
        assert(configs@.take(0) =~= Seq::<LlmConfig>::empty());
        assert(configs@.skip(0) =~= orig.skip(0));
    }
    while i < configs.len()
        invariant
            0 <= k <= orig.len(),
            i <= configs@.len(),
            configs@.take(i as int) == orig.take(k).filter(|c: LlmConfig| c.name@ != name@),
            configs@.skip(i as int) == orig.skip(k),
        decreases orig.len() - k,
    {
        let ghost before = configs@;
        proof {
            assert(before.skip(i as int).len() > 0);
            assert(orig.skip(k).len() == orig.len() - k);
            assert(before.skip(i as int)[0] == orig.skip(k)[0]);
            assert(before[i as int] == orig[k]);
            assert(orig.take(k + 1).drop_last() =~= orig.take(k));
            assert(orig.take(k + 1).last() == orig[k]);
            reveal(Seq::filter);
        }
        if str_eq(configs[i].name.as_str(), name) {
            let _ = configs.remove(i);
            proof {
                assert(configs@.take(i as int) =~= before.take(i as int));
                assert forall|m: int| 0 <= m < configs@.skip(i as int).len() implies #[trigger] configs@.skip(i as int)[m] == orig.skip(k + 1)[m] by {
                    assert(before.skip(i as int)[m + 1] == orig.skip(k)[m + 1]);
                }
                assert(configs@.skip(i as int) =~= orig.skip(k + 1));
                k = k + 1;
            }
        } else {
            proof {
                assert(configs@.take(i + 1) =~= before.take(i as int).push(before[i as int]));
                assert forall|m: int| 0 <= m < configs@.skip(i + 1).len() implies #[trigger] configs@.skip(i + 1)[m] == orig.skip(k + 1)[m] by {
                    assert(before.skip(i as int)[m + 1] == orig.skip(k)[m + 1]);
                }
                assert(configs@.skip(i + 1) =~= orig.skip(k + 1));
                k = k + 1;
            }
            i = i + 1;
        }
    }
    proof {
        assert(configs@.skip(i as int).len() == 0);
        assert(orig.skip(k).len() == 0);
        assert(orig.take(k) =~= orig);
        assert(configs@.take(i as int) =~= configs@);
    }
}

/// After a preset is deleted no preset has its name.
pub proof fn lemma_removed_is_gone(before: Seq<LlmConfig>, name: Seq<char>)
    ensures
        first_named(before.filter(|c: LlmConfig| c.name@ != name), name) is None,
{
    let after = before.filter(|c: LlmConfig| c.name@ != name);
    lemma_first_named(after, name);
    if first_named(after, name) is Some {
        let k = first_named(after, name)->0;
        assert(after.contains(after[k]));
        before.filter_lemma(|c: LlmConfig| c.name@ != name);
    }
}

/// The stored row of a saved preset: a new row (id 0, no creation time,
/// which the database fills in), always active, with the batch flag set.
pub fn db_config_of(config: &LlmConfig) -> (r: crate::db::models::LlmConfig)
    ensures
        r.id == 0,
        r.name@ == config.name@,
        r.provider@ == config.provider@,
        r.base_url@ == config.base_url@,
        r.model@ == config.model@,
        crate::text::opt_str(r.api_key) == crate::text::opt_str(config.api_key),
        r.max_tokens == config.max_tokens,
        r.is_active,
        r.created_at@ == Seq::<char>::empty(),
        r.use_batch_api == Some(config.use_batch_api),
{
    crate::db::models::LlmConfig {
        id: 0,
        name: config.name.clone(),
        provider: config.provider.clone(),
        base_url: config.base_url.clone(),
        model: config.model.clone(),
        api_key: crate::text::clone_opt(&config.api_key),
        max_tokens: config.max_tokens as i64,
        is_active: true,
        created_at: String::new(),
        use_batch_api: Some(config.use_batch_api),
    }
}

/// An error message with its context: `"{context}: {detail}"`.
pub fn with_context(context: &str, detail: &str) -> (m: String)
    ensures
        m@ == context@ + ": "@ + detail@,
{
    String::from_str(context).concat(": ").concat(detail)
}

} // verus!
