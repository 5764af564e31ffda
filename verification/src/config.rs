//! Service configuration, read from a snapshot of environment variables with
//! a default for every setting.
use vstd::prelude::*;

use crate::text::{chars_of, opt_str, extend_str, owned, parse_int, parse_int_spec, str_eq, string_from_chars, trim, trimmed};

verus! {

/// The environment variables a configuration is read from, as name/value
/// pairs (a process environment names each variable once).
#[derive(Debug, Clone)]
pub struct EnvSnapshot {
    pub vars: Vec<(String, String)>,
}

/// Plain values of the variables.
pub open spec fn vars_view(v: Seq<(String, String)>) -> Seq<(Seq<char>, Seq<char>)> {
    v.map_values(|p: (String, String)| (p.0@, p.1@))
}

/// The value of variable `key`: that of its first entry.
pub open spec fn env_value(vars: Seq<(Seq<char>, Seq<char>)>, key: Seq<char>) -> Option<Seq<char>>
    decreases vars.len(),
{
    if vars.len() == 0 {
        None
    } else if vars[0].0 == key {
        Some(vars[0].1)
    } else {
        env_value(vars.drop_first(), key)
    }
}

/// The variable's value, or `default` when it is not set.
pub open spec fn env_or_spec(vars: Seq<(Seq<char>, Seq<char>)>, key: Seq<char>, default: Seq<char>) -> Seq<char> {
    match env_value(vars, key) {
        Some(v) => v,
        None => default,
    }
}

/// The variable's trimmed value; an unset, empty or blank variable counts as
/// not configured.
pub open spec fn env_optional_spec(vars: Seq<(Seq<char>, Seq<char>)>, key: Seq<char>) -> Option<Seq<char>> {
    match env_value(vars, key) {
        Some(v) => if trim(v).len() == 0 { None } else { Some(trim(v)) },
        None => None,
    }
}

/// The variable parsed as an integer of range [lo, hi] (signed or not), or
/// `default` when it is unset or does not parse.
pub open spec fn env_int_spec(vars: Seq<(Seq<char>, Seq<char>)>, key: Seq<char>, signed: bool, lo: int, hi: int, default: int) -> int {
    match env_value(vars, key) {
        Some(v) => match parse_int_spec(v, signed, lo, hi) {
            Some(x) => x,
            None => default,
        },
        None => default,
    }
}

/// The variable parsed as an unsigned integer of at most `hi`, if it is set
/// and parses.
pub open spec fn env_parsed_spec(vars: Seq<(Seq<char>, Seq<char>)>, key: Seq<char>, hi: int) -> Option<int> {
    match env_value(vars, key) {
        Some(v) => parse_int_spec(v, false, 0, hi),
        None => None,
    }
}

/// The variable parsed as a boolean (`true` or `false`), or `default`.
pub open spec fn env_bool_spec(vars: Seq<(Seq<char>, Seq<char>)>, key: Seq<char>, default: bool) -> bool {
    match env_value(vars, key) {
        Some(v) => if v == "true"@ {
            true
        } else if v == "false"@ {
            false
        } else {
            default
        },
        None => default,
    }
}

impl EnvSnapshot {
    /// The variables as plain values.
    pub open spec fn view_vars(&self) -> Seq<(Seq<char>, Seq<char>)> {
        vars_view(self.vars@)
    }

    /// The value of variable `key`, if set.
    pub fn var(&self, key: &str) -> (r: Option<String>)
        ensures
            match r {
                Some(v) => env_value(self.view_vars(), key@) == Some(v@),
                None => env_value(self.view_vars(), key@) is None,
            },
    {
        let ghost all = self.view_vars();
        assert(all.skip(0) =~= all);
        let mut i: usize = 0;
        while i < self.vars.len()
            invariant
                i <= self.vars@.len() == all.len(),
                all == vars_view(self.vars@),
                env_value(all, key@) == env_value(all.skip(i as int), key@),
            decreases self.vars.len() - i,
        {
            let ghost rest = all.skip(i as int);
            assert(rest[0] == (self.vars@[i as int].0@, self.vars@[i as int].1@));
            if str_eq(self.vars[i].0.as_str(), key) {
                return Some(self.vars[i].1.clone());
            }
            assert(rest.drop_first() =~= all.skip(i + 1));
            i = i + 1;
        }
        None
    }

    /// The variable's value, or `default` when it is not set.
    pub fn var_or(&self, key: &str, default: &str) -> (r: String)
        ensures
            r@ == env_or_spec(self.view_vars(), key@, default@),
    {
        match self.var(key) {
            Some(v) => v,
            None => owned(default),
        }
    }

    /// The variable's trimmed value, or none when unset or blank.
    pub fn var_optional(&self, key: &str) -> (r: Option<String>)
        ensures
            match r {
                Some(s) => env_optional_spec(self.view_vars(), key@) == Some(s@),
                None => env_optional_spec(self.view_vars(), key@) is None,
            },
    {
        match self.var(key) {
            None => None,
            Some(v) => {
                let t = trimmed(v.as_str());
                let cs = chars_of(t.as_str());
                if cs.len() == 0 {
                    None
                } else {
                    Some(t)
                }
            },
        }
    }

    /// The variable parsed as an integer of range [lo, hi], or `default`.
    fn var_int(&self, key: &str, signed: bool, lo: i128, hi: i128, default: i128) -> (r: i128)
        requires
            -0x1_0000_0000_0000_0000 <= lo <= 0 < hi <= 0x1_0000_0000_0000_0000,
            lo <= default <= hi,
        ensures
            r == env_int_spec(self.view_vars(), key@, signed, lo as int, hi as int, default as int),
            lo <= r <= hi,
    {
        match self.var(key) {
            None => default,
            Some(v) => {
                let cs = chars_of(v.as_str());
                match parse_int(cs.as_slice(), signed, lo, hi) {
                    Some(x) => x,
                    None => default,
                }
            },
        }
    }

    /// The variable parsed as a `u64`, or `default`.
    pub fn var_u64(&self, key: &str, default: u64) -> (r: u64)
        ensures
            r == env_int_spec(self.view_vars(), key@, false, 0, u64::MAX as int, default as int),
    {
        self.var_int(key, false, 0, u64::MAX as i128, default as i128) as u64
    }

    /// The variable parsed as a `usize`, or `default`.
    pub fn var_usize(&self, key: &str, default: usize) -> (r: usize)
        ensures
            r == env_int_spec(self.view_vars(), key@, false, 0, usize::MAX as int, default as int),
    {
        self.var_int(key, false, 0, usize::MAX as i128, default as i128) as usize
    }

    /// A setting that must be at least 1 (a batch size, a limit, a timeout):
    /// the variable parsed as a `usize`, or `default`, raised to 1.
    pub fn var_usize_at_least_one(&self, key: &str, default: usize) -> (r: usize)
        ensures
            r == if env_int_spec(self.view_vars(), key@, false, 0, usize::MAX as int, default as int) < 1 {
                1
            } else {
                env_int_spec(self.view_vars(), key@, false, 0, usize::MAX as int, default as int)
            },
    {
        let v = self.var_usize(key, default);
        if v < 1 { 1 } else { v }
    }

    /// A setting that must be at least 1, as a `u64` (see
    /// `var_usize_at_least_one`).
    pub fn var_u64_at_least_one(&self, key: &str, default: u64) -> (r: u64)
        ensures
            r == if env_int_spec(self.view_vars(), key@, false, 0, u64::MAX as int, default as int) < 1 {
                1
            } else {
                env_int_spec(self.view_vars(), key@, false, 0, u64::MAX as int, default as int)
            },
    {
        let v = self.var_u64(key, default);
        if v < 1 { 1 } else { v }
    }

    /// The first of two variables that is set and parses as a `usize`, or
    /// `default` when neither does.
    pub fn var_usize_first_of(&self, first: &str, second: &str, default: usize) -> (r: usize)
        ensures
            r == match env_parsed_spec(self.view_vars(), first@, usize::MAX as int) {
                Some(x) => x,
                None => match env_parsed_spec(self.view_vars(), second@, usize::MAX as int) {
                    Some(y) => y,
                    None => default as int,
                },
            },
    {
        match self.var_parsed(first, usize::MAX as i128) {
            Some(x) => x as usize,
            None => match self.var_parsed(second, usize::MAX as i128) {
                Some(y) => y as usize,
                None => default,
            },
        }
    }

    fn var_parsed(&self, key: &str, hi: i128) -> (r: Option<i128>)
        requires
            0 < hi <= 0x1_0000_0000_0000_0000,
        ensures
            match r {
                Some(x) => env_parsed_spec(self.view_vars(), key@, hi as int) == Some(x as int) && 0 <= x <= hi,
                None => env_parsed_spec(self.view_vars(), key@, hi as int) is None,
            },
    {
        match self.var(key) {
            None => None,
            Some(v) => {
                let cs = chars_of(v.as_str());
                parse_int(cs.as_slice(), false, 0, hi)
            },
        }
    }

    /// The variable parsed as a `u32`, or `default`.
    pub fn var_u32(&self, key: &str, default: u32) -> (r: u32)
        ensures
            r == env_int_spec(self.view_vars(), key@, false, 0, u32::MAX as int, default as int),
    {
        self.var_int(key, false, 0, u32::MAX as i128, default as i128) as u32
    }

    /// The variable parsed as a `u16`, or `default`.
    pub fn var_u16(&self, key: &str, default: u16) -> (r: u16)
        ensures
            r == env_int_spec(self.view_vars(), key@, false, 0, u16::MAX as int, default as int),
    {
        self.var_int(key, false, 0, u16::MAX as i128, default as i128) as u16
    }

    /// The variable parsed as an `i32`, or `default`.
    pub fn var_i32(&self, key: &str, default: i32) -> (r: i32)
        ensures
            r == env_int_spec(self.view_vars(), key@, true, i32::MIN as int, i32::MAX as int, default as int),
    {
        self.var_int(key, true, i32::MIN as i128, i32::MAX as i128, default as i128) as i32
    }

    /// The variable parsed as a boolean, or `default`.
    pub fn var_bool(&self, key: &str, default: bool) -> (r: bool)
        ensures
            r == env_bool_spec(self.view_vars(), key@, default),
    {
        proof {
            reveal_strlit("true");
            reveal_strlit("false");
        }
        match self.var(key) {
            None => default,
            Some(v) => {
                if str_eq(v.as_str(), "true") {
                    true
                } else if str_eq(v.as_str(), "false") {
                    false
                } else {
                    default
                }
            },
        }
    }
}

/// HTTP server settings.
#[derive(Debug, Clone)]
pub struct ServerConfig {
    pub host: String,
    pub port: u16,
    pub upload_limit_mb: usize,
    pub process_interval_secs: u64,
    pub process_concurrency: usize,
    pub lancedb_compact_cron: String,
    pub parse_enabled: bool,
    pub reuse_duplicate_files: bool,
    pub build_knowledge_graph: bool,
}

impl ServerConfig {
    /// Server settings from the environment, each with its default.
    pub fn from_env(env: &EnvSnapshot) -> (c: ServerConfig)
        ensures
            c.host@ == env_or_spec(env.view_vars(), "HTKNOW_SERVER_HOST"@, "0.0.0.0"@),
            c.port == env_int_spec(env.view_vars(), "HTKNOW_SERVER_PORT"@, false, 0, u16::MAX as int, 3000),
            c.upload_limit_mb == env_int_spec(env.view_vars(), "HTKNOW_SERVER_UPLOAD_LIMIT_MB"@, false, 0, usize::MAX as int, 500),
            c.process_interval_secs == env_int_spec(env.view_vars(), "HTKNOW_SERVER_PROCESS_INTERVAL_SECS"@, false, 0, u64::MAX as int, 10),
            c.process_concurrency == env_int_spec(env.view_vars(), "HTKNOW_SERVER_PROCESS_CONCURRENCY"@, false, 0, usize::MAX as int, 1),
            c.lancedb_compact_cron@ == env_or_spec(env.view_vars(), "HTKNOW_LANCEDB_COMPACT_CRON"@, "0 0 3 * * *"@),
            c.parse_enabled == env_bool_spec(env.view_vars(), "HTKNOW_PARSE_ENABLED"@, true),
            c.reuse_duplicate_files == env_bool_spec(env.view_vars(), "HTKNOW_REUSE_DUPLICATE_FILES"@, true),
            c.build_knowledge_graph == env_bool_spec(env.view_vars(), "HTKNOW_BUILD_KNOWLEDGE_GRAPH"@, false),
    {
        ServerConfig {
            host: env.var_or("HTKNOW_SERVER_HOST", "0.0.0.0"),
            port: env.var_u16("HTKNOW_SERVER_PORT", 3000),
            upload_limit_mb: env.var_usize("HTKNOW_SERVER_UPLOAD_LIMIT_MB", 500),
            process_interval_secs: env.var_u64("HTKNOW_SERVER_PROCESS_INTERVAL_SECS", 10),
            process_concurrency: env.var_usize("HTKNOW_SERVER_PROCESS_CONCURRENCY", 1),
            lancedb_compact_cron: env.var_or("HTKNOW_LANCEDB_COMPACT_CRON", "0 0 3 * * *"),
            parse_enabled: env.var_bool("HTKNOW_PARSE_ENABLED", true),
            reuse_duplicate_files: env.var_bool("HTKNOW_REUSE_DUPLICATE_FILES", true),
            build_knowledge_graph: env.var_bool("HTKNOW_BUILD_KNOWLEDGE_GRAPH", false),
        }
    }
}

/// Image handling mode used when none is configured: `custom` where an
/// image parse service is configured, else `ocr` where an OCR service is,
/// else `none`.
pub open spec fn default_image_mode(vars: Seq<(Seq<char>, Seq<char>)>) -> Seq<char> {
    if env_optional_spec(vars, "HTKNOW_IMAGE_PARSE_URL"@) is Some {
        "custom"@
    } else if env_optional_spec(vars, "HTKNOW_IMAGE_OCR_URL"@) is Some {
        "ocr"@
    } else {
        "none"@
    }
}

/// Addresses and limits of the external services.
#[derive(Debug, Clone)]
pub struct ServicesConfig {
    pub mineru_url: String,
    pub request_timeout_secs: u64,
    pub mineru_max_pages: usize,
    pub office_convert_url: String,
    pub custom_parse_url: Option<String>,
    pub custom_parse_reuse_url: Option<String>,
    pub audio_transcription_url: String,
    pub audio_transcription_key: Option<String>,
    pub embedding_url: String,
    pub embedding_key: Option<String>,
    pub image_embedding_url: Option<String>,
    pub image_embedding_key: Option<String>,
    pub rerank_url: String,
    pub rerank_key: Option<String>,
    pub image_parse_mode: String,
    pub image_parse_url: Option<String>,
    pub image_ocr_url: Option<String>,
    pub image_parse_timeout_secs: u64,
    pub image_parse_concurrency: usize,
}

impl ServicesConfig {
    /// Service settings from the environment, each with its default; blank
    /// optional values count as not configured.
    pub fn from_env(env: &EnvSnapshot) -> (c: ServicesConfig)
        ensures
            c.mineru_url@ == env_or_spec(env.view_vars(), "HTKNOW_MINERU_URL"@, "http://192.168.0.46:10001/file_parse"@),
            c.request_timeout_secs == env_int_spec(env.view_vars(), "HTKNOW_REQUEST_TIMEOUT_SECS"@, false, 0, u64::MAX as int, 600),
            c.mineru_max_pages == env_int_spec(env.view_vars(), "HTKNOW_MINERU_MAX_PAGES"@, false, 0, usize::MAX as int, 50),
            c.office_convert_url@ == env_or_spec(env.view_vars(), "HTKNOW_OFFICE_CONVERT_URL"@, "http://192.168.0.46:8003/convert"@),
            opt_str(c.custom_parse_url) == env_optional_spec(env.view_vars(), "HTKNOW_CUSTOM_PARSE_URL"@),
            opt_str(c.custom_parse_reuse_url) == env_optional_spec(env.view_vars(), "HTKNOW_CUSTOM_PARSE_REUSE_URL"@),
            c.audio_transcription_url@ == env_or_spec(env.view_vars(), "HTKNOW_AUDIO_TRANSCRIPTION_URL"@, "http://192.168.0.46:59805/api/v1/audio/transcriptions"@),
            opt_str(c.audio_transcription_key) == env_value(env.view_vars(), "HTKNOW_AUDIO_TRANSCRIPTION_KEY"@),
            c.embedding_url@ == env_or_spec(env.view_vars(), "HTKNOW_EMBEDDING_URL"@, "http://222.190.139.186:59700/v1/embeddings"@),
            opt_str(c.embedding_key) == env_optional_spec(env.view_vars(), "HTKNOW_EMBEDDING_KEY"@),
            opt_str(c.image_embedding_url) == env_optional_spec(env.view_vars(), "HTKNOW_IMAGE_EMBEDDING_URL"@),
            opt_str(c.image_embedding_key) == env_optional_spec(env.view_vars(), "HTKNOW_IMAGE_EMBEDDING_KEY"@),
            c.rerank_url@ == env_or_spec(env.view_vars(), "HTKNOW_RERANK_URL"@, "http://222.190.139.186:59600/v1/rerank"@),
            opt_str(c.rerank_key) == env_optional_spec(env.view_vars(), "HTKNOW_RERANK_KEY"@),
            opt_str(c.image_parse_url) == env_optional_spec(env.view_vars(), "HTKNOW_IMAGE_PARSE_URL"@),
            opt_str(c.image_ocr_url) == env_optional_spec(env.view_vars(), "HTKNOW_IMAGE_OCR_URL"@),
            c.image_parse_timeout_secs == env_int_spec(env.view_vars(), "HTKNOW_IMAGE_PARSE_TIMEOUT_SECS"@, false, 0, u64::MAX as int, 120),
            c.image_parse_concurrency == env_int_spec(env.view_vars(), "HTKNOW_IMAGE_PARSE_CONCURRENCY"@, false, 0, usize::MAX as int, 5),
            c.image_parse_mode@ == env_or_spec(env.view_vars(), "HTKNOW_IMAGE_PARSE_MODE"@, default_image_mode(env.view_vars())),
    {
        let image_parse_url = env.var_optional("HTKNOW_IMAGE_PARSE_URL");
        let image_ocr_url = env.var_optional("HTKNOW_IMAGE_OCR_URL");
        let default_mode = if image_parse_url.is_some() {
            "custom"
        } else if image_ocr_url.is_some() {
            "ocr"
        } else {
            "none"
        };
        let image_parse_mode = env.var_or("HTKNOW_IMAGE_PARSE_MODE", default_mode);
        ServicesConfig {
            mineru_url: env.var_or("HTKNOW_MINERU_URL", "http://192.168.0.46:10001/file_parse"),
            request_timeout_secs: env.var_u64("HTKNOW_REQUEST_TIMEOUT_SECS", 600),
            mineru_max_pages: env.var_usize("HTKNOW_MINERU_MAX_PAGES", 50),
            office_convert_url: env.var_or("HTKNOW_OFFICE_CONVERT_URL", "http://192.168.0.46:8003/convert"),
            custom_parse_url: env.var_optional("HTKNOW_CUSTOM_PARSE_URL"),
            custom_parse_reuse_url: env.var_optional("HTKNOW_CUSTOM_PARSE_REUSE_URL"),
            audio_transcription_url: env.var_or("HTKNOW_AUDIO_TRANSCRIPTION_URL", "http://192.168.0.46:59805/api/v1/audio/transcriptions"),
            audio_transcription_key: env.var("HTKNOW_AUDIO_TRANSCRIPTION_KEY"),
            embedding_url: env.var_or("HTKNOW_EMBEDDING_URL", "http://222.190.139.186:59700/v1/embeddings"),
            embedding_key: env.var_optional("HTKNOW_EMBEDDING_KEY"),
            image_embedding_url: env.var_optional("HTKNOW_IMAGE_EMBEDDING_URL"),
            image_embedding_key: env.var_optional("HTKNOW_IMAGE_EMBEDDING_KEY"),
            rerank_url: env.var_or("HTKNOW_RERANK_URL", "http://222.190.139.186:59600/v1/rerank"),
            rerank_key: env.var_optional("HTKNOW_RERANK_KEY"),
            image_parse_url,
            image_ocr_url,
            image_parse_mode,
            image_parse_timeout_secs: env.var_u64("HTKNOW_IMAGE_PARSE_TIMEOUT_SECS", 120),
            image_parse_concurrency: env.var_usize("HTKNOW_IMAGE_PARSE_CONCURRENCY", 5),
        }
    }
}

/// Database connection settings.
#[derive(Debug, Clone)]
pub struct DatabaseConfig {
    pub url: String,
    pub max_connections: u32,
    pub min_connections: u32,
    pub busy_timeout_ms: u64,
    pub init_default_kbs: bool,
}

impl DatabaseConfig {
    /// Database settings from the environment, each with its default.
    pub fn from_env(env: &EnvSnapshot) -> (c: DatabaseConfig)
        ensures
            c.url@ == env_or_spec(env.view_vars(), "DATABASE_URL"@, "sqlite://data/app.sqlite"@),
            c.max_connections == env_int_spec(env.view_vars(), "HTKNOW_DB_MAX_CONNECTIONS"@, false, 0, u32::MAX as int, 16),
            c.min_connections == env_int_spec(env.view_vars(), "HTKNOW_DB_MIN_CONNECTIONS"@, false, 0, u32::MAX as int, 2),
            c.busy_timeout_ms == env_int_spec(env.view_vars(), "HTKNOW_DB_BUSY_TIMEOUT_MS"@, false, 0, u64::MAX as int, 5000),
            c.init_default_kbs == env_bool_spec(env.view_vars(), "HTKNOW_DB_INIT_DEFAULT_KBS"@, true),
    {
        DatabaseConfig {
            url: env.var_or("DATABASE_URL", "sqlite://data/app.sqlite"),
            max_connections: env.var_u32("HTKNOW_DB_MAX_CONNECTIONS", 16),
            min_connections: env.var_u32("HTKNOW_DB_MIN_CONNECTIONS", 2),
            busy_timeout_ms: env.var_u64("HTKNOW_DB_BUSY_TIMEOUT_MS", 5000),
            init_default_kbs: env.var_bool("HTKNOW_DB_INIT_DEFAULT_KBS", true),
        }
    }
}

/// The data directory that storage paths default to.
pub open spec fn data_dir(vars: Seq<(Seq<char>, Seq<char>)>) -> Seq<char> {
    env_or_spec(vars, "HTKNOW_DATA_DIR"@, "data"@)
}

/// `dir` followed by `/` and `leaf`, as `format!("{}/{leaf}", dir)` gives it.
fn under(dir: &String, leaf: &str) -> (r: String)
    ensures
        r@ == dir@ + seq!['/'] + leaf@,
{
    let mut v = chars_of(dir.as_str());
    v.push('/');
    extend_str(&mut v, leaf);
    string_from_chars(v.as_slice())
}

impl EnvSnapshot {
    /// A location setting: the variable, or `leaf` under the data directory
    /// when it is not set.
    pub fn var_or_data_path(&self, key: &str, leaf: &str) -> (r: String)
        ensures
            r@ == env_or_spec(self.view_vars(), key@, data_dir(self.view_vars()) + seq!['/'] + leaf@),
    {
        let data = self.var_or("HTKNOW_DATA_DIR", "data");
        let fallback = under(&data, leaf);
        self.var_or(key, fallback.as_str())
    }
}

/// Storage locations.
#[derive(Debug, Clone)]
pub struct StorageConfig {
    pub lancedb_path: String,
    pub temp_path: String,
    pub images_path: String,
    pub pdf_path: String,
    pub files_path: String,
    pub archives_path: String,
    pub contents_path: String,
    pub slice_contents_path: String,
}

impl StorageConfig {
    /// Storage paths from the environment; each defaults to a directory
    /// under the data directory.
    pub fn from_env(env: &EnvSnapshot) -> (c: StorageConfig)
        ensures
            c.lancedb_path@ == env_or_spec(env.view_vars(), "HTKNOW_LANCEDB_PATH"@, data_dir(env.view_vars()) + seq!['/'] + "lancedb_data"@),
            c.temp_path@ == env_or_spec(env.view_vars(), "HTKNOW_TEMP_PATH"@, data_dir(env.view_vars()) + seq!['/'] + "temp"@),
            c.images_path@ == env_or_spec(env.view_vars(), "HTKNOW_IMAGES_PATH"@, data_dir(env.view_vars()) + seq!['/'] + "images"@),
            c.pdf_path@ == env_or_spec(env.view_vars(), "HTKNOW_PDF_PATH"@, data_dir(env.view_vars()) + seq!['/'] + "pdfs"@),
            c.files_path@ == env_or_spec(env.view_vars(), "HTKNOW_FILES_PATH"@, data_dir(env.view_vars()) + seq!['/'] + "files"@),
            c.archives_path@ == env_or_spec(env.view_vars(), "HTKNOW_ARCHIVES_PATH"@, data_dir(env.view_vars()) + seq!['/'] + "archives"@),
            c.contents_path@ == env_or_spec(env.view_vars(), "HTKNOW_CONTENTS_PATH"@, data_dir(env.view_vars()) + seq!['/'] + "contents"@),
            c.slice_contents_path@ == env_or_spec(env.view_vars(), "HTKNOW_SLICE_CONTENTS_PATH"@, data_dir(env.view_vars()) + seq!['/'] + "slice_contents"@),
    {
        let data = env.var_or("HTKNOW_DATA_DIR", "data");
        let lancedb_path = under(&data, "lancedb_data");
        let temp_path = under(&data, "temp");
        let images_path = under(&data, "images");
        let pdf_path = under(&data, "pdfs");
        let files_path = under(&data, "files");
        let archives_path = under(&data, "archives");
        let contents_path = under(&data, "contents");
        let slice_contents_path = under(&data, "slice_contents");
        StorageConfig {
            lancedb_path: env.var_or("HTKNOW_LANCEDB_PATH", lancedb_path.as_str()),
            temp_path: env.var_or("HTKNOW_TEMP_PATH", temp_path.as_str()),
            images_path: env.var_or("HTKNOW_IMAGES_PATH", images_path.as_str()),
            pdf_path: env.var_or("HTKNOW_PDF_PATH", pdf_path.as_str()),
            files_path: env.var_or("HTKNOW_FILES_PATH", files_path.as_str()),
            archives_path: env.var_or("HTKNOW_ARCHIVES_PATH", archives_path.as_str()),
            contents_path: env.var_or("HTKNOW_CONTENTS_PATH", contents_path.as_str()),
            slice_contents_path: env.var_or("HTKNOW_SLICE_CONTENTS_PATH", slice_contents_path.as_str()),
        }
    }
}

/// A setting raised to at least 1.
pub open spec fn at_least_one(v: int) -> int {
    if v < 1 {
        1
    } else {
        v
    }
}

/// Embedding and reranking settings (all but the rerank threshold, a
/// floating-point number that the caller reads itself).
#[derive(Debug, Clone)]
pub struct AISettings {
    pub embedding_model: String,
    pub embedding_dim: i32,
    pub image_embedding_dim: i32,
    pub rerank_model: String,
    pub embedding_batch_size: usize,
    pub embedding_batch_max_chars: usize,
    pub embedding_batch_timeout_secs: u64,
}

impl AISettings {
    /// Embedding settings from the environment, each with its default; batch
    /// size, batch length and batch timeout are at least 1.
    pub fn from_env(env: &EnvSnapshot) -> (c: AISettings)
        ensures
            c.embedding_model@ == env_or_spec(env.view_vars(), "HTKNOW_EMBEDDING_MODEL"@, "bge-m3"@),
            c.embedding_dim == env_int_spec(env.view_vars(), "HTKNOW_EMBEDDING_DIM"@, true, i32::MIN as int, i32::MAX as int, 1024),
            c.image_embedding_dim == env_int_spec(env.view_vars(), "HTKNOW_IMAGE_EMBEDDING_DIM"@, true, i32::MIN as int, i32::MAX as int, 2048),
            c.rerank_model@ == env_or_spec(env.view_vars(), "HTKNOW_RERANK_MODEL"@, "bge-rerank"@),
            c.embedding_batch_size == at_least_one(env_int_spec(env.view_vars(), "HTKNOW_EMBEDDING_BATCH_SIZE"@, false, 0, usize::MAX as int, 8)),
            c.embedding_batch_max_chars == at_least_one(env_int_spec(env.view_vars(), "HTKNOW_EMBEDDING_BATCH_MAX_CHARS"@, false, 0, usize::MAX as int, 16000)),
            c.embedding_batch_timeout_secs == at_least_one(env_int_spec(env.view_vars(), "HTKNOW_EMBEDDING_BATCH_TIMEOUT_SECS"@, false, 0, u64::MAX as int, 120)),
    {
        AISettings {
            embedding_model: env.var_or("HTKNOW_EMBEDDING_MODEL", "bge-m3"),
            embedding_dim: env.var_i32("HTKNOW_EMBEDDING_DIM", 1024),
            image_embedding_dim: env.var_i32("HTKNOW_IMAGE_EMBEDDING_DIM", 2048),
            rerank_model: env.var_or("HTKNOW_RERANK_MODEL", "bge-rerank"),
            embedding_batch_size: env.var_usize_at_least_one("HTKNOW_EMBEDDING_BATCH_SIZE", 8),
            embedding_batch_max_chars: env.var_usize_at_least_one("HTKNOW_EMBEDDING_BATCH_MAX_CHARS", 16000),
            embedding_batch_timeout_secs: env.var_u64_at_least_one("HTKNOW_EMBEDDING_BATCH_TIMEOUT_SECS", 120),
        }
    }
}

/// Search settings (all but the synonym boost, a floating-point number that
/// the caller reads itself).
#[derive(Debug, Clone)]
pub struct SearchSettings {
    pub limit: usize,
    pub tantivy_index_path: String,
    pub tantivy_memory_mb: usize,
    pub tantivy_rebuild_batch_size: usize,
    pub lancedb_rebuild_batch_size: usize,
    pub embedding_timeout_secs: u64,
    pub rerank_timeout_secs: u64,
    pub synonym_enabled: bool,
    pub max_synonyms_per_term: usize,
    pub max_total_synonyms: usize,
    pub highlight_page_min_chars: usize,
}

impl SearchSettings {
    /// Search settings from the environment, each with its default; the
    /// highlight threshold also answers to its former name.
    pub fn from_env(env: &EnvSnapshot) -> (c: SearchSettings)
        ensures
            c.limit == env_int_spec(env.view_vars(), "HTKNOW_SEARCH_LIMIT"@, false, 0, usize::MAX as int, 10),
            c.tantivy_index_path@ == env_or_spec(env.view_vars(), "HTKNOW_TANTIVY_INDEX_PATH"@, data_dir(env.view_vars()) + seq!['/'] + "tantivy_index"@),
            c.tantivy_memory_mb == env_int_spec(env.view_vars(), "HTKNOW_TANTIVY_MEMORY_MB"@, false, 0, usize::MAX as int, 50),
            c.tantivy_rebuild_batch_size == env_int_spec(env.view_vars(), "HTKNOW_SEARCH_TANTIVY_REBUILD_BATCH_SIZE"@, false, 0, usize::MAX as int, 100),
            c.lancedb_rebuild_batch_size == env_int_spec(env.view_vars(), "HTKNOW_SEARCH_LANCEDB_REBUILD_BATCH_SIZE"@, false, 0, usize::MAX as int, 1000),
            c.embedding_timeout_secs == env_int_spec(env.view_vars(), "HTKNOW_SEARCH_EMBEDDING_TIMEOUT_SECS"@, false, 0, u64::MAX as int, 30),
            c.rerank_timeout_secs == env_int_spec(env.view_vars(), "HTKNOW_SEARCH_RERANK_TIMEOUT_SECS"@, false, 0, u64::MAX as int, 20),
            c.synonym_enabled == env_bool_spec(env.view_vars(), "HTKNOW_SEARCH_SYNONYM_ENABLED"@, true),
            c.max_synonyms_per_term == env_int_spec(env.view_vars(), "HTKNOW_SEARCH_MAX_SYNONYMS_PER_TERM"@, false, 0, usize::MAX as int, 5),
            c.max_total_synonyms == env_int_spec(env.view_vars(), "HTKNOW_SEARCH_MAX_TOTAL_SYNONYMS"@, false, 0, usize::MAX as int, 30),
            c.highlight_page_min_chars == match env_parsed_spec(env.view_vars(), "HTKNOW_HIGHLIGHT_PAGE_MIN_CHARS"@, usize::MAX as int) {
                Some(x) => x,
                None => match env_parsed_spec(env.view_vars(), "HTKNOW_HIGHLIGHT_PAGE_MIN_POSITIONS"@, usize::MAX as int) {
                    Some(y) => y,
                    None => 20,
                },
            },
    {
        SearchSettings {
            limit: env.var_usize("HTKNOW_SEARCH_LIMIT", 10),
            tantivy_index_path: env.var_or_data_path("HTKNOW_TANTIVY_INDEX_PATH", "tantivy_index"),
            tantivy_memory_mb: env.var_usize("HTKNOW_TANTIVY_MEMORY_MB", 50),
            tantivy_rebuild_batch_size: env.var_usize("HTKNOW_SEARCH_TANTIVY_REBUILD_BATCH_SIZE", 100),
            lancedb_rebuild_batch_size: env.var_usize("HTKNOW_SEARCH_LANCEDB_REBUILD_BATCH_SIZE", 1000),
            embedding_timeout_secs: env.var_u64("HTKNOW_SEARCH_EMBEDDING_TIMEOUT_SECS", 30),
            rerank_timeout_secs: env.var_u64("HTKNOW_SEARCH_RERANK_TIMEOUT_SECS", 20),
            synonym_enabled: env.var_bool("HTKNOW_SEARCH_SYNONYM_ENABLED", true),
            max_synonyms_per_term: env.var_usize("HTKNOW_SEARCH_MAX_SYNONYMS_PER_TERM", 5),
            max_total_synonyms: env.var_usize("HTKNOW_SEARCH_MAX_TOTAL_SYNONYMS", 30),
            highlight_page_min_chars: env.var_usize_first_of(
                "HTKNOW_HIGHLIGHT_PAGE_MIN_CHARS",
                "HTKNOW_HIGHLIGHT_PAGE_MIN_POSITIONS",
                20,
            ),
        }
    }
}

/// Slicing settings.
#[derive(Debug, Clone)]
pub struct SliceConfig {
    pub smart_slice_max_chars: usize,
    pub fixed_slice_overlap_chars: usize,
}

impl SliceConfig {
    /// Slicing settings from the environment, each with its default.
    pub fn from_env(env: &EnvSnapshot) -> (c: SliceConfig)
        ensures
            c.smart_slice_max_chars == env_int_spec(env.view_vars(), "HTKNOW_SMART_SLICE_MAX_CHARS"@, false, 0, usize::MAX as int, 8000),
            c.fixed_slice_overlap_chars == env_int_spec(env.view_vars(), "HTKNOW_FIXED_SLICE_OVERLAP_CHARS"@, false, 0, usize::MAX as int, 100),
    {
        SliceConfig {
            smart_slice_max_chars: env.var_usize("HTKNOW_SMART_SLICE_MAX_CHARS", 8000),
            fixed_slice_overlap_chars: env.var_usize("HTKNOW_FIXED_SLICE_OVERLAP_CHARS", 100),
        }
    }
}

/// Language-model service settings.
#[derive(Debug, Clone)]
pub struct LLMConfig {
    pub api_url: Option<String>,
    pub api_key: Option<String>,
    pub model: String,
}

impl LLMConfig {
    /// Language-model settings from the environment.
    pub fn from_env(env: &EnvSnapshot) -> (c: LLMConfig)
        ensures
            opt_str(c.api_url) == env_value(env.view_vars(), "LLM_API_URL"@),
            opt_str(c.api_key) == env_value(env.view_vars(), "LLM_API_KEY"@),
            c.model@ == env_or_spec(env.view_vars(), "LLM_MODEL"@, "gpt-3.5-turbo"@),
    {
        LLMConfig {
            api_url: env.var("LLM_API_URL"),
            api_key: env.var("LLM_API_KEY"),
            model: env.var_or("LLM_MODEL", "gpt-3.5-turbo"),
        }
    }

    /// The language model is enabled once its address is configured.
    pub fn is_enabled(&self) -> (b: bool)
        ensures
            b == self.api_url.is_some(),
    {
        self.api_url.is_some()
    }
}

/// Extraction granularity of wiki generation.
#[derive(Debug, Clone, Copy, PartialEq, Eq)]
pub enum Granularity {
    Focused,
    Standard,
    Exhaustive,
}

/// The granularity a name stands for.
pub open spec fn granularity_of(name: Seq<char>) -> Option<Granularity> {
    if name == "focused"@ {
        Some(Granularity::Focused)
    } else if name == "standard"@ {
        Some(Granularity::Standard)
    } else if name == "exhaustive"@ {
        Some(Granularity::Exhaustive)
    } else {
        None
    }
}

impl Granularity {
    /// The granularity named `focused`, `standard` or `exhaustive`.
    pub fn parse(name: &str) -> (g: Option<Granularity>)
        ensures
            g == granularity_of(name@),
    {
        proof {
            reveal_strlit("focused");
            reveal_strlit("standard");
            reveal_strlit("exhaustive");
        }
        if str_eq(name, "focused") {
            Some(Granularity::Focused)
        } else if str_eq(name, "standard") {
            Some(Granularity::Standard)
        } else if str_eq(name, "exhaustive") {
            Some(Granularity::Exhaustive)
        } else {
            None
        }
    }
}

impl Default for Granularity {
    /// The standard granularity.
    fn default() -> (g: Granularity)
        ensures
            g == Granularity::Standard,
    {
        Granularity::Standard
    }
}

/// Wiki generation settings.
#[derive(Debug, Clone)]
pub struct WikiConfig {
    pub enabled: bool,
    pub worker_interval_secs: u64,
    pub batch_size: usize,
    pub reduce_parallel: usize,
    pub citation_parallel: usize,
    pub max_inflight_per_kb: usize,
    pub llm_max_tokens: usize,
    pub finalize_delay_secs: u64,
    pub max_fail_retries: u32,
    pub claim_stale_secs: u64,
    pub max_pages_per_ingest: usize,
    pub max_source_chars: usize,
    pub revision_soft_limit: usize,
    pub revision_hard_limit: usize,
    pub granularity: String,
    pub default_language: String,
    pub api_url: Option<String>,
    pub api_key: Option<String>,
    pub model: Option<String>,
}

impl WikiConfig {
    /// Wiki settings from the environment; the language-model address, key
    /// and model fall back to the general language-model settings.
    pub fn from_env(env: &EnvSnapshot) -> (c: WikiConfig)
        ensures
            c.enabled == env_bool_spec(env.view_vars(), "HTKNOW_BUILD_WIKI"@, false),
            c.worker_interval_secs == env_int_spec(env.view_vars(), "HTKNOW_WIKI_WORKER_INTERVAL_SECS"@, false, 0, u64::MAX as int, 10),
            c.batch_size == env_int_spec(env.view_vars(), "HTKNOW_WIKI_BATCH_SIZE"@, false, 0, usize::MAX as int, 5),
            c.reduce_parallel == env_int_spec(env.view_vars(), "HTKNOW_WIKI_REDUCE_PARALLEL"@, false, 0, usize::MAX as int, 4),
            c.citation_parallel == env_int_spec(env.view_vars(), "HTKNOW_WIKI_CITATION_PARALLEL"@, false, 0, usize::MAX as int, 4),
            c.max_inflight_per_kb == env_int_spec(env.view_vars(), "HTKNOW_WIKI_MAX_INFLIGHT_PER_KB"@, false, 0, usize::MAX as int, 2),
            c.llm_max_tokens == env_int_spec(env.view_vars(), "HTKNOW_WIKI_LLM_MAX_TOKENS"@, false, 0, usize::MAX as int, 8192),
            c.finalize_delay_secs == env_int_spec(env.view_vars(), "HTKNOW_WIKI_FINALIZE_DELAY_SECS"@, false, 0, u64::MAX as int, 20),
            c.max_fail_retries == env_int_spec(env.view_vars(), "HTKNOW_WIKI_MAX_FAIL_RETRIES"@, false, 0, u32::MAX as int, 5),
            c.claim_stale_secs == env_int_spec(env.view_vars(), "HTKNOW_WIKI_CLAIM_STALE_SECS"@, false, 0, u64::MAX as int, 5400),
            c.max_pages_per_ingest == env_int_spec(env.view_vars(), "HTKNOW_WIKI_MAX_PAGES_PER_INGEST"@, false, 0, usize::MAX as int, 0),
            c.max_source_chars == env_int_spec(env.view_vars(), "HTKNOW_WIKI_MAX_SOURCE_CHARS"@, false, 0, usize::MAX as int, 12000),
            c.revision_soft_limit == env_int_spec(env.view_vars(), "HTKNOW_WIKI_REVISION_SOFT_LIMIT"@, false, 0, usize::MAX as int, 50),
            c.revision_hard_limit == env_int_spec(env.view_vars(), "HTKNOW_WIKI_REVISION_HARD_LIMIT"@, false, 0, usize::MAX as int, 200),
            c.granularity@ == env_or_spec(env.view_vars(), "HTKNOW_WIKI_GRANULARITY"@, "standard"@),
            c.default_language@ == env_or_spec(env.view_vars(), "HTKNOW_WIKI_LANGUAGE"@, "中文"@),
            opt_str(c.api_url) == match env_optional_spec(env.view_vars(), "WIKI_LLM_API_URL"@) {
                Some(u) => Some(u),
                None => env_value(env.view_vars(), "LLM_API_URL"@),
            },
            opt_str(c.api_key) == match env_optional_spec(env.view_vars(), "WIKI_LLM_API_KEY"@) {
                Some(u) => Some(u),
                None => env_value(env.view_vars(), "LLM_API_KEY"@),
            },
            opt_str(c.model) == match env_optional_spec(env.view_vars(), "WIKI_LLM_MODEL"@) {
                Some(u) => Some(u),
                None => Some(env_or_spec(env.view_vars(), "LLM_MODEL"@, "gpt-3.5-turbo"@)),
            },
    {
        let llm = LLMConfig::from_env(env);
        let api_url = match env.var_optional("WIKI_LLM_API_URL") {
            Some(u) => Some(u),
            None => llm.api_url,
        };
        let api_key = match env.var_optional("WIKI_LLM_API_KEY") {
            Some(u) => Some(u),
            None => llm.api_key,
        };
        let model = match env.var_optional("WIKI_LLM_MODEL") {
            Some(u) => Some(u),
            None => Some(llm.model),
        };
        WikiConfig {
            enabled: env.var_bool("HTKNOW_BUILD_WIKI", false),
            worker_interval_secs: env.var_u64("HTKNOW_WIKI_WORKER_INTERVAL_SECS", 10),
            batch_size: env.var_usize("HTKNOW_WIKI_BATCH_SIZE", 5),
            reduce_parallel: env.var_usize("HTKNOW_WIKI_REDUCE_PARALLEL", 4),
            citation_parallel: env.var_usize("HTKNOW_WIKI_CITATION_PARALLEL", 4),
            max_inflight_per_kb: env.var_usize("HTKNOW_WIKI_MAX_INFLIGHT_PER_KB", 2),
            llm_max_tokens: env.var_usize("HTKNOW_WIKI_LLM_MAX_TOKENS", 8192),
            finalize_delay_secs: env.var_u64("HTKNOW_WIKI_FINALIZE_DELAY_SECS", 20),
            max_fail_retries: env.var_u32("HTKNOW_WIKI_MAX_FAIL_RETRIES", 5),
            claim_stale_secs: env.var_u64("HTKNOW_WIKI_CLAIM_STALE_SECS", 5400),
            max_pages_per_ingest: env.var_usize("HTKNOW_WIKI_MAX_PAGES_PER_INGEST", 0),
            max_source_chars: env.var_usize("HTKNOW_WIKI_MAX_SOURCE_CHARS", 12000),
            revision_soft_limit: env.var_usize("HTKNOW_WIKI_REVISION_SOFT_LIMIT", 50),
            revision_hard_limit: env.var_usize("HTKNOW_WIKI_REVISION_HARD_LIMIT", 200),
            granularity: env.var_or("HTKNOW_WIKI_GRANULARITY", "standard"),
            default_language: env.var_or("HTKNOW_WIKI_LANGUAGE", "中文"),
            api_url,
            api_key,
            model,
        }
    }

    /// Wiki pages can be generated when the switch is on and a language
    /// model address is configured.
    pub fn is_enabled(&self) -> (b: bool)
        ensures
            b == (self.enabled && self.api_url.is_some()),
    {
        self.enabled && self.api_url.is_some()
    }

    /// The configured extraction granularity; an unknown name falls back to
    /// the standard one.
    pub fn default_granularity(&self) -> (g: Granularity)
        ensures
            g == match granularity_of(self.granularity@) {
                Some(x) => x,
                None => Granularity::Standard,
            },
    {
        match Granularity::parse(self.granularity.as_str()) {
            Some(g) => g,
            None => Granularity::default(),
        }
    }
}

/// Configuration read from environment variables.
pub struct EnvConfigLoader;

/// Configuration kept in etcd under a key prefix.
#[derive(Debug, Clone)]
pub struct EtcdConfigLoader {
    pub endpoints: Vec<String>,
    pub prefix: String,
}

impl EtcdConfigLoader {
    /// A loader for the given endpoints and key prefix.
    pub fn new(endpoints: Vec<String>, prefix: String) -> (l: EtcdConfigLoader)
        ensures
            l.endpoints == endpoints,
            l.prefix == prefix,
    {
        EtcdConfigLoader { endpoints, prefix }
    }
}


/// An optional setting that is configured is never blank and carries no
/// white space at either end.
pub proof fn lemma_optional_setting_trimmed(vars: Seq<(Seq<char>, Seq<char>)>, key: Seq<char>)
    ensures
        env_optional_spec(vars, key) matches Some(v) ==> v.len() > 0 && trim(v) == v,
{
    if let Some(raw) = env_value(vars, key) {
        crate::text::lemma_trim_idempotent(raw);
    }
}

} // verus!
