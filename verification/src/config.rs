//! Run configuration: directories, citation settings, image settings and
//! cache settings, together with their defaults and the override of
//! reference-manager credentials from the environment.

use vstd::prelude::*;

verus! {

/// Reference-manager API credentials and scope.
#[derive(Debug)]
pub struct ZoteroSettings {
    /// API key; may be overridden by the environment.
    pub api_key: Option<String>,
    /// User identifier; may be overridden by the environment.
    pub user_id: Option<String>,
    /// Optional collection to restrict the fetch to.
    pub collection_key: Option<String>,
}

/// Citation resolution settings.
#[derive(Debug)]
pub struct CitationSettings {
    /// Citation style name, e.g. `apa-6th-edition.csl`.
    pub style: String,
    /// Language code for citations, e.g. `en-US`.
    pub language_code: String,
    /// Path of a local bibliography file, if one is used.
    pub bibliography_path: Option<String>,
    /// Remote reference-manager settings, if those are used instead.
    pub zotero: Option<ZoteroSettings>,
}

/// Image processing settings.
#[derive(Debug)]
pub struct ImageSettings {
    pub cover_width: u32,
    pub cover_height: u32,
    pub thumbnail_width: u32,
    pub thumbnail_height: u32,
    /// Name of the resize filter.
    pub filter_type: String,
}

/// Remote-resource cache settings.
#[derive(Debug)]
pub struct CacheSettings {
    /// Cache root directory.
    pub directory: String,
    /// Whether caching is enabled at all.
    pub enabled: bool,
}

/// The whole run configuration.
#[derive(Debug)]
pub struct Config {
    /// Input directory holding the source documents.
    pub content_dir: String,
    /// Output directory for the per-document artifacts and the index.
    pub output_dir: String,
    /// Public directory for processed images.
    pub public_dir: String,
    pub citations: CitationSettings,
    pub images: ImageSettings,
    pub cache: CacheSettings,
}

/// Default input directory.
pub fn default_content_dir() -> (r: String)
    ensures
        r@ == "../content"@,
{
    "../content".to_owned()
}

/// Default output directory.
pub fn default_output_dir() -> (r: String)
    ensures
        r@ == "../src/assets/content"@,
{
    "../src/assets/content".to_owned()
}

/// Default public directory.
pub fn default_public_dir() -> (r: String)
    ensures
        r@ == "../public"@,
{
    "../public".to_owned()
}

/// Default citation style name.
pub fn default_citation_style() -> (r: String)
    ensures
        r@ == "apa-6th-edition.csl"@,
{
    "apa-6th-edition.csl".to_owned()
}

/// Default citation language code.
pub fn default_language_code() -> (r: String)
    ensures
        r@ == "en-US"@,
{
    "en-US".to_owned()
}

/// Default cover image width in pixels.
pub fn default_cover_width() -> (r: u32)
    ensures
        r == 1200,
{
    1200
}

/// Default cover image height in pixels.
pub fn default_cover_height() -> (r: u32)
    ensures
        r == 800,
{
    800
}

/// Default thumbnail width in pixels.
pub fn default_thumb_width() -> (r: u32)
    ensures
        r == 400,
{
    400
}

/// Default thumbnail height in pixels.
pub fn default_thumb_height() -> (r: u32)
    ensures
        r == 267,
{
    267
}

/// Default resize filter name.
pub fn default_filter_type() -> (r: String)
    ensures
        r@ == "Lanczos3"@,
{
    "Lanczos3".to_owned()
}

/// Default cache root directory.
pub fn default_cache_dir() -> (r: String)
    ensures
        r@ == ".cache"@,
{
    ".cache".to_owned()
}

/// Caching is enabled by default.
pub fn default_cache_enabled() -> (r: bool)
    ensures
        r == true,
{
    true
}

impl Default for CitationSettings {
    /// The default citation settings: the default style and language,
    /// no bibliography file and no reference-manager credentials.
    fn default() -> (r: CitationSettings)
        ensures
            r.style@ == "apa-6th-edition.csl"@,
            r.language_code@ == "en-US"@,
            r.bibliography_path is None,
            r.zotero is None,
    {
        CitationSettings {
            style: default_citation_style(),
            language_code: default_language_code(),
            bibliography_path: None,
            zotero: None,
        }
    }
}

impl Default for ImageSettings {
    /// The default image settings.
    fn default() -> (r: ImageSettings)
        ensures
            r.cover_width == 1200,
            r.cover_height == 800,
            r.thumbnail_width == 400,
            r.thumbnail_height == 267,
            r.filter_type@ == "Lanczos3"@,
    {
        ImageSettings {
            cover_width: default_cover_width(),
            cover_height: default_cover_height(),
            thumbnail_width: default_thumb_width(),
            thumbnail_height: default_thumb_height(),
            filter_type: default_filter_type(),
        }
    }
}

impl Default for CacheSettings {
    /// The default cache settings: caching on, under `.cache`.
    fn default() -> (r: CacheSettings)
        ensures
            r.directory@ == ".cache"@,
            r.enabled == true,
    {
        CacheSettings { directory: default_cache_dir(), enabled: default_cache_enabled() }
    }
}

impl Default for Config {
    /// The default configuration.
    fn default() -> (r: Config)
        ensures
            r.content_dir@ == "../content"@,
            r.output_dir@ == "../src/assets/content"@,
            r.public_dir@ == "../public"@,
            r.citations.style@ == "apa-6th-edition.csl"@,
            r.citations.language_code@ == "en-US"@,
            r.citations.bibliography_path is None,
            r.citations.zotero is None,
            r.images.cover_width == 1200,
            r.images.cover_height == 800,
            r.images.thumbnail_width == 400,
            r.images.thumbnail_height == 267,
            r.images.filter_type@ == "Lanczos3"@,
            r.cache.directory@ == ".cache"@,
            r.cache.enabled == true,
    {
        Config {
            content_dir: default_content_dir(),
            output_dir: default_output_dir(),
            public_dir: default_public_dir(),
            citations: CitationSettings::default(),
            images: ImageSettings::default(),
            cache: CacheSettings::default(),
        }
    }
}

impl Config {
    /// The reference-manager credentials as a tuple, when both the key
    /// and the user identifier are configured.
    pub fn get_zotero_config(&self) -> (r: Option<(String, String, Option<String>)>)
        ensures
            match &self.citations.zotero {
                Some(z) => match (&z.api_key, &z.user_id) {
                    (Some(k), Some(u)) => match r {
                        Some(t) => t.0@ == k@ && t.1@ == u@ && t.2 == z.collection_key,
                        None => false,
                    },
                    _ => r is None,
                },
                None => r is None,
            },
    {
        match &self.citations.zotero {
            Some(z) => match (&z.api_key, &z.user_id) {
                (Some(k), Some(u)) => Some((k.clone(), u.clone(), z.collection_key.clone())),
                _ => None,
            },
            None => None,
        }
    }
}

/// Merge reference-manager settings with environment overrides: an
/// environment value replaces the configured one field by field; with no
/// configured settings at all, complete environment credentials (key and
/// user) create them.
pub fn merge_zotero_env(
    zotero: Option<ZoteroSettings>,
    env_api_key: Option<String>,
    env_user_id: Option<String>,
    env_collection: Option<String>,
) -> (r: Option<ZoteroSettings>)
    ensures
        match zotero {
            Some(z) => {
                &&& r is Some
                &&& r->0.api_key == if env_api_key is Some {
                    env_api_key
                } else {
                    z.api_key
                }
                &&& r->0.user_id == if env_user_id is Some {
                    env_user_id
                } else {
                    z.user_id
                }
                &&& r->0.collection_key == if env_collection is Some {
                    env_collection
                } else {
                    z.collection_key
                }
            },
            None => {
                if env_api_key is Some && env_user_id is Some {
                    &&& r is Some
                    &&& r->0.api_key == env_api_key
                    &&& r->0.user_id == env_user_id
                    &&& r->0.collection_key == env_collection
                } else {
                    r is None
                }
            },
        },
{
    match zotero {
        Some(z) => {
            let api_key = match env_api_key {
                Some(k) => Some(k),
                None => z.api_key,
            };
            let user_id = match env_user_id {
                Some(u) => Some(u),
                None => z.user_id,
            };
            let collection_key = match env_collection {
                Some(c) => Some(c),
                None => z.collection_key,
            };
            Some(ZoteroSettings { api_key, user_id, collection_key })
        },
        None => {
            if env_api_key.is_some() && env_user_id.is_some() {
                Some(ZoteroSettings {
                    api_key: env_api_key,
                    user_id: env_user_id,
                    collection_key: env_collection,
                })
            } else {
                None
            }
        },
    }
}

} // verus!
