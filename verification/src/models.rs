//! Data model: raw catalog records, canonical assets, request and response
//! shapes, and their mathematical views.

use vstd::prelude::*;

verus! {

/// One image variant offered by the catalog for an emote.
#[derive(Debug, PartialEq)]
pub struct Image {
    pub url: String,
    pub mime: String,
    pub size: i32,
    pub scale: i32,
    pub width: i32,
    pub frame_count: i32,
}

/// Mathematical view of an [`Image`].
pub struct ImageV {
    pub url: Seq<char>,
    pub mime: Seq<char>,
    pub size: int,
    pub scale: int,
    pub width: int,
    pub frame_count: int,
}

impl DeepView for Image {
    type V = ImageV;

    open spec fn deep_view(&self) -> ImageV {
        self.view()
    }
}

impl View for Image {
    type V = ImageV;

    open spec fn view(&self) -> ImageV {
        ImageV {
            url: self.url@,
            mime: self.mime@,
            size: self.size as int,
            scale: self.scale as int,
            width: self.width as int,
            frame_count: self.frame_count as int,
        }
    }
}

/// The platform-level display name of an emote's owner.
#[derive(Debug, PartialEq)]
pub struct MainConnection {
    pub platform_display_name: String,
}

impl View for MainConnection {
    type V = Seq<char>;

    open spec fn view(&self) -> Seq<char> {
        self.platform_display_name@
    }
}

/// The owner of an emote, when the catalog reports one.
#[derive(Debug, PartialEq)]
pub struct Owner {
    pub main_connection: Option<MainConnection>,
}

impl View for Owner {
    type V = Option<Seq<char>>;

    open spec fn view(&self) -> Option<Seq<char>> {
        match self.main_connection {
            Some(ref c) => Some(c@),
            None => None,
        }
    }
}

/// One named file of the derived (host + files) image shape.
#[derive(Debug, PartialEq)]
pub struct TrendingFile {
    pub name: String,
    pub format: String,
    pub width: i32,
    pub height: i32,
}

/// Mathematical view of a [`TrendingFile`].
pub struct TrendingFileV {
    pub name: Seq<char>,
    pub format: Seq<char>,
    pub width: int,
    pub height: int,
}

impl DeepView for TrendingFile {
    type V = TrendingFileV;

    open spec fn deep_view(&self) -> TrendingFileV {
        self.view()
    }
}

impl View for TrendingFile {
    type V = TrendingFileV;

    open spec fn view(&self) -> TrendingFileV {
        TrendingFileV {
            name: self.name@,
            format: self.format@,
            width: self.width as int,
            height: self.height as int,
        }
    }
}

/// The derived image shape: a base host URL plus named files whose scale and
/// MIME type must be inferred from filename conventions.
#[derive(Debug, PartialEq)]
pub struct TrendingHost {
    pub url: String,
    pub files: Vec<TrendingFile>,
}

/// Mathematical view of a [`TrendingHost`].
pub struct TrendingHostV {
    pub url: Seq<char>,
    pub files: Seq<TrendingFileV>,
}

impl View for TrendingHost {
    type V = TrendingHostV;

    open spec fn view(&self) -> TrendingHostV {
        TrendingHostV { url: self.url@, files: self.files.deep_view() }
    }
}

/// A raw emote record as returned by the catalog service. Ephemeral: it
/// exists only for the one request that fetched it.
#[derive(Debug, PartialEq)]
pub struct Emote {
    pub id: String,
    pub default_name: Option<String>,
    pub name: Option<String>,
    pub owner: Option<Owner>,
    pub images: Option<Vec<Image>>,
    pub host: Option<TrendingHost>,
    pub animated: Option<bool>,
}

/// Mathematical view of an [`Emote`].
pub struct EmoteV {
    pub id: Seq<char>,
    pub default_name: Option<Seq<char>>,
    pub name: Option<Seq<char>>,
    pub owner: Option<Option<Seq<char>>>,
    pub images: Option<Seq<ImageV>>,
    pub host: Option<TrendingHostV>,
    pub animated: Option<bool>,
}

impl DeepView for Emote {
    type V = EmoteV;

    open spec fn deep_view(&self) -> EmoteV {
        self.view()
    }
}

impl View for Emote {
    type V = EmoteV;

    open spec fn view(&self) -> EmoteV {
        EmoteV {
            id: self.id@,
            default_name: match self.default_name {
                Some(ref s) => Some(s@),
                None => None,
            },
            name: match self.name {
                Some(ref s) => Some(s@),
                None => None,
            },
            owner: match self.owner {
                Some(ref o) => Some(o@),
                None => None,
            },
            images: match self.images {
                Some(ref v) => Some(v.deep_view()),
                None => None,
            },
            host: match self.host {
                Some(ref h) => Some(h@),
                None => None,
            },
            animated: self.animated,
        }
    }
}

/// The canonical persisted record produced per source emote.
#[derive(Debug, PartialEq)]
pub struct EmoteResponse {
    pub file_name: String,
    pub url: String,
    pub emote_id: String,
    pub emote_name: String,
    pub owner: Option<String>,
    pub animated: Option<bool>,
    pub scale: Option<i32>,
    pub mime: Option<String>,
}

/// Mathematical view of an [`EmoteResponse`].
pub struct EmoteResponseV {
    pub file_name: Seq<char>,
    pub url: Seq<char>,
    pub emote_id: Seq<char>,
    pub emote_name: Seq<char>,
    pub owner: Option<Seq<char>>,
    pub animated: Option<bool>,
    pub scale: Option<int>,
    pub mime: Option<Seq<char>>,
}

impl DeepView for EmoteResponse {
    type V = EmoteResponseV;

    open spec fn deep_view(&self) -> EmoteResponseV {
        self.view()
    }
}

impl View for EmoteResponse {
    type V = EmoteResponseV;

    open spec fn view(&self) -> EmoteResponseV {
        EmoteResponseV {
            file_name: self.file_name@,
            url: self.url@,
            emote_id: self.emote_id@,
            emote_name: self.emote_name@,
            owner: match self.owner {
                Some(ref s) => Some(s@),
                None => None,
            },
            animated: self.animated,
            scale: match self.scale {
                Some(s) => Some(s as int),
                None => None,
            },
            mime: match self.mime {
                Some(ref s) => Some(s@),
                None => None,
            },
        }
    }
}

/// The result envelope returned by every read and sync operation.
#[derive(Debug, PartialEq)]
pub struct SearchResponse {
    pub success: bool,
    pub total_found: i32,
    pub emotes: Vec<EmoteResponse>,
    pub message: Option<String>,
    pub cached: Option<bool>,
    pub page: Option<i32>,
    pub total_pages: Option<i32>,
    pub results_per_page: Option<i32>,
    pub has_next_page: Option<bool>,
}

/// Mathematical view of a [`SearchResponse`].
pub struct SearchResponseV {
    pub success: bool,
    pub total_found: int,
    pub emotes: Seq<EmoteResponseV>,
    pub message: Option<Seq<char>>,
    pub cached: Option<bool>,
    pub page: Option<int>,
    pub total_pages: Option<int>,
    pub results_per_page: Option<int>,
    pub has_next_page: Option<bool>,
}

impl View for SearchResponse {
    type V = SearchResponseV;

    open spec fn view(&self) -> SearchResponseV {
        SearchResponseV {
            success: self.success,
            total_found: self.total_found as int,
            emotes: self.emotes.deep_view(),
            message: match self.message {
                Some(ref s) => Some(s@),
                None => None,
            },
            cached: self.cached,
            page: match self.page {
                Some(p) => Some(p as int),
                None => None,
            },
            total_pages: match self.total_pages {
                Some(p) => Some(p as int),
                None => None,
            },
            results_per_page: match self.results_per_page {
                Some(p) => Some(p as int),
                None => None,
            },
            has_next_page: self.has_next_page,
        }
    }
}

/// A free-text search request against the catalog.
pub struct SearchRequest {
    pub query: String,
    pub limit: Option<i32>,
    pub animated_only: Option<bool>,
    pub page: Option<i32>,
}

/// The period over which trending emotes are ranked.
#[derive(Clone, Copy, PartialEq, Eq, Structural)]
pub enum TrendingPeriod {
    Daily,
    Weekly,
    Monthly,
    AllTime,
}

impl Default for TrendingPeriod {
    /// The period assumed when none is named.
    fn default() -> (r: TrendingPeriod)
        ensures
            r == TrendingPeriod::Weekly,
    {
        TrendingPeriod::Weekly
    }
}

/// A request to destructively rebuild one trending folder.
pub struct SyncTrendingRequest {
    pub period: Option<String>,
    pub animated_only: Option<bool>,
    pub limit: Option<i32>,
}

/// A request to destructively rebuild one user folder.
pub struct SyncUserEmotesRequest {
    pub user_id: String,
    pub limit: Option<i32>,
    pub folder_name: String,
}

/// A read of a previously synced user folder.
pub struct SavedUserEmotesQuery {
    pub folder_name: String,
    pub limit: Option<i32>,
}

/// Process configuration, handed in by the surrounding application.
pub struct Config {
    pub port: String,
    pub redis_host: String,
    pub redis_port: String,
    pub redis_password: String,
    pub redis_db: i32,
    pub redis_url: String,
    pub azure_conn_str: String,
    pub container_name: String,
    pub cache_ttl: u64,
    pub trending_cache_ttl: u64,
    pub api_title: String,
    pub api_description: String,
    pub api_version: String,
    pub database_url: String,
}

} // verus!
