use vstd::prelude::*;

verus! {

/// Attributes of a catalog storefront.
pub struct StorefrontAttributes {
    pub supported_language_tags: Vec<String>,
    pub explicit_content_policy: String,
    pub name: String,
    pub default_language_tag: String,
}

pub struct Storefront {
    pub id: String,
    pub data_type: String,
    pub href: String,
    pub attributes: StorefrontAttributes,
}

pub struct Storefronts {
    pub data: Vec<Storefront>,
}

/// The display name and artist name of a song or album.
pub struct SimpleCatlogAttributes {
    pub name: String,
    pub artist_name: String,
}

/// The timed-text markup of one lyrics entry.
pub struct SimpleLyricsAttribute {
    pub ttml: String,
}

pub struct SimpleLyricsData {
    pub attributes: SimpleLyricsAttribute,
}

pub struct SimpleLyrics {
    pub data: Vec<SimpleLyricsData>,
}

/// Line-level and syllable-level lyrics of a track.
pub struct SimpleRelationships {
    pub lyrics: SimpleLyrics,
    pub syllable_lyrics: SimpleLyrics,
}

impl SimpleRelationships {
    /// The syllable-level lyrics when `syllable` holds, else the line-level ones.
    pub fn get_lyrics(&self, syllable: bool) -> (r: &SimpleLyrics)
        ensures
            syllable ==> r == &self.syllable_lyrics,
            !syllable ==> r == &self.lyrics,
    {
        if syllable {
            &self.syllable_lyrics
        } else {
            &self.lyrics
        }
    }
}

pub struct SimpleAlbumTrack {
    pub attributes: SimpleCatlogAttributes,
    pub relationships: SimpleRelationships,
}

pub struct SimpleAlbumTracks {
    pub data: Vec<SimpleAlbumTrack>,
}

pub struct SimpleAlbumRelationships {
    pub tracks: SimpleAlbumTracks,
}

pub struct AlbumCatlogData {
    pub id: String,
    pub data_type: String,
    pub href: String,
    pub attributes: SimpleCatlogAttributes,
    pub relationships: SimpleAlbumRelationships,
}

pub struct AlbumCatlogs {
    pub data: Vec<AlbumCatlogData>,
}

pub struct SongCatlogData {
    pub id: String,
    pub data_type: String,
    pub href: String,
    pub attributes: SimpleCatlogAttributes,
    pub relationships: SimpleRelationships,
}

pub struct SongCatlogs {
    pub data: Vec<SongCatlogData>,
}

} // verus!
