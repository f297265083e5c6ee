use vstd::prelude::*;
use vstd::string::*;
use crate::text::{decimal_spec, find_str, occurs_at, push_decimal, push_str, str_equal, trim, trim_spec};
use crate::timestamps::{is_fixable_spinitron_timestamp, parse_spinitron_timestamp, rfc3339_instant, spinitron_timestamp_fixup, utc_now_nanos};
use crate::error_state::hash_obj;
use crate::api_history_list::{ApiHistoryList, is_missing_position, retained_entry, is_first_position};

verus! {

/// The Spinitron API key, read from its file and trimmed.
#[derive(Clone, Debug)]
pub struct ApiKey {
    key: String,
}

impl View for ApiKey {
    type V = Seq<char>;

    closed spec fn view(&self) -> Seq<char> {
        self.key@
    }
}

impl ApiKey {
    /// The key that a key file holds: its contents without surrounding whitespace.
    pub fn new(file_contents: &str) -> (res: ApiKey)
        ensures
            res@ == trim_spec(file_contents@),
    {
        ApiKey { key: trim(file_contents) }
    }

    pub fn get_inner_key(&self) -> (res: String)
        ensures
            res@ == self@,
    {
        self.key.clone()
    }
}

/// The number of kinds of Spinitron models.
pub const NUM_SPINITRON_MODEL_TYPES: usize = 4;

/// The kinds of Spinitron models.
#[derive(Copy, Clone, Debug, PartialEq, Eq, Structural)]
pub enum SpinitronModelName {
    Spin,
    Playlist,
    Persona,
    Show,
}

impl SpinitronModelName {
    /// The position of the kind among the per-kind settings (`Spin` first, `Show` last).
    pub open spec fn index_spec(self) -> nat {
        match self {
            SpinitronModelName::Spin => 0,
            SpinitronModelName::Playlist => 1,
            SpinitronModelName::Persona => 2,
            SpinitronModelName::Show => 3,
        }
    }

    pub fn index(&self) -> (res: usize)
        ensures
            res == self.index_spec(),
            res < NUM_SPINITRON_MODEL_TYPES,
    {
        match self {
            SpinitronModelName::Spin => 0,
            SpinitronModelName::Playlist => 1,
            SpinitronModelName::Persona => 2,
            SpinitronModelName::Show => 3,
        }
    }
}

/// Where the current time stands relative to a model's time range.
#[derive(Copy, Clone, Debug, PartialEq, Eq, Structural)]
pub enum ModelAgeState {
    BeforeIt,
    CurrentlyActive,
    AfterIt,
    AfterItFromCustomExpiryDuration,
}

//////////

/// A song played on air (times in nanoseconds since the Unix epoch).
#[derive(Clone, Debug)]
pub struct Spin {
    pub id: u32,
    pub start: i64,
    pub end: Option<i64>,
    pub artist: String,
    pub song: String,
    pub release: String,
    /// If there is no image, this is `None` or empty.
    pub image: Option<String>,
}

/// A show's playlist (times in nanoseconds since the Unix epoch).
#[derive(Clone, Debug)]
pub struct Playlist {
    pub id: u32,
    pub persona_id: u32,
    pub start: i64,
    pub end: i64,
    pub title: String,
    pub image: Option<String>,
    pub category: Option<String>,
    /// 1 for an automation playlist.
    pub automation: Option<u32>,
}

/// A DJ. The times are those of the playlist it was fetched for.
#[derive(Clone, Debug)]
pub struct Persona {
    pub id: u32,
    pub name: String,
    pub image: Option<String>,
    pub start_from_associated_playlist: i64,
    pub end_from_associated_playlist: i64,
}

/// A scheduled show (times in nanoseconds since the Unix epoch).
#[derive(Clone, Debug)]
pub struct Show {
    pub id: u32,
    pub start: i64,
    pub end: i64,
}

/// What every Spinitron model offers: its id, its time range, and its text for each age state.
pub trait SpinitronModel {
    spec fn id_spec(&self) -> u32;

    spec fn time_range_spec(&self) -> (i64, Option<i64>);

    spec fn text_spec(&self, age_state: ModelAgeState) -> Seq<char>;

    spec fn texture_spec(&self, age_state: ModelAgeState, size: (u32, u32)) -> (TextureSourceKind, Seq<char>);

    fn get_id(&self) -> (res: u32)
        ensures
            res == self.id_spec(),
    ;

    fn get_time_range(&self) -> (res: (i64, Option<i64>))
        ensures
            res == self.time_range_spec(),
    ;

    fn to_string(&self, age_state: ModelAgeState) -> (res: String)
        ensures
            res@ == self.text_spec(age_state),
    ;

    /// Where the model's texture comes from, for a texture of the given size.
    fn get_texture_creation_info(&self, age_state: ModelAgeState, size: (u32, u32)) -> (res: ModelTextureCreationInfo)
        ensures
            texture_source(res) == self.texture_spec(age_state, size),
    ;
}

/// A Spinitron model that is fetched on its own, and knows its kind.
pub trait SpinitronModelWithProps: SpinitronModel {
    spec fn name_spec() -> SpinitronModelName;

    fn model_name() -> (res: SpinitronModelName)
        ensures
            res == Self::name_spec(),
    ;
}

/// The emojis shown around a playlist of the given category, if the category is known.
pub open spec fn category_emojis_spec(category: Seq<char>) -> Option<Seq<char>> {
    if category == "Automation"@ {
        Some("🤖"@)
    } else if category == "Ambient"@ {
        Some("🌌"@)
    } else if category == "Blues"@ {
        Some("🎺"@)
    } else if category == "Classical"@ {
        Some("🎼🎻"@)
    } else if category == "Country"@ {
        Some("🤠👢"@)
    } else if category == "Dance"@ {
        Some("🕺🪩💃"@)
    } else if category == "Electronic"@ {
        Some("⚡"@)
    } else if category == "Experimental"@ {
        Some("🌀"@)
    } else if category == "Folk"@ {
        Some("🪕"@)
    } else if category == "Hip-Hop"@ {
        Some("📾"@)
    } else if category == "Jazz"@ {
        Some("🎷"@)
    } else if category == "Metal"@ {
        Some("🤘👹"@)
    } else if category == "Music"@ {
        Some("🎵"@)
    } else if category == "News"@ {
        Some("📰"@)
    } else if category == "Pop"@ {
        Some("🎤"@)
    } else if category == "Punk"@ {
        Some("🤘🔥"@)
    } else if category == "RnB"@ {
        Some("﹏🎺﹏"@)
    } else if category == "Regional"@ {
        Some("🗺️"@)
    } else if category == "Rock"@ {
        Some("🎸"@)
    } else if category == "Talk"@ {
        Some("🗣️"@)
    } else {
        None
    }
}

/// The Spinitron show categories that get emojis, each with its own (for example, a jazz
/// show gets 🎷); every other category gets none.
pub proof fn law_category_emojis_follow_the_show_categories()
    ensures
        category_emojis_spec("Automation"@) == Some("🤖"@),
        category_emojis_spec("Ambient"@) == Some("🌌"@),
        category_emojis_spec("Blues"@) == Some("🎺"@),
        category_emojis_spec("Classical"@) == Some("🎼🎻"@),
        category_emojis_spec("Country"@) == Some("🤠👢"@),
        category_emojis_spec("Dance"@) == Some("🕺🪩💃"@),
        category_emojis_spec("Electronic"@) == Some("⚡"@),
        category_emojis_spec("Experimental"@) == Some("🌀"@),
        category_emojis_spec("Folk"@) == Some("🪕"@),
        category_emojis_spec("Hip-Hop"@) == Some("📾"@),
        category_emojis_spec("Jazz"@) == Some("🎷"@),
        category_emojis_spec("Metal"@) == Some("🤘👹"@),
        category_emojis_spec("Music"@) == Some("🎵"@),
        category_emojis_spec("News"@) == Some("📰"@),
        category_emojis_spec("Pop"@) == Some("🎤"@),
        category_emojis_spec("Punk"@) == Some("🤘🔥"@),
        category_emojis_spec("RnB"@) == Some("﹏🎺﹏"@),
        category_emojis_spec("Regional"@) == Some("🗺️"@),
        category_emojis_spec("Rock"@) == Some("🎸"@),
        category_emojis_spec("Talk"@) == Some("🗣️"@),
        forall|c: Seq<char>| #[trigger] category_emojis_spec(c) is Some ==> (c == "Automation"@ || c == "Ambient"@ || c == "Blues"@ || c == "Classical"@ || c == "Country"@ || c == "Dance"@ || c == "Electronic"@ || c == "Experimental"@ || c == "Folk"@ || c == "Hip-Hop"@ || c == "Jazz"@ || c == "Metal"@ || c == "Music"@ || c == "News"@ || c == "Pop"@ || c == "Punk"@ || c == "RnB"@ || c == "Regional"@ || c == "Rock"@ || c == "Talk"@),
{
    reveal_strlit("Automation");
    reveal_strlit("Ambient");
    reveal_strlit("Blues");
    reveal_strlit("Classical");
    reveal_strlit("Country");
    reveal_strlit("Dance");
    reveal_strlit("Electronic");
    reveal_strlit("Experimental");
    reveal_strlit("Folk");
    reveal_strlit("Hip-Hop");
    reveal_strlit("Jazz");
    reveal_strlit("Metal");
    reveal_strlit("Music");
    reveal_strlit("News");
    reveal_strlit("Pop");
    reveal_strlit("Punk");
    reveal_strlit("RnB");
    reveal_strlit("Regional");
    reveal_strlit("Rock");
    reveal_strlit("Talk");
    assert("Ambient"@.len() != "Automation"@.len());
    assert("Blues"@.len() != "Automation"@.len());
    assert("Blues"@.len() != "Ambient"@.len());
    assert("Classical"@.len() != "Automation"@.len());
    assert("Classical"@.len() != "Ambient"@.len());
    assert("Classical"@.len() != "Blues"@.len());
    assert("Country"@.len() != "Automation"@.len());
    assert("Country"@[0] != "Ambient"@[0]);
    assert("Country"@.len() != "Blues"@.len());
    assert("Country"@.len() != "Classical"@.len());
    assert("Dance"@.len() != "Automation"@.len());
    assert("Dance"@.len() != "Ambient"@.len());
    assert("Dance"@[0] != "Blues"@[0]);
    assert("Dance"@.len() != "Classical"@.len());
    assert("Dance"@.len() != "Country"@.len());
    assert("Electronic"@[0] != "Automation"@[0]);
    assert("Electronic"@.len() != "Ambient"@.len());
    assert("Electronic"@.len() != "Blues"@.len());
    assert("Electronic"@.len() != "Classical"@.len());
    assert("Electronic"@.len() != "Country"@.len());
    assert("Electronic"@.len() != "Dance"@.len());
    assert("Experimental"@.len() != "Automation"@.len());
    assert("Experimental"@.len() != "Ambient"@.len());
    assert("Experimental"@.len() != "Blues"@.len());
    assert("Experimental"@.len() != "Classical"@.len());
    assert("Experimental"@.len() != "Country"@.len());
    assert("Experimental"@.len() != "Dance"@.len());
    assert("Experimental"@.len() != "Electronic"@.len());
    assert("Folk"@.len() != "Automation"@.len());
    assert("Folk"@.len() != "Ambient"@.len());
    assert("Folk"@.len() != "Blues"@.len());
    assert("Folk"@.len() != "Classical"@.len());
    assert("Folk"@.len() != "Country"@.len());
    assert("Folk"@.len() != "Dance"@.len());
    assert("Folk"@.len() != "Electronic"@.len());
    assert("Folk"@.len() != "Experimental"@.len());
    assert("Hip-Hop"@.len() != "Automation"@.len());
    assert("Hip-Hop"@[0] != "Ambient"@[0]);
    assert("Hip-Hop"@.len() != "Blues"@.len());
    assert("Hip-Hop"@.len() != "Classical"@.len());
    assert("Hip-Hop"@[0] != "Country"@[0]);
    assert("Hip-Hop"@.len() != "Dance"@.len());
    assert("Hip-Hop"@.len() != "Electronic"@.len());
    assert("Hip-Hop"@.len() != "Experimental"@.len());
    assert("Hip-Hop"@.len() != "Folk"@.len());
    assert("Jazz"@.len() != "Automation"@.len());
    assert("Jazz"@.len() != "Ambient"@.len());
    assert("Jazz"@.len() != "Blues"@.len());
    assert("Jazz"@.len() != "Classical"@.len());
    assert("Jazz"@.len() != "Country"@.len());
    assert("Jazz"@.len() != "Dance"@.len());
    assert("Jazz"@.len() != "Electronic"@.len());
    assert("Jazz"@.len() != "Experimental"@.len());
    assert("Jazz"@[0] != "Folk"@[0]);
    assert("Jazz"@.len() != "Hip-Hop"@.len());
    assert("Metal"@.len() != "Automation"@.len());
    assert("Metal"@.len() != "Ambient"@.len());
    assert("Metal"@[0] != "Blues"@[0]);
    assert("Metal"@.len() != "Classical"@.len());
    assert("Metal"@.len() != "Country"@.len());
    assert("Metal"@[0] != "Dance"@[0]);
    assert("Metal"@.len() != "Electronic"@.len());
    assert("Metal"@.len() != "Experimental"@.len());
    assert("Metal"@.len() != "Folk"@.len());
    assert("Metal"@.len() != "Hip-Hop"@.len());
    assert("Metal"@.len() != "Jazz"@.len());
    assert("Music"@.len() != "Automation"@.len());
    assert("Music"@.len() != "Ambient"@.len());
    assert("Music"@[0] != "Blues"@[0]);
    assert("Music"@.len() != "Classical"@.len());
    assert("Music"@.len() != "Country"@.len());
    assert("Music"@[0] != "Dance"@[0]);
    assert("Music"@.len() != "Electronic"@.len());
    assert("Music"@.len() != "Experimental"@.len());
    assert("Music"@.len() != "Folk"@.len());
    assert("Music"@.len() != "Hip-Hop"@.len());
    assert("Music"@.len() != "Jazz"@.len());
    assert("Music"@[1] != "Metal"@[1]);
    assert("News"@.len() != "Automation"@.len());
    assert("News"@.len() != "Ambient"@.len());
    assert("News"@.len() != "Blues"@.len());
    assert("News"@.len() != "Classical"@.len());
    assert("News"@.len() != "Country"@.len());
    assert("News"@.len() != "Dance"@.len());
    assert("News"@.len() != "Electronic"@.len());
    assert("News"@.len() != "Experimental"@.len());
    assert("News"@[0] != "Folk"@[0]);
    assert("News"@.len() != "Hip-Hop"@.len());
    assert("News"@[0] != "Jazz"@[0]);
    assert("News"@.len() != "Metal"@.len());
    assert("News"@.len() != "Music"@.len());
    assert("Pop"@.len() != "Automation"@.len());
    assert("Pop"@.len() != "Ambient"@.len());
    assert("Pop"@.len() != "Blues"@.len());
    assert("Pop"@.len() != "Classical"@.len());
    assert("Pop"@.len() != "Country"@.len());
    assert("Pop"@.len() != "Dance"@.len());
    assert("Pop"@.len() != "Electronic"@.len());
    assert("Pop"@.len() != "Experimental"@.len());
    assert("Pop"@.len() != "Folk"@.len());
    assert("Pop"@.len() != "Hip-Hop"@.len());
    assert("Pop"@.len() != "Jazz"@.len());
    assert("Pop"@.len() != "Metal"@.len());
    assert("Pop"@.len() != "Music"@.len());
    assert("Pop"@.len() != "News"@.len());
    assert("Punk"@.len() != "Automation"@.len());
    assert("Punk"@.len() != "Ambient"@.len());
    assert("Punk"@.len() != "Blues"@.len());
    assert("Punk"@.len() != "Classical"@.len());
    assert("Punk"@.len() != "Country"@.len());
    assert("Punk"@.len() != "Dance"@.len());
    assert("Punk"@.len() != "Electronic"@.len());
    assert("Punk"@.len() != "Experimental"@.len());
    assert("Punk"@[0] != "Folk"@[0]);
    assert("Punk"@.len() != "Hip-Hop"@.len());
    assert("Punk"@[0] != "Jazz"@[0]);
    assert("Punk"@.len() != "Metal"@.len());
    assert("Punk"@.len() != "Music"@.len());
    assert("Punk"@[0] != "News"@[0]);
    assert("Punk"@.len() != "Pop"@.len());
    assert("RnB"@.len() != "Automation"@.len());
    assert("RnB"@.len() != "Ambient"@.len());
    assert("RnB"@.len() != "Blues"@.len());
    assert("RnB"@.len() != "Classical"@.len());
    assert("RnB"@.len() != "Country"@.len());
    assert("RnB"@.len() != "Dance"@.len());
    assert("RnB"@.len() != "Electronic"@.len());
    assert("RnB"@.len() != "Experimental"@.len());
    assert("RnB"@.len() != "Folk"@.len());
    assert("RnB"@.len() != "Hip-Hop"@.len());
    assert("RnB"@.len() != "Jazz"@.len());
    assert("RnB"@.len() != "Metal"@.len());
    assert("RnB"@.len() != "Music"@.len());
    assert("RnB"@.len() != "News"@.len());
    assert("RnB"@[0] != "Pop"@[0]);
    assert("RnB"@.len() != "Punk"@.len());
    assert("Regional"@.len() != "Automation"@.len());
    assert("Regional"@.len() != "Ambient"@.len());
    assert("Regional"@.len() != "Blues"@.len());
    assert("Regional"@.len() != "Classical"@.len());
    assert("Regional"@.len() != "Country"@.len());
    assert("Regional"@.len() != "Dance"@.len());
    assert("Regional"@.len() != "Electronic"@.len());
    assert("Regional"@.len() != "Experimental"@.len());
    assert("Regional"@.len() != "Folk"@.len());
    assert("Regional"@.len() != "Hip-Hop"@.len());
    assert("Regional"@.len() != "Jazz"@.len());
    assert("Regional"@.len() != "Metal"@.len());
    assert("Regional"@.len() != "Music"@.len());
    assert("Regional"@.len() != "News"@.len());
    assert("Regional"@.len() != "Pop"@.len());
    assert("Regional"@.len() != "Punk"@.len());
    assert("Regional"@.len() != "RnB"@.len());
    assert("Rock"@.len() != "Automation"@.len());
    assert("Rock"@.len() != "Ambient"@.len());
    assert("Rock"@.len() != "Blues"@.len());
    assert("Rock"@.len() != "Classical"@.len());
    assert("Rock"@.len() != "Country"@.len());
    assert("Rock"@.len() != "Dance"@.len());
    assert("Rock"@.len() != "Electronic"@.len());
    assert("Rock"@.len() != "Experimental"@.len());
    assert("Rock"@[0] != "Folk"@[0]);
    assert("Rock"@.len() != "Hip-Hop"@.len());
    assert("Rock"@[0] != "Jazz"@[0]);
    assert("Rock"@.len() != "Metal"@.len());
    assert("Rock"@.len() != "Music"@.len());
    assert("Rock"@[0] != "News"@[0]);
    assert("Rock"@.len() != "Pop"@.len());
    assert("Rock"@[0] != "Punk"@[0]);
    assert("Rock"@.len() != "RnB"@.len());
    assert("Rock"@.len() != "Regional"@.len());
    assert("Talk"@.len() != "Automation"@.len());
    assert("Talk"@.len() != "Ambient"@.len());
    assert("Talk"@.len() != "Blues"@.len());
    assert("Talk"@.len() != "Classical"@.len());
    assert("Talk"@.len() != "Country"@.len());
    assert("Talk"@.len() != "Dance"@.len());
    assert("Talk"@.len() != "Electronic"@.len());
    assert("Talk"@.len() != "Experimental"@.len());
    assert("Talk"@[0] != "Folk"@[0]);
    assert("Talk"@.len() != "Hip-Hop"@.len());
    assert("Talk"@[0] != "Jazz"@[0]);
    assert("Talk"@.len() != "Metal"@.len());
    assert("Talk"@.len() != "Music"@.len());
    assert("Talk"@[0] != "News"@[0]);
    assert("Talk"@.len() != "Pop"@.len());
    assert("Talk"@[0] != "Punk"@[0]);
    assert("Talk"@.len() != "RnB"@.len());
    assert("Talk"@.len() != "Regional"@.len());
    assert("Talk"@[0] != "Rock"@[0]);
}

/// No two show categories share their emojis.
pub proof fn law_show_categories_keep_their_own_emojis(c1: Seq<char>, c2: Seq<char>)
    requires
        category_emojis_spec(c1) is Some,
        category_emojis_spec(c2) is Some,
        c1 != c2,
    ensures
        category_emojis_spec(c1) != category_emojis_spec(c2),
{
    law_category_emojis_follow_the_show_categories();
    reveal_strlit("🤖");
    reveal_strlit("🌌");
    reveal_strlit("🎺");
    reveal_strlit("🎼🎻");
    reveal_strlit("🤠👢");
    reveal_strlit("🕺🪩💃");
    reveal_strlit("⚡");
    reveal_strlit("🌀");
    reveal_strlit("🪕");
    reveal_strlit("📾");
    reveal_strlit("🎷");
    reveal_strlit("🤘👹");
    reveal_strlit("🎵");
    reveal_strlit("📰");
    reveal_strlit("🎤");
    reveal_strlit("🤘🔥");
    reveal_strlit("﹏🎺﹏");
    reveal_strlit("🗺️");
    reveal_strlit("🎸");
    reveal_strlit("🗣️");
    assert("🌌"@[0] != "🤖"@[0]);
    assert("🎺"@[0] != "🤖"@[0]);
    assert("🎺"@[0] != "🌌"@[0]);
    assert("🎼🎻"@.len() != "🤖"@.len());
    assert("🎼🎻"@.len() != "🌌"@.len());
    assert("🎼🎻"@.len() != "🎺"@.len());
    assert("🤠👢"@.len() != "🤖"@.len());
    assert("🤠👢"@.len() != "🌌"@.len());
    assert("🤠👢"@.len() != "🎺"@.len());
    assert("🤠👢"@[0] != "🎼🎻"@[0]);
    assert("🕺🪩💃"@.len() != "🤖"@.len());
    assert("🕺🪩💃"@.len() != "🌌"@.len());
    assert("🕺🪩💃"@.len() != "🎺"@.len());
    assert("🕺🪩💃"@.len() != "🎼🎻"@.len());
    assert("🕺🪩💃"@.len() != "🤠👢"@.len());
    assert("⚡"@[0] != "🤖"@[0]);
    assert("⚡"@[0] != "🌌"@[0]);
    assert("⚡"@[0] != "🎺"@[0]);
    assert("⚡"@.len() != "🎼🎻"@.len());
    assert("⚡"@.len() != "🤠👢"@.len());
    assert("⚡"@.len() != "🕺🪩💃"@.len());
    assert("🌀"@[0] != "🤖"@[0]);
    assert("🌀"@[0] != "🌌"@[0]);
    assert("🌀"@[0] != "🎺"@[0]);
    assert("🌀"@.len() != "🎼🎻"@.len());
    assert("🌀"@.len() != "🤠👢"@.len());
    assert("🌀"@.len() != "🕺🪩💃"@.len());
    assert("🌀"@[0] != "⚡"@[0]);
    assert("🪕"@[0] != "🤖"@[0]);
    assert("🪕"@[0] != "🌌"@[0]);
    assert("🪕"@[0] != "🎺"@[0]);
    assert("🪕"@.len() != "🎼🎻"@.len());
    assert("🪕"@.len() != "🤠👢"@.len());
    assert("🪕"@.len() != "🕺🪩💃"@.len());
    assert("🪕"@[0] != "⚡"@[0]);
    assert("🪕"@[0] != "🌀"@[0]);
    assert("📾"@[0] != "🤖"@[0]);
    assert("📾"@[0] != "🌌"@[0]);
    assert("📾"@[0] != "🎺"@[0]);
    assert("📾"@.len() != "🎼🎻"@.len());
    assert("📾"@.len() != "🤠👢"@.len());
    assert("📾"@.len() != "🕺🪩💃"@.len());
    assert("📾"@[0] != "⚡"@[0]);
    assert("📾"@[0] != "🌀"@[0]);
    assert("📾"@[0] != "🪕"@[0]);
    assert("🎷"@[0] != "🤖"@[0]);
    assert("🎷"@[0] != "🌌"@[0]);
    assert("🎷"@[0] != "🎺"@[0]);
    assert("🎷"@.len() != "🎼🎻"@.len());
    assert("🎷"@.len() != "🤠👢"@.len());
    assert("🎷"@.len() != "🕺🪩💃"@.len());
    assert("🎷"@[0] != "⚡"@[0]);
    assert("🎷"@[0] != "🌀"@[0]);
    assert("🎷"@[0] != "🪕"@[0]);
    assert("🎷"@[0] != "📾"@[0]);
    assert("🤘👹"@.len() != "🤖"@.len());
    assert("🤘👹"@.len() != "🌌"@.len());
    assert("🤘👹"@.len() != "🎺"@.len());
    assert("🤘👹"@[0] != "🎼🎻"@[0]);
    assert("🤘👹"@[0] != "🤠👢"@[0]);
    assert("🤘👹"@.len() != "🕺🪩💃"@.len());
    assert("🤘👹"@.len() != "⚡"@.len());
    assert("🤘👹"@.len() != "🌀"@.len());
    assert("🤘👹"@.len() != "🪕"@.len());
    assert("🤘👹"@.len() != "📾"@.len());
    assert("🤘👹"@.len() != "🎷"@.len());
    assert("🎵"@[0] != "🤖"@[0]);
    assert("🎵"@[0] != "🌌"@[0]);
    assert("🎵"@[0] != "🎺"@[0]);
    assert("🎵"@.len() != "🎼🎻"@.len());
    assert("🎵"@.len() != "🤠👢"@.len());
    assert("🎵"@.len() != "🕺🪩💃"@.len());
    assert("🎵"@[0] != "⚡"@[0]);
    assert("🎵"@[0] != "🌀"@[0]);
    assert("🎵"@[0] != "🪕"@[0]);
    assert("🎵"@[0] != "📾"@[0]);
    assert("🎵"@[0] != "🎷"@[0]);
    assert("🎵"@.len() != "🤘👹"@.len());
    assert("📰"@[0] != "🤖"@[0]);
    assert("📰"@[0] != "🌌"@[0]);
    assert("📰"@[0] != "🎺"@[0]);
    assert("📰"@.len() != "🎼🎻"@.len());
    assert("📰"@.len() != "🤠👢"@.len());
    assert("📰"@.len() != "🕺🪩💃"@.len());
    assert("📰"@[0] != "⚡"@[0]);
    assert("📰"@[0] != "🌀"@[0]);
    assert("📰"@[0] != "🪕"@[0]);
    assert("📰"@[0] != "📾"@[0]);
    assert("📰"@[0] != "🎷"@[0]);
    assert("📰"@.len() != "🤘👹"@.len());
    assert("📰"@[0] != "🎵"@[0]);
    assert("🎤"@[0] != "🤖"@[0]);
    assert("🎤"@[0] != "🌌"@[0]);
    assert("🎤"@[0] != "🎺"@[0]);
    assert("🎤"@.len() != "🎼🎻"@.len());
    assert("🎤"@.len() != "🤠👢"@.len());
    assert("🎤"@.len() != "🕺🪩💃"@.len());
    assert("🎤"@[0] != "⚡"@[0]);
    assert("🎤"@[0] != "🌀"@[0]);
    assert("🎤"@[0] != "🪕"@[0]);
    assert("🎤"@[0] != "📾"@[0]);
    assert("🎤"@[0] != "🎷"@[0]);
    assert("🎤"@.len() != "🤘👹"@.len());
    assert("🎤"@[0] != "🎵"@[0]);
    assert("🎤"@[0] != "📰"@[0]);
    assert("🤘🔥"@.len() != "🤖"@.len());
    assert("🤘🔥"@.len() != "🌌"@.len());
    assert("🤘🔥"@.len() != "🎺"@.len());
    assert("🤘🔥"@[0] != "🎼🎻"@[0]);
    assert("🤘🔥"@[0] != "🤠👢"@[0]);
    assert("🤘🔥"@.len() != "🕺🪩💃"@.len());
    assert("🤘🔥"@.len() != "⚡"@.len());
    assert("🤘🔥"@.len() != "🌀"@.len());
    assert("🤘🔥"@.len() != "🪕"@.len());
    assert("🤘🔥"@.len() != "📾"@.len());
    assert("🤘🔥"@.len() != "🎷"@.len());
    assert("🤘🔥"@[1] != "🤘👹"@[1]);
    assert("🤘🔥"@.len() != "🎵"@.len());
    assert("🤘🔥"@.len() != "📰"@.len());
    assert("🤘🔥"@.len() != "🎤"@.len());
    assert("﹏🎺﹏"@.len() != "🤖"@.len());
    assert("﹏🎺﹏"@.len() != "🌌"@.len());
    assert("﹏🎺﹏"@.len() != "🎺"@.len());
    assert("﹏🎺﹏"@.len() != "🎼🎻"@.len());
    assert("﹏🎺﹏"@.len() != "🤠👢"@.len());
    assert("﹏🎺﹏"@[0] != "🕺🪩💃"@[0]);
    assert("﹏🎺﹏"@.len() != "⚡"@.len());
    assert("﹏🎺﹏"@.len() != "🌀"@.len());
    assert("﹏🎺﹏"@.len() != "🪕"@.len());
    assert("﹏🎺﹏"@.len() != "📾"@.len());
    assert("﹏🎺﹏"@.len() != "🎷"@.len());
    assert("﹏🎺﹏"@.len() != "🤘👹"@.len());
    assert("﹏🎺﹏"@.len() != "🎵"@.len());
    assert("﹏🎺﹏"@.len() != "📰"@.len());
    assert("﹏🎺﹏"@.len() != "🎤"@.len());
    assert("﹏🎺﹏"@.len() != "🤘🔥"@.len());
    assert("🗺️"@.len() != "🤖"@.len());
    assert("🗺️"@.len() != "🌌"@.len());
    assert("🗺️"@.len() != "🎺"@.len());
    assert("🗺️"@[0] != "🎼🎻"@[0]);
    assert("🗺️"@[0] != "🤠👢"@[0]);
    assert("🗺️"@.len() != "🕺🪩💃"@.len());
    assert("🗺️"@.len() != "⚡"@.len());
    assert("🗺️"@.len() != "🌀"@.len());
    assert("🗺️"@.len() != "🪕"@.len());
    assert("🗺️"@.len() != "📾"@.len());
    assert("🗺️"@.len() != "🎷"@.len());
    assert("🗺️"@[0] != "🤘👹"@[0]);
    assert("🗺️"@.len() != "🎵"@.len());
    assert("🗺️"@.len() != "📰"@.len());
    assert("🗺️"@.len() != "🎤"@.len());
    assert("🗺️"@[0] != "🤘🔥"@[0]);
    assert("🗺️"@.len() != "﹏🎺﹏"@.len());
    assert("🎸"@[0] != "🤖"@[0]);
    assert("🎸"@[0] != "🌌"@[0]);
    assert("🎸"@[0] != "🎺"@[0]);
    assert("🎸"@.len() != "🎼🎻"@.len());
    assert("🎸"@.len() != "🤠👢"@.len());
    assert("🎸"@.len() != "🕺🪩💃"@.len());
    assert("🎸"@[0] != "⚡"@[0]);
    assert("🎸"@[0] != "🌀"@[0]);
    assert("🎸"@[0] != "🪕"@[0]);
    assert("🎸"@[0] != "📾"@[0]);
    assert("🎸"@[0] != "🎷"@[0]);
    assert("🎸"@.len() != "🤘👹"@.len());
    assert("🎸"@[0] != "🎵"@[0]);
    assert("🎸"@[0] != "📰"@[0]);
    assert("🎸"@[0] != "🎤"@[0]);
    assert("🎸"@.len() != "🤘🔥"@.len());
    assert("🎸"@.len() != "﹏🎺﹏"@.len());
    assert("🎸"@.len() != "🗺️"@.len());
    assert("🗣️"@.len() != "🤖"@.len());
    assert("🗣️"@.len() != "🌌"@.len());
    assert("🗣️"@.len() != "🎺"@.len());
    assert("🗣️"@[0] != "🎼🎻"@[0]);
    assert("🗣️"@[0] != "🤠👢"@[0]);
    assert("🗣️"@.len() != "🕺🪩💃"@.len());
    assert("🗣️"@.len() != "⚡"@.len());
    assert("🗣️"@.len() != "🌀"@.len());
    assert("🗣️"@.len() != "🪕"@.len());
    assert("🗣️"@.len() != "📾"@.len());
    assert("🗣️"@.len() != "🎷"@.len());
    assert("🗣️"@[0] != "🤘👹"@[0]);
    assert("🗣️"@.len() != "🎵"@.len());
    assert("🗣️"@.len() != "📰"@.len());
    assert("🗣️"@.len() != "🎤"@.len());
    assert("🗣️"@[0] != "🤘🔥"@[0]);
    assert("🗣️"@.len() != "﹏🎺﹏"@.len());
    assert("🗣️"@[0] != "🗺️"@[0]);
    assert("🗣️"@.len() != "🎸"@.len());
}

/// A currently active playlist whose category gets emojis shows them on both sides of its
/// title, each set apart by a space.
pub proof fn law_active_playlist_shows_its_category_emojis(playlist: Playlist, emojis: Seq<char>)
    requires
        playlist.category is Some,
        category_emojis_spec(playlist.category->0@) == Some(emojis),
    ensures
        playlist.text_spec(ModelAgeState::CurrentlyActive) == emojis + " This is '"@ + playlist.title@ + "' "@ + emojis,
{
    reveal_strlit(" ");
    reveal_strlit(" This is '");
    reveal_strlit("This is '");
    reveal_strlit("' ");
    reveal_strlit("'");
    assert(emojis + " "@ + "This is '"@ + playlist.title@ + "'"@ + " "@ + emojis =~= emojis + " This is '"@ + playlist.title@ + "' "@ + emojis);
}

/// The emojis shown around a playlist of the given category, if the category is known.
pub fn category_emojis(category: &str) -> (res: Option<&'static str>)
    ensures
        match category_emojis_spec(category@) {
            Some(e) => res is Some && res->0@ == e,
            None => res is None,
        },
{
    if str_equal(category, "Automation") {
        Some("🤖")
    } else if str_equal(category, "Ambient") {
        Some("🌌")
    } else if str_equal(category, "Blues") {
        Some("🎺")
    } else if str_equal(category, "Classical") {
        Some("🎼🎻")
    } else if str_equal(category, "Country") {
        Some("🤠👢")
    } else if str_equal(category, "Dance") {
        Some("🕺🪩💃")
    } else if str_equal(category, "Electronic") {
        Some("⚡")
    } else if str_equal(category, "Experimental") {
        Some("🌀")
    } else if str_equal(category, "Folk") {
        Some("🪕")
    } else if str_equal(category, "Hip-Hop") {
        Some("📾")
    } else if str_equal(category, "Jazz") {
        Some("🎷")
    } else if str_equal(category, "Metal") {
        Some("🤘👹")
    } else if str_equal(category, "Music") {
        Some("🎵")
    } else if str_equal(category, "News") {
        Some("📰")
    } else if str_equal(category, "Pop") {
        Some("🎤")
    } else if str_equal(category, "Punk") {
        Some("🤘🔥")
    } else if str_equal(category, "RnB") {
        Some("﹏🎺﹏")
    } else if str_equal(category, "Regional") {
        Some("🗺️")
    } else if str_equal(category, "Rock") {
        Some("🎸")
    } else if str_equal(category, "Talk") {
        Some("🗣️")
    } else {
        None
    }
}

/// The emojis (and the space after them) that a playlist's category gets: nothing for no
/// category or an unknown one.
pub open spec fn playlist_decoration(category: Option<Seq<char>>) -> (Seq<char>, Seq<char>) {
    match category {
        Some(c) => match category_emojis_spec(c) {
            Some(e) => (e, " "@),
            None => (Seq::empty(), Seq::empty()),
        },
        None => (Seq::empty(), Seq::empty()),
    }
}

pub open spec fn opt_view(s: Option<String>) -> Option<Seq<char>> {
    match s {
        Some(t) => Some(t@),
        None => None,
    }
}

impl SpinitronModel for Spin {
    open spec fn id_spec(&self) -> u32 {
        self.id
    }

    open spec fn time_range_spec(&self) -> (i64, Option<i64>) {
        (self.start, self.end)
    }

    open spec fn text_spec(&self, age_state: ModelAgeState) -> Seq<char> {
        match age_state {
            ModelAgeState::BeforeIt => "Are you a time traveler or something???"@,
            ModelAgeState::CurrentlyActive | ModelAgeState::AfterIt => self.song@ + " (from "@
                + self.release@ + "), by "@ + self.artist@,
            ModelAgeState::AfterItFromCustomExpiryDuration => "No 😰 recent 😬 spins 😟❗"@,
        }
    }

    fn get_id(&self) -> (res: u32) {
        self.id
    }

    fn get_time_range(&self) -> (res: (i64, Option<i64>)) {
        (self.start, self.end)
    }

    fn to_string(&self, age_state: ModelAgeState) -> (res: String) {
        match age_state {
            ModelAgeState::BeforeIt => String::from_str("Are you a time traveler or something???"),
            ModelAgeState::CurrentlyActive | ModelAgeState::AfterIt => {
                let mut res = String::from_str(self.song.as_str());
                push_str(&mut res, " (from ");
                push_str(&mut res, self.release.as_str());
                push_str(&mut res, "), by ");
                push_str(&mut res, self.artist.as_str());
                res
            },
            ModelAgeState::AfterItFromCustomExpiryDuration => String::from_str(
                "No 😰 recent 😬 spins 😟❗",
            ),
        }
    }

    open spec fn texture_spec(&self, age_state: ModelAgeState, size: (u32, u32)) -> (TextureSourceKind, Seq<char>) {
        spin_texture_spec(*self, age_state, size)
    }

    /// Where the spin's texture comes from (see `spin_texture_spec`).
    fn get_texture_creation_info(&self, age_state: ModelAgeState, size: (u32, u32)) -> (res: ModelTextureCreationInfo)
    {
        if age_state == ModelAgeState::AfterItFromCustomExpiryDuration {
            return choose_spin_texture(age_state, &self.image, None, None);
        }
        match image_url_of(&self.image) {
            Some(url) => {
                let url_matches = regex_is_match("^https:\\/\\/.+\\d+x\\d+bb.+$", url);
                let is_match = match url_matches {
                    Some(m) => m,
                    None => false,
                };
                let resized = if is_match {
                    let mut size_text = String::new();
                    push_decimal(&mut size_text, size.0 as u64);
                    push_str(&mut size_text, "x");
                    push_decimal(&mut size_text, size.1 as u64);
                    push_str(&mut size_text, "bb");
                    proof {
                        assert(size_text@ =~= spin_image_size_text(size.0, size.1));
                    }
                    regex_replace_first("\\d+x\\d+bb", url, size_text.as_str())
                } else {
                    None
                };
                choose_spin_texture(age_state, &self.image, url_matches, resized)
            },
            None => choose_spin_texture(age_state, &self.image, None, None),
        }
    }
}

impl Spin {
    pub fn get_start_time(&self) -> (res: i64)
        ensures
            res == self.start,
    {
        self.start
    }
}

impl SpinitronModelWithProps for Spin {
    open spec fn name_spec() -> SpinitronModelName {
        SpinitronModelName::Spin
    }

    fn model_name() -> (res: SpinitronModelName) {
        SpinitronModelName::Spin
    }
}

impl SpinitronModel for Playlist {
    open spec fn id_spec(&self) -> u32 {
        self.id
    }

    open spec fn time_range_spec(&self) -> (i64, Option<i64>) {
        (self.start, Some(self.end))
    }

    open spec fn text_spec(&self, age_state: ModelAgeState) -> Seq<char> {
        match age_state {
            ModelAgeState::BeforeIt => "How are you before a playlist that hasn't even started yet?"@,
            ModelAgeState::CurrentlyActive => {
                let (emojis, spacing) = playlist_decoration(opt_view(self.category));
                emojis + spacing + "This is '"@ + self.title@ + "'"@ + spacing + emojis
            },
            ModelAgeState::AfterIt => "Make a playlist, if you're there!"@,
            ModelAgeState::AfterItFromCustomExpiryDuration => if self.automation == Some(1u32) {
                "This automation playlist is coming to an end..."@
            } else {
                "Pack up, and log out of Spinitron! The next show is starting soon."@
            },
        }
    }

    fn get_id(&self) -> (res: u32) {
        self.id
    }

    fn get_time_range(&self) -> (res: (i64, Option<i64>)) {
        (self.start, Some(self.end))
    }

    fn to_string(&self, age_state: ModelAgeState) -> (res: String) {
        match age_state {
            ModelAgeState::BeforeIt => String::from_str(
                "How are you before a playlist that hasn't even started yet?",
            ),
            ModelAgeState::CurrentlyActive => {
                let mut show_emojis: &str = "";
                let mut spacing: &str = "";
                match &self.category {
                    Some(category) => {
                        match category_emojis(category.as_str()) {
                            Some(emojis) => {
                                show_emojis = emojis;
                                spacing = " ";
                            },
                            None => {},
                        }
                    },
                    None => {},
                }
                proof {
                    let (e, sp) = playlist_decoration(opt_view(self.category));
                    assert(show_emojis@ == e && spacing@ == sp) by {
                        reveal_strlit("");
                    }
                }
                let mut res = String::from_str(show_emojis);
                push_str(&mut res, spacing);
                push_str(&mut res, "This is '");
                push_str(&mut res, self.title.as_str());
                push_str(&mut res, "'");
                push_str(&mut res, spacing);
                push_str(&mut res, show_emojis);
                res
            },
            ModelAgeState::AfterIt => String::from_str("Make a playlist, if you're there!"),
            ModelAgeState::AfterItFromCustomExpiryDuration => {
                let is_automation = match self.automation {
                    Some(a) => a == 1,
                    None => false,
                };
                if is_automation {
                    String::from_str("This automation playlist is coming to an end...")
                } else {
                    String::from_str(
                        "Pack up, and log out of Spinitron! The next show is starting soon.",
                    )
                }
            },
        }
    }

    open spec fn texture_spec(&self, age_state: ModelAgeState, size: (u32, u32)) -> (TextureSourceKind, Seq<char>) {
        playlist_texture_spec(*self, age_state)
    }

    /// Where the playlist's texture comes from (see `playlist_texture_spec`).
    fn get_texture_creation_info(&self, age_state: ModelAgeState, size: (u32, u32)) -> (res: ModelTextureCreationInfo)
    {
        match age_state {
            ModelAgeState::BeforeIt => ModelTextureCreationInfo::Path(String::from_str("assets/before_show_image.jpg")),
            ModelAgeState::AfterIt => ModelTextureCreationInfo::Path(String::from_str("assets/after_show_image.jpg")),
            _ => {
                let is_automation = match self.automation {
                    Some(a) => a == 1,
                    None => false,
                };
                if is_automation {
                    ModelTextureCreationInfo::Path(String::from_str("assets/automation_playlist.png"))
                } else {
                    persona_or_show_texture(&self.image, "assets/no_show_image.png")
                }
            },
        }
    }
}

impl SpinitronModelWithProps for Playlist {
    open spec fn name_spec() -> SpinitronModelName {
        SpinitronModelName::Playlist
    }

    fn model_name() -> (res: SpinitronModelName) {
        SpinitronModelName::Playlist
    }
}

impl SpinitronModel for Persona {
    open spec fn id_spec(&self) -> u32 {
        self.id
    }

    open spec fn time_range_spec(&self) -> (i64, Option<i64>) {
        (self.start_from_associated_playlist, Some(self.end_from_associated_playlist))
    }

    open spec fn text_spec(&self, age_state: ModelAgeState) -> Seq<char> {
        if age_state == ModelAgeState::AfterItFromCustomExpiryDuration {
            "No one is expected in the studio right now..."@
        } else {
            "Welcome, "@ + self.name@ + "!"@
        }
    }

    fn get_id(&self) -> (res: u32) {
        self.id
    }

    fn get_time_range(&self) -> (res: (i64, Option<i64>)) {
        (self.start_from_associated_playlist, Some(self.end_from_associated_playlist))
    }

    fn to_string(&self, age_state: ModelAgeState) -> (res: String) {
        if age_state == ModelAgeState::AfterItFromCustomExpiryDuration {
            String::from_str("No one is expected in the studio right now...")
        } else {
            let mut res = String::from_str("Welcome, ");
            push_str(&mut res, self.name.as_str());
            push_str(&mut res, "!");
            res
        }
    }

    open spec fn texture_spec(&self, age_state: ModelAgeState, size: (u32, u32)) -> (TextureSourceKind, Seq<char>) {
        persona_texture_spec(*self, age_state)
    }

    /// Where the persona's texture comes from (see `persona_texture_spec`).
    fn get_texture_creation_info(&self, age_state: ModelAgeState, size: (u32, u32)) -> (res: ModelTextureCreationInfo)
    {
        if age_state == ModelAgeState::AfterItFromCustomExpiryDuration {
            ModelTextureCreationInfo::Path(String::from_str("assets/no_person_in_studio.jpg"))
        } else {
            persona_or_show_texture(&self.image, "assets/no_persona_image.png")
        }
    }
}

impl SpinitronModelWithProps for Persona {
    open spec fn name_spec() -> SpinitronModelName {
        SpinitronModelName::Persona
    }

    fn model_name() -> (res: SpinitronModelName) {
        SpinitronModelName::Persona
    }
}

impl SpinitronModel for Show {
    open spec fn id_spec(&self) -> u32 {
        self.id
    }

    open spec fn time_range_spec(&self) -> (i64, Option<i64>) {
        (self.start, Some(self.end))
    }

    /// Shows are not shown as text.
    open spec fn text_spec(&self, age_state: ModelAgeState) -> Seq<char> {
        Seq::empty()
    }

    fn get_id(&self) -> (res: u32) {
        self.id
    }

    fn get_time_range(&self) -> (res: (i64, Option<i64>)) {
        (self.start, Some(self.end))
    }

    fn to_string(&self, age_state: ModelAgeState) -> (res: String) {
        String::new()
    }

    /// Shows have no texture.
    open spec fn texture_spec(&self, age_state: ModelAgeState, size: (u32, u32)) -> (TextureSourceKind, Seq<char>) {
        (TextureSourceKind::Nothing, Seq::empty())
    }

    fn get_texture_creation_info(&self, age_state: ModelAgeState, size: (u32, u32)) -> (res: ModelTextureCreationInfo)
    {
        ModelTextureCreationInfo::Nothing
    }
}

impl SpinitronModelWithProps for Show {
    open spec fn name_spec() -> SpinitronModelName {
        SpinitronModelName::Show
    }

    fn model_name() -> (res: SpinitronModelName) {
        SpinitronModelName::Show
    }
}

//////////

/// The age state of a model whose time range is `start` to `end`, at `now`, given its custom
/// expiry duration (all in nanoseconds). The custom end is `end` moved by the custom duration;
/// it may come before or after the real end, and when both have passed with a custom end before
/// the real one, the real end wins.
pub open spec fn model_age_state_spec(start: int, end: int, now: int, custom_expiry: int) -> ModelAgeState {
    let is_after_start = now - start > 0;
    let is_after_end = now - end > 0;
    let is_after_custom_end = now - end > custom_expiry;
    if is_after_start {
        if is_after_custom_end {
            if is_after_end && custom_expiry < 0 {
                ModelAgeState::AfterIt
            } else {
                ModelAgeState::AfterItFromCustomExpiryDuration
            }
        } else if is_after_end {
            ModelAgeState::AfterIt
        } else {
            ModelAgeState::CurrentlyActive
        }
    } else {
        ModelAgeState::BeforeIt
    }
}

/// Where the current time stands relative to a model, and whether that just changed.
#[derive(Copy, Clone)]
pub struct ModelAgeData {
    /// In nanoseconds, relative to the model's end.
    pub custom_expiry_duration: i64,
    pub curr_age_state: ModelAgeState,
    pub just_updated_state: bool,
}

impl ModelAgeData {
    pub fn new(custom_expiry_duration: i64) -> (res: ModelAgeData)
        ensures
            res.custom_expiry_duration == custom_expiry_duration,
            res.curr_age_state == ModelAgeState::CurrentlyActive,
            !res.just_updated_state,
    {
        ModelAgeData {
            custom_expiry_duration,
            curr_age_state: ModelAgeState::CurrentlyActive,
            just_updated_state: false,
        }
    }

    /// Recomputes the age state at `curr_time` for a model with the given time range. A model
    /// with no end keeps its state (and does not count as updated).
    pub fn update_at(&mut self, time_range: (i64, Option<i64>), curr_time: i64)
        ensures
            final(self).custom_expiry_duration == old(self).custom_expiry_duration,
            match time_range.1 {
                Some(end) => {
                    &&& final(self).curr_age_state == model_age_state_spec(
                        time_range.0 as int,
                        end as int,
                        curr_time as int,
                        old(self).custom_expiry_duration as int,
                    )
                    &&& final(self).just_updated_state == (old(self).curr_age_state
                        != final(self).curr_age_state)
                },
                None => {
                    &&& final(self).curr_age_state == old(self).curr_age_state
                    &&& !final(self).just_updated_state
                },
            },
    {
        match time_range.1 {
            Some(end_time) => {
                let time_after_start: i128 = curr_time as i128 - time_range.0 as i128;
                let time_after_end: i128 = curr_time as i128 - end_time as i128;
                let custom: i128 = self.custom_expiry_duration as i128;
                let is_after_start = time_after_start > 0;
                let is_after_end = time_after_end > 0;
                let is_after_custom_end = time_after_end > custom;
                let new_age_state = if is_after_start {
                    if is_after_custom_end {
                        if is_after_end && custom < 0 {
                            ModelAgeState::AfterIt
                        } else {
                            ModelAgeState::AfterItFromCustomExpiryDuration
                        }
                    } else if is_after_end {
                        ModelAgeState::AfterIt
                    } else {
                        ModelAgeState::CurrentlyActive
                    }
                } else {
                    ModelAgeState::BeforeIt
                };
                self.just_updated_state = self.curr_age_state != new_age_state;
                self.curr_age_state = new_age_state;
            },
            None => {
                self.just_updated_state = false;
            },
        }
    }

    /// Recomputes the age state of `model` at the current time. A model with no end, or a
    /// clock past the range of nanosecond timestamps, leaves the state as it was (not counted
    /// as updated).
    pub fn update<M: SpinitronModel>(&mut self, model: &M)
        ensures
            final(self).custom_expiry_duration == old(self).custom_expiry_duration,
            final(self).just_updated_state == (old(self).curr_age_state != final(self).curr_age_state),
            model.time_range_spec().1 is None ==> final(self).curr_age_state == old(self).curr_age_state,
            model.time_range_spec().1 is Some ==> final(self).curr_age_state == old(self).curr_age_state
                || exists|now: i64|
                final(self).curr_age_state == #[trigger] model_age_state_spec(
                    model.time_range_spec().0 as int,
                    model.time_range_spec().1->0 as int,
                    now as int,
                    old(self).custom_expiry_duration as int,
                ),
    {
        let time_range = model.get_time_range();
        match time_range.1 {
            Some(_) => {
                match utc_now_nanos() {
                    Some(now) => {
                        self.update_at(time_range, now);
                    },
                    None => {
                        self.just_updated_state = false;
                    },
                }
            },
            None => {
                self.update_at(time_range, 0);
            },
        }
    }
}

//////////

/// The size of the textures of the spin history items, and whether it just changed.
#[derive(Copy, Clone)]
pub struct SpinHistoryItemTextureSize {
    pub size: (u32, u32),
    pub just_found_true_size: bool,
}

impl SpinHistoryItemTextureSize {
    pub fn new(size: (u32, u32)) -> (res: SpinHistoryItemTextureSize)
        ensures
            res.size == size,
            !res.just_found_true_size,
    {
        SpinHistoryItemTextureSize { size, just_found_true_size: false }
    }

    /// Takes on `new_size`, recording whether it differs from the size held before.
    pub fn update(&mut self, new_size: (u32, u32))
        ensures
            final(self).size == new_size,
            final(self).just_found_true_size == (old(self).size != new_size),
    {
        self.just_found_true_size = self.size.0 != new_size.0 || self.size.1 != new_size.1;
        self.size = new_size;
    }
}

/// A square texture size that fits in a window: the window's smaller side, twice.
pub fn make_correct_texture_size_from_window_size(window_size: (u32, u32)) -> (res: (u32, u32))
    ensures
        res.0 == res.1,
        res.0 == (if window_size.0 <= window_size.1 {
            window_size.0
        } else {
            window_size.1
        }),
{
    let axis_size = if window_size.0 <= window_size.1 {
        window_size.0
    } else {
        window_size.1
    };
    (axis_size, axis_size)
}

//////////

/// Whether `pattern` is a valid regular expression (`regex::Regex::new`), and if so whether it
/// matches somewhere in `text` (`Regex::is_match`).
pub uninterp spec fn regex_match_result(pattern: Seq<char>, text: Seq<char>) -> Option<bool>;

/// Whether `pattern` is a valid regular expression, and if so `text` with the first match
/// replaced by `replacement` (`Regex::replace`, with `$` in `replacement` naming groups).
pub uninterp spec fn regex_replace_result(
    pattern: Seq<char>,
    text: Seq<char>,
    replacement: Seq<char>,
) -> Option<Seq<char>>;

/// Compiles `pattern` (`regex::Regex::new`) and tests it on `text` (`Regex::is_match`).
/// The result is named, not stated: it is claimed to depend on the two strings alone.
#[verifier::external_body]
fn regex_is_match(pattern: &str, text: &str) -> (res: Option<bool>)
    ensures
        res == regex_match_result(pattern@, text@),
{
    match regex::Regex::new(pattern) {
        Ok(re) => Some(re.is_match(text)),
        Err(_) => None,
    }
}

/// Compiles `pattern` (`regex::Regex::new`) and replaces its first match in `text`
/// (`Regex::replace`). The result is named, not stated: it is claimed to depend on the three
/// strings alone.
#[verifier::external_body]
fn regex_replace_first(pattern: &str, text: &str, replacement: &str) -> (res: Option<String>)
    ensures
        opt_view(res) == regex_replace_result(pattern@, text@, replacement@),
{
    match regex::Regex::new(pattern) {
        Ok(re) => Some(re.replace(text, replacement).into_owned()),
        Err(_) => None,
    }
}

/// The size part of a spin image URL (`600x600bb`).
pub open spec fn spin_image_size_pattern() -> Seq<char> {
    "\\d+x\\d+bb"@
}

/// The form of a spin image URL whose size can be changed.
pub open spec fn spin_image_pattern() -> Seq<char> {
    "^https:\\/\\/.+\\d+x\\d+bb.+$"@
}

/// The form of the default image that Spinitron gives a persona or show without one.
pub open spec fn default_persona_and_show_image_pattern() -> Seq<char> {
    "^https:\\/\\/farm\\d.staticflickr\\.com\\/\\d+\\/.+\\..+$"@
}

/// Where a model's texture comes from.
#[derive(Clone, Debug, Hash)]
pub enum ModelTextureCreationInfo {
    Nothing,
    Path(String),
    Url(String),
}

/// The kinds of texture sources.
#[derive(Copy, Clone, Debug, PartialEq, Eq, Structural)]
pub enum TextureSourceKind {
    Nothing,
    Path,
    Url,
}

/// A texture source as its kind and its text (empty for nothing).
pub open spec fn texture_source(info: ModelTextureCreationInfo) -> (TextureSourceKind, Seq<char>) {
    match info {
        ModelTextureCreationInfo::Nothing => (TextureSourceKind::Nothing, Seq::empty()),
        ModelTextureCreationInfo::Path(p) => (TextureSourceKind::Path, p@),
        ModelTextureCreationInfo::Url(u) => (TextureSourceKind::Url, u@),
    }
}

/// The URL of a model's image, if it has a non-empty one.
pub open spec fn image_url(image: Option<Seq<char>>) -> Option<Seq<char>> {
    match image {
        Some(url) => if url.len() > 0 {
            Some(url)
        } else {
            None
        },
        None => None,
    }
}

/// The URL of a model's image, if it has a non-empty one.
pub fn image_url_of(image: &Option<String>) -> (res: Option<&str>)
    ensures
        match res {
            Some(u) => image_url(opt_view(*image)) == Some(u@),
            None => image_url(opt_view(*image)) is None,
        },
{
    match image {
        Some(url) => {
            if url.as_str().unicode_len() > 0 {
                Some(url.as_str())
            } else {
                None
            }
        },
        None => None,
    }
}

/// The size part that a spin image URL gets for a texture of `width` by `height`.
pub open spec fn spin_image_size_text(width: u32, height: u32) -> Seq<char> {
    decimal_spec(width as nat) + "x"@ + decimal_spec(height as nat) + "bb"@
}

/// The texture of a spin, from the results of testing and resizing its image URL: the logo
/// when there are no recent spins; otherwise its image (resized when its URL has the
/// expected form), or nothing without one.
pub open spec fn spin_texture_from(
    age_state: ModelAgeState,
    image: Option<Seq<char>>,
    url_matches: Option<bool>,
    resized_url: Option<Seq<char>>,
) -> (TextureSourceKind, Seq<char>) {
    if age_state == ModelAgeState::AfterItFromCustomExpiryDuration {
        (TextureSourceKind::Path, "assets/polar_headphones_logo.png"@)
    } else {
        match image_url(image) {
            Some(url) => if url_matches == Some(true) && resized_url is Some {
                (TextureSourceKind::Url, resized_url->0)
            } else {
                (TextureSourceKind::Url, url)
            },
            None => (TextureSourceKind::Nothing, Seq::empty()),
        }
    }
}

/// The texture of a spin, given whether its image URL has the resizable form and the URL
/// resized (see `spin_texture_from`).
pub fn choose_spin_texture(
    age_state: ModelAgeState,
    image: &Option<String>,
    url_matches: Option<bool>,
    resized_url: Option<String>,
) -> (res: ModelTextureCreationInfo)
    ensures
        texture_source(res) == spin_texture_from(age_state, opt_view(*image), url_matches, opt_view(resized_url)),
{
    if age_state == ModelAgeState::AfterItFromCustomExpiryDuration {
        return ModelTextureCreationInfo::Path(String::from_str("assets/polar_headphones_logo.png"));
    }
    match image_url_of(image) {
        Some(url) => {
            let matches = match url_matches {
                Some(m) => m,
                None => false,
            };
            match resized_url {
                Some(resized) => {
                    if matches {
                        ModelTextureCreationInfo::Url(resized)
                    } else {
                        ModelTextureCreationInfo::Url(String::from_str(url))
                    }
                },
                None => ModelTextureCreationInfo::Url(String::from_str(url)),
            }
        },
        None => ModelTextureCreationInfo::Nothing,
    }
}

/// The texture of a persona or show, from whether its image URL is Spinitron's default one:
/// the given fallback image for no image or the default one, and its image otherwise.
pub open spec fn persona_or_show_texture_from(
    image: Option<Seq<char>>,
    matches_default: Option<bool>,
    fallback_path: Seq<char>,
) -> (TextureSourceKind, Seq<char>) {
    match image_url(image) {
        Some(url) => if matches_default == Some(true) {
            (TextureSourceKind::Path, fallback_path)
        } else {
            (TextureSourceKind::Url, url)
        },
        None => (TextureSourceKind::Path, fallback_path),
    }
}

/// The texture of a persona or show, given whether its image URL is Spinitron's default one.
pub fn choose_persona_or_show_texture(
    image: &Option<String>,
    matches_default: Option<bool>,
    fallback_path: &str,
) -> (res: ModelTextureCreationInfo)
    ensures
        texture_source(res) == persona_or_show_texture_from(opt_view(*image), matches_default, fallback_path@),
{
    match image_url_of(image) {
        Some(url) => {
            let is_default = match matches_default {
                Some(m) => m,
                None => false,
            };
            if is_default {
                ModelTextureCreationInfo::Path(String::from_str(fallback_path))
            } else {
                ModelTextureCreationInfo::Url(String::from_str(url))
            }
        },
        None => ModelTextureCreationInfo::Path(String::from_str(fallback_path)),
    }
}

/// Tests a model's image URL against Spinitron's default image, and picks its texture.
fn persona_or_show_texture(image: &Option<String>, fallback_path: &str) -> (res: ModelTextureCreationInfo)
    ensures
        texture_source(res) == persona_or_show_texture_from(
            opt_view(*image),
            match image_url(opt_view(*image)) {
                Some(url) => regex_match_result(default_persona_and_show_image_pattern(), url),
                None => None,
            },
            fallback_path@,
        ),
{
    let matches_default = match image_url_of(image) {
        Some(url) => regex_is_match(
            "^https:\\/\\/farm\\d.staticflickr\\.com\\/\\d+\\/.+\\..+$",
            url,
        ),
        None => None,
    };
    choose_persona_or_show_texture(image, matches_default, fallback_path)
}

/// The texture of a playlist: fixed images before and after it, the automation image for an
/// automation playlist, and otherwise its image as for a show.
pub open spec fn playlist_texture_spec(playlist: Playlist, age_state: ModelAgeState) -> (TextureSourceKind, Seq<char>) {
    match age_state {
        ModelAgeState::BeforeIt => (TextureSourceKind::Path, "assets/before_show_image.jpg"@),
        ModelAgeState::AfterIt => (TextureSourceKind::Path, "assets/after_show_image.jpg"@),
        _ => if playlist.automation == Some(1u32) {
            (TextureSourceKind::Path, "assets/automation_playlist.png"@)
        } else {
            persona_or_show_texture_from(
                opt_view(playlist.image),
                match image_url(opt_view(playlist.image)) {
                    Some(url) => regex_match_result(default_persona_and_show_image_pattern(), url),
                    None => None,
                },
                "assets/no_show_image.png"@,
            )
        },
    }
}

/// The texture of a persona: the empty-studio image when no one is expected, and otherwise its
/// image as for a show.
pub open spec fn persona_texture_spec(persona: Persona, age_state: ModelAgeState) -> (TextureSourceKind, Seq<char>) {
    if age_state == ModelAgeState::AfterItFromCustomExpiryDuration {
        (TextureSourceKind::Path, "assets/no_person_in_studio.jpg"@)
    } else {
        persona_or_show_texture_from(
            opt_view(persona.image),
            match image_url(opt_view(persona.image)) {
                Some(url) => regex_match_result(default_persona_and_show_image_pattern(), url),
                None => None,
            },
            "assets/no_persona_image.png"@,
        )
    }
}

/// The texture of a spin, with its image URL tested and resized by the regular expressions.
pub open spec fn spin_texture_spec(spin: Spin, age_state: ModelAgeState, size: (u32, u32)) -> (TextureSourceKind, Seq<char>) {
    let url = image_url(opt_view(spin.image));
    spin_texture_from(
        age_state,
        opt_view(spin.image),
        match url {
            Some(u) => regex_match_result(spin_image_pattern(), u),
            None => None,
        },
        match url {
            Some(u) => if regex_match_result(spin_image_pattern(), u) == Some(true) {
                regex_replace_result(spin_image_size_pattern(), u, spin_image_size_text(size.0, size.1))
            } else {
                None
            },
            None => None,
        },
    )
}





//////////

/// What follows the first `.com` of a URL, or `None` if it has none.
pub open spec fn after_first_dot_com(url: Seq<char>) -> Option<Seq<char>> {
    if exists|i: int| #[trigger] occurs_at(url, ".com"@, i) {
        let i = choose|i: int| occurs_at(url, ".com"@, i) && forall|j: int| 0 <= j < i ==> !#[trigger] occurs_at(url, ".com"@, j);
        Some(url.subrange(i + 4, url.len() as int))
    } else {
        None
    }
}

/// The texture source whose hash stands for a texture. Image URLs such as
/// `https://is3-ssl.mzstatic.com/image/...` vary in the part before `.com` for the same image,
/// so only what follows it counts; a URL without `.com` counts whole.
pub open spec fn texture_hash_key(source: (TextureSourceKind, Seq<char>)) -> (TextureSourceKind, Seq<char>) {
    if source.0 == TextureSourceKind::Url {
        match after_first_dot_com(source.1) {
            Some(rest) => (TextureSourceKind::Url, rest),
            None => source,
        }
    } else {
        source
    }
}

proof fn lemma_first_occurrence(url: Seq<char>, i: int)
    requires
        occurs_at(url, ".com"@, i),
        forall|j: int| 0 <= j < i ==> !#[trigger] occurs_at(url, ".com"@, j),
    ensures
        after_first_dot_com(url) == Some(url.subrange(i + 4, url.len() as int)),
{
    reveal_strlit(".com");
    let k = choose|k: int| occurs_at(url, ".com"@, k) && forall|j: int| 0 <= j < k ==> !#[trigger] occurs_at(url, ".com"@, j);
    if k < i {
        assert(!occurs_at(url, ".com"@, k));
    } else if i < k {
        assert(!occurs_at(url, ".com"@, i));
    }
}

/// The source whose hash stands for the texture `info` (see `texture_hash_key`).
pub fn texture_hash_source(info: &ModelTextureCreationInfo) -> (res: ModelTextureCreationInfo)
    ensures
        texture_source(res) == texture_hash_key(texture_source(*info)),
{
    match info {
        ModelTextureCreationInfo::Url(url) => {
            match find_str(url.as_str(), ".com") {
                Some(i) => {
                    proof {
                        reveal_strlit(".com");
                        lemma_first_occurrence(url@, i as int);
                    }
                    let n = url.as_str().unicode_len();
                    ModelTextureCreationInfo::Url(String::from_str(url.as_str().substring_char(i + 4, n)))
                },
                None => {
                    ModelTextureCreationInfo::Url(url.clone())
                },
            }
        },
        ModelTextureCreationInfo::Path(p) => ModelTextureCreationInfo::Path(p.clone()),
        ModelTextureCreationInfo::Nothing => ModelTextureCreationInfo::Nothing,
    }
}

/// Whether a texture source is a URL without `.com`.
pub fn is_url_without_dot_com(info: &ModelTextureCreationInfo) -> (res: bool)
    ensures
        res == (texture_source(*info).0 == TextureSourceKind::Url && after_first_dot_com(texture_source(*info).1) is None),
{
    match info {
        ModelTextureCreationInfo::Url(url) => {
            match find_str(url.as_str(), ".com") {
                Some(i) => {
                    proof {
                        lemma_first_occurrence(url@, i as int);
                    }
                    false
                },
                None => true,
            }
        },
        _ => false,
    }
}

/// What is kept of a model between updates: the hash of its texture source, its text, and
/// whether each changed in the last update.
#[derive(Clone, Debug)]
pub struct ModelDataCacheEntry {
    pub texture_creation_info_hash: u64,
    pub texture_creation_info_hash_changed: bool,
    pub string: String,
    pub string_changed: bool,
}

impl ModelDataCacheEntry {
    /// An entry with no text, a zero hash, and nothing changed.
    pub fn new() -> (res: ModelDataCacheEntry)
        ensures
            res.texture_creation_info_hash == 0,
            !res.texture_creation_info_hash_changed,
            res.string@ == Seq::<char>::empty(),
            !res.string_changed,
    {
        ModelDataCacheEntry {
            texture_creation_info_hash: 0,
            texture_creation_info_hash_changed: false,
            string: String::new(),
            string_changed: false,
        }
    }

    /// Marks nothing as changed (done before each update of all models).
    pub fn invalidate(&mut self)
        ensures
            !final(self).texture_creation_info_hash_changed,
            !final(self).string_changed,
            final(self).texture_creation_info_hash == old(self).texture_creation_info_hash,
            final(self).string@ == old(self).string@,
    {
        self.texture_creation_info_hash_changed = false;
        self.string_changed = false;
    }

    /// Takes in a model's new text and the hash of its texture source, recording what changed.
    pub fn update_with(&mut self, new_string: String, new_hash: u64)
        ensures
            final(self).texture_creation_info_hash == new_hash,
            final(self).texture_creation_info_hash_changed == (new_hash != old(self).texture_creation_info_hash),
            final(self).string_changed == (new_string@ != old(self).string@),
            final(self).string@ == new_string@,
    {
        self.texture_creation_info_hash_changed = new_hash != self.texture_creation_info_hash;
        self.texture_creation_info_hash = new_hash;
        self.string_changed = !str_equal(new_string.as_str(), self.string.as_str());
        if self.string_changed {
            self.string = new_string;
        }
    }

    /// Brings the entry up to date with `model` in the given age state: takes its new text,
    /// and hashes its texture source (see `texture_hash_key`). Returns the texture source and
    /// whether its hash changed (then its texture is to be fetched again); `None` for a spin
    /// whose image URL lacks `.com`, whose structure is then not the one expected.
    pub fn update<M: SpinitronModelWithProps>(&mut self, age_state: ModelAgeState, model: &M, size: (u32, u32)) -> (res: Option<(ModelTextureCreationInfo, bool)>)
        ensures
            match res {
                Some((info, changed)) => {
                    &&& texture_source(info) == model.texture_spec(age_state, size)
                    &&& changed == final(self).texture_creation_info_hash_changed
                    &&& changed == (final(self).texture_creation_info_hash != old(self).texture_creation_info_hash)
                    &&& final(self).string@ == model.text_spec(age_state)
                    &&& final(self).string_changed == (model.text_spec(age_state) != old(self).string@)
                },
                None => {
                    &&& M::name_spec() == SpinitronModelName::Spin
                    &&& model.texture_spec(age_state, size).0 == TextureSourceKind::Url
                    &&& after_first_dot_com(model.texture_spec(age_state, size).1) is None
                    &&& *final(self) == *old(self)
                },
            },
    {
        let new_string = model.to_string(age_state);
        let info = model.get_texture_creation_info(age_state, size);
        if M::model_name() == SpinitronModelName::Spin && is_url_without_dot_com(&info) {
            return None;
        }
        let key = texture_hash_source(&info);
        let hash = hash_obj(&key);
        self.update_with(new_string, hash);
        let changed = self.texture_creation_info_hash_changed;
        Some((info, changed))
    }
}

/// Brings a model's cached data up to date once its age state was recomputed (as `age`): the
/// cache is refreshed (see `ModelDataCacheEntry::update`) only when the model's id changed or
/// its age state just changed. Returns the texture source to fetch again, where the refresh
/// found that its hash changed (`Some(None)` where there is nothing to fetch); `None` for a spin
/// whose image URL lacks `.com`, whose structure is then not the one expected.
pub fn refresh_model_cache<M: SpinitronModelWithProps>(
    cache: &mut ModelDataCacheEntry,
    age: &ModelAgeData,
    model: &M,
    id_changed: bool,
    size: (u32, u32),
) -> (res: Option<Option<ModelTextureCreationInfo>>)
    ensures
        !(id_changed || age.just_updated_state) ==> res == Some(None::<ModelTextureCreationInfo>)
            && *final(cache) == *old(cache),
        (id_changed || age.just_updated_state) ==> match res {
            Some(fetch) => {
                &&& final(cache).string@ == model.text_spec(age.curr_age_state)
                &&& final(cache).string_changed == (model.text_spec(age.curr_age_state) != old(cache).string@)
                &&& final(cache).texture_creation_info_hash_changed == (final(cache).texture_creation_info_hash
                    != old(cache).texture_creation_info_hash)
                &&& (fetch is Some <==> final(cache).texture_creation_info_hash_changed)
                &&& match fetch {
                    Some(info) => texture_source(info) == model.texture_spec(age.curr_age_state, size),
                    None => true,
                }
            },
            None => {
                &&& M::name_spec() == SpinitronModelName::Spin
                &&& model.texture_spec(age.curr_age_state, size).0 == TextureSourceKind::Url
                &&& after_first_dot_com(model.texture_spec(age.curr_age_state, size).1) is None
                &&& *final(cache) == *old(cache)
            },
        },
{
    if !(id_changed || age.just_updated_state) {
        return Some(None);
    }
    match cache.update(age.curr_age_state, model, size) {
        Some((info, changed)) => {
            if changed {
                Some(Some(info))
            } else {
                Some(None)
            }
        },
        None => None,
    }
}

//////////

/// The two Spinitron API addresses, tried in order: the station's proxy, then Spinitron's own.
pub fn spinitron_base_urls() -> (res: (&'static str, &'static str))
    ensures
        res.0@ == "https://api-1.wbor.org/api"@,
        res.1@ == "https://spinitron.com/api"@,
{
    ("https://api-1.wbor.org/api", "https://spinitron.com/api")
}

/// The path and query of a Spinitron API request: the endpoint, then the model id if one is
/// asked for; the access token and the fields to return, then the number of items if given.
pub fn spinitron_request_params(
    api_endpoint: &str,
    api_key: &str,
    joined_fields: &str,
    maybe_model_id: Option<u32>,
    maybe_item_count: Option<usize>,
) -> (res: (Vec<String>, Vec<(String, String)>))
    ensures
        res.0@.map_values(|p: String| p@) == seq![api_endpoint@] + match maybe_model_id {
            Some(id) => seq![decimal_spec(id as nat)],
            None => Seq::empty(),
        },
        res.1@.map_values(|q: (String, String)| (q.0@, q.1@)) == seq![("access-token"@, api_key@), ("fields"@, joined_fields@)]
            + match maybe_item_count {
            Some(count) => seq![("count"@, decimal_spec(count as nat))],
            None => Seq::empty(),
        },
{
    let mut path_params: Vec<String> = Vec::new();
    path_params.push(String::from_str(api_endpoint));
    let mut query_params: Vec<(String, String)> = Vec::new();
    query_params.push((String::from_str("access-token"), String::from_str(api_key)));
    query_params.push((String::from_str("fields"), String::from_str(joined_fields)));
    match maybe_model_id {
        Some(id) => {
            let mut id_text = String::new();
            push_decimal(&mut id_text, id as u64);
            path_params.push(id_text);
        },
        None => {},
    }
    match maybe_item_count {
        Some(count) => {
            let mut count_text = String::new();
            push_decimal(&mut count_text, count as u64);
            query_params.push((String::from_str("count"), count_text));
        },
        None => {},
    }
    proof {
        assert(path_params@.map_values(|p: String| p@) =~= seq![api_endpoint@] + match maybe_model_id {
            Some(id) => seq![decimal_spec(id as nat)],
            None => Seq::empty(),
        });
        assert(query_params@.map_values(|q: (String, String)| (q.0@, q.1@)) =~= seq![("access-token"@, api_key@), ("fields"@, joined_fields@)]
            + match maybe_item_count {
            Some(count) => seq![("count"@, decimal_spec(count as nat))],
            None => Seq::empty(),
        });
    }
    (path_params, query_params)
}

/// A character in lower case, for ASCII letters (others stay as they are).
pub open spec fn ascii_lowercase(c: char) -> char {
    if 'A' <= c && c <= 'Z' {
        ((c as u32) + 32) as char
    } else {
        c
    }
}

/// The part of a type's full name after its last colon.
pub open spec fn last_path_segment(full_typename: Seq<char>) -> Seq<char> {
    let i = choose|i: int| 0 <= i < full_typename.len() && full_typename[i] == ':'
        && forall|j: int| i < j < full_typename.len() ==> full_typename[j] != ':';
    full_typename.subrange(i + 1, full_typename.len() as int)
}

/// A full type name that ends in a segment after a colon, whose first character is ASCII.
pub open spec fn is_model_typename(full_typename: Seq<char>) -> bool {
    &&& exists|i: int| 0 <= i < full_typename.len() && full_typename[i] == ':'
    &&& last_path_segment(full_typename).len() > 0
    &&& (last_path_segment(full_typename)[0] as u32) < 128
}

/// The API endpoint of a model type: its name with a lower-case first letter, plus `s`
/// (`Spin` gives `spins`).
pub open spec fn api_endpoint_spec(full_typename: Seq<char>) -> Seq<char> {
    let name = last_path_segment(full_typename);
    seq![ascii_lowercase(name[0])] + name.drop_first() + "s"@
}

/// The endpoints that the Spinitron API has.
pub open spec fn is_valid_api_endpoint(endpoint: Seq<char>) -> bool {
    endpoint == "spins"@ || endpoint == "playlists"@ || endpoint == "personas"@ || endpoint == "shows"@
}

fn last_colon(full_typename: &str) -> (res: Option<usize>)
    ensures
        match res {
            Some(i) => i < full_typename@.len() && full_typename@[i as int] == ':' && forall|j: int|
                i < j < full_typename@.len() ==> full_typename@[j] != ':',
            None => forall|j: int| 0 <= j < full_typename@.len() ==> full_typename@[j] != ':',
        },
{
    let n = full_typename.unicode_len();
    let mut i: usize = n;
    while i > 0
        invariant
            n == full_typename@.len(),
            i <= n,
            forall|j: int| i <= j < n ==> full_typename@[j] != ':',
        decreases i,
    {
        if full_typename.get_char(i - 1) == ':' {
            return Some(i - 1);
        }
        i = i - 1;
    }
    None
}

proof fn lemma_last_colon(full_typename: Seq<char>, i: int)
    requires
        0 <= i < full_typename.len(),
        full_typename[i] == ':',
        forall|j: int| i < j < full_typename.len() ==> full_typename[j] != ':',
    ensures
        last_path_segment(full_typename) == full_typename.subrange(i + 1, full_typename.len() as int),
{
    let k = choose|k: int| 0 <= k < full_typename.len() && full_typename[k] == ':'
        && forall|j: int| k < j < full_typename.len() ==> full_typename[j] != ':';
    if k < i {
        assert(full_typename[i] != ':');
    } else if i < k {
        assert(full_typename[k] != ':');
    }
}

/// The API endpoint of a model type, from its full name (see `api_endpoint_spec`); `None` if
/// the name has no segment after a colon that starts with an ASCII character, or gives an
/// endpoint that the Spinitron API does not have.
pub fn api_endpoint_from_typename(full_typename: &str) -> (res: Option<String>)
    ensures
        match res {
            Some(e) => is_model_typename(full_typename@) && e@ == api_endpoint_spec(full_typename@)
                && is_valid_api_endpoint(e@),
            None => !is_model_typename(full_typename@) || !is_valid_api_endpoint(api_endpoint_spec(full_typename@)),
        },
{
    let n = full_typename.unicode_len();
    match last_colon(full_typename) {
        None => {
            proof {
                assert(!(exists|i: int| 0 <= i < full_typename@.len() && full_typename@[i] == ':'));
            }
            None
        },
        Some(i) => {
            proof {
                lemma_last_colon(full_typename@, i as int);
            }
            if i + 1 >= n {
                return None;
            }
            let first = full_typename.get_char(i + 1);
            if (first as u32) >= 128 {
                return None;
            }
            let lower = if 'A' <= first && first <= 'Z' {
                ((first as u8) + 32) as char
            } else {
                first
            };
            let mut endpoint = String::new();
            crate::text::push_char(&mut endpoint, lower);
            push_str(&mut endpoint, full_typename.substring_char(i + 2, n));
            push_str(&mut endpoint, "s");
            proof {
                let name = last_path_segment(full_typename@);
                assert(name[0] == first);
                assert(name.drop_first() =~= full_typename@.subrange(i + 2, n as int));
                assert(lower == ascii_lowercase(first)) by {
                    if 'A' <= first && first <= 'Z' {
                        assert(((first as u8) + 32) as char == ((first as u32) + 32) as char);
                    }
                }
                assert(endpoint@ =~= api_endpoint_spec(full_typename@));
            }
            let valid = str_equal(endpoint.as_str(), "spins") || str_equal(endpoint.as_str(), "playlists")
                || str_equal(endpoint.as_str(), "personas") || str_equal(endpoint.as_str(), "shows");
            if valid {
                Some(endpoint)
            } else {
                None
            }
        },
    }
}

/// What a Spinitron end time field reads as: no field (`None`) and an empty one give no end
/// time; otherwise the timestamp, or `Err` if it does not parse.
pub open spec fn maybe_spinitron_timestamp_spec(text: Option<Seq<char>>) -> Result<Option<i64>, ()> {
    match text {
        None => Ok(None),
        Some(t) => if t.len() == 0 {
            Ok(None)
        } else {
            match rfc3339_instant(spinitron_timestamp_fixup(t)) {
                Some(v) => Ok(Some(v)),
                None => Err(()),
            }
        },
    }
}

/// Reads a Spinitron end time field, which may be missing or empty (see
/// `maybe_spinitron_timestamp_spec`).
pub fn parse_maybe_spinitron_timestamp(text: Option<&str>) -> (res: Result<Option<i64>, ()>)
    requires
        match text {
            Some(t) => t@.len() == 0 || is_fixable_spinitron_timestamp(t@),
            None => true,
        },
    ensures
        res == maybe_spinitron_timestamp_spec(match text {
            Some(t) => Some(t@),
            None => None,
        }),
{
    match text {
        None => Ok(None),
        Some(t) => {
            if t.unicode_len() == 0 {
                Ok(None)
            } else {
                match parse_spinitron_timestamp(t) {
                    Some(v) => Ok(Some(v)),
                    None => Err(()),
                }
            }
        },
    }
}

/// Whether the show is fetched again: shows are scheduled on the hour and the half hour, so at
/// minutes 0 and 30, and when no show was fetched yet (its id is 0).
pub fn should_refresh_show(curr_minutes: u32, old_show_id: u32) -> (res: bool)
    ensures
        res == (curr_minutes == 0 || curr_minutes == 30 || old_show_id == 0),
{
    curr_minutes == 0 || curr_minutes == 30 || old_show_id == 0
}

/// What is left to do for the spin history once its kept spins are known: the keys of the
/// kept spins whose textures are to be made again, and the positions (among the spins that the
/// API returned) of the spins that get a new entry.
pub struct SpinHistoryPlan {
    pub remake: Vec<u128>,
    pub add: Vec<usize>,
}

/// Brings the spin history in step with the spins that the API returned, whose keys (spin ids)
/// are `keys`, in order: spins do not expire, so the history keeps exactly the spins among
/// them (each re-indexed to its first position), and plans the rest. When the true texture
/// size was just found, every kept spin is remade; otherwise none is. Each position whose key
/// is new (and first occurs there) gets an entry, in increasing order.
pub fn spin_history_plan<N, I>(list: &mut ApiHistoryList<N, I>, keys: &Vec<u128>, just_found_true_size: bool) -> (plan: SpinHistoryPlan)
    requires
        old(list).wf(),
    ensures
        final(list).wf(),
        final(list).max_items_spec() == old(list).max_items_spec(),
        forall|k: u128| #[trigger] final(list)@.contains_key(k) <==> (old(list)@.contains_key(k) && keys@.contains(k)),
        forall|k: u128|
            #![trigger final(list)@[k]]
            final(list)@.contains_key(k) ==> final(list)@[k] == retained_entry(old(list)@[k], keys@),
        forall|k: u128|
            #![trigger final(list)@[k]]
            final(list)@.contains_key(k) ==> is_first_position(keys@, k, final(list)@[k].index as int),
        plan.remake@.no_duplicates(),
        forall|k: u128| #[trigger] plan.remake@.contains(k) <==> (just_found_true_size && final(list)@.contains_key(k)),
        forall|i: int, j: int| 0 <= i < j < plan.add@.len() ==> plan.add@[i] < plan.add@[j],
        forall|i: int| 0 <= i < plan.add@.len() ==> is_missing_position(keys@, final(list)@, #[trigger] plan.add@[i] as int),
        forall|q: int| #[trigger] is_missing_position(keys@, final(list)@, q) ==> plan.add@.contains(q as usize),
{
    list.retain_present_keys(keys);
    let remake = if just_found_true_size {
        list.keys()
    } else {
        Vec::new()
    };
    let add = list.missing_key_positions(keys);
    SpinHistoryPlan { remake, add }
}

} // verus!
