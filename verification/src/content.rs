//! Mod platform integration: the kinds of content, where downloads go, and
//! the Modrinth (Labrinth API v2) requests and replies as plain values.
//!
//! Downloads go straight into the game directory the way the vanilla
//! launcher lays out files: `mods/`, `resourcepacks/`, `saves/<name>/`.
use vstd::prelude::*;

use crate::text::{
    dec, join_strings, path_join, join_with, push_dec, push_str_chars, string_of, string_views, to_chars, trim,
    trim_str, slice_chars,
};

verus! {

broadcast use vstd::std_specs::vec::group_vec_axioms, vstd::seq::group_seq_axioms;

/// The kind of downloadable content.
#[derive(Debug, Clone, Copy, PartialEq, Eq, Structural)]
pub enum ContentKind {
    Mod,
    ResourcePack,
    DataPack,
    Shader,
    Plugin,
    Modpack,
    Server,
    World,
}

impl Default for ContentKind {
    fn default() -> (r: ContentKind)
        ensures
            r == ContentKind::Mod,
    {
        ContentKind::Mod
    }
}

impl ContentKind {
    pub fn label(self) -> (r: &'static str)
        ensures
            r@ == match self {
                ContentKind::Mod => "Mods"@,
                ContentKind::ResourcePack => "Resource Packs"@,
                ContentKind::DataPack => "Data Packs"@,
                ContentKind::Shader => "Shaders"@,
                ContentKind::Plugin => "Plugins"@,
                ContentKind::Modpack => "Modpacks"@,
                ContentKind::Server => "Servers"@,
                ContentKind::World => "Worlds"@,
            },
    {
        match self {
            ContentKind::Mod => "Mods",
            ContentKind::ResourcePack => "Resource Packs",
            ContentKind::DataPack => "Data Packs",
            ContentKind::Shader => "Shaders",
            ContentKind::Plugin => "Plugins",
            ContentKind::Modpack => "Modpacks",
            ContentKind::Server => "Servers",
            ContentKind::World => "Worlds",
        }
    }

    pub open spec fn modrinth_type_spec(self) -> Seq<char> {
        match self {
            ContentKind::Mod => "mod"@,
            ContentKind::ResourcePack => "resourcepack"@,
            ContentKind::DataPack => "datapack"@,
            ContentKind::Shader => "shader"@,
            ContentKind::Plugin => "plugin"@,
            ContentKind::Modpack => "modpack"@,
            ContentKind::Server => "plugin"@,
            ContentKind::World => "world"@,
        }
    }

    /// The Modrinth `project_type` facet value. Modrinth has no server
    /// project type: servers are browsed as plugins.
    pub fn modrinth_type(self) -> (r: &'static str)
        ensures
            r@ == self.modrinth_type_spec(),
    {
        match self {
            ContentKind::Mod => "mod",
            ContentKind::ResourcePack => "resourcepack",
            ContentKind::DataPack => "datapack",
            ContentKind::Shader => "shader",
            ContentKind::Plugin => "plugin",
            ContentKind::Modpack => "modpack",
            ContentKind::Server => "plugin",
            ContentKind::World => "world",
        }
    }

    /// Whether downloads of this kind go to the user's Downloads folder
    /// instead of the game directory (server-side things, packs whose
    /// in-game folders are managed manually).
    pub fn goes_to_downloads(self) -> (r: bool)
        ensures
            r == (self == ContentKind::DataPack || self == ContentKind::Shader || self
                == ContentKind::Plugin || self == ContentKind::Server),
    {
        match self {
            ContentKind::DataPack | ContentKind::Shader | ContentKind::Plugin | ContentKind::Server => true,
            _ => false,
        }
    }

    pub open spec fn dest_dir_spec(self) -> Seq<char> {
        match self {
            ContentKind::Mod => "mods"@,
            ContentKind::ResourcePack => "resourcepacks"@,
            ContentKind::World => "saves"@,
            ContentKind::Modpack => "versions"@,
            _ => "downloads"@,
        }
    }

    /// The destination directory inside the game dir (modpacks unpack into
    /// their own `versions/<id>` dir at install).
    pub fn dest_dir(self) -> (r: &'static str)
        ensures
            r@ == self.dest_dir_spec(),
    {
        match self {
            ContentKind::Mod => "mods",
            ContentKind::ResourcePack => "resourcepacks",
            ContentKind::World => "saves",
            ContentKind::Modpack => "versions",
            _ => "downloads",
        }
    }

    /// Whether the kind is loader-specific (mods are; packs are not).
    pub fn uses_loader(self) -> (r: bool)
        ensures
            r == (self == ContentKind::Mod),
    {
        self == ContentKind::Mod
    }
}

/// Modrinth search sort orders (the five the site offers).
#[derive(Debug, Clone, Copy, PartialEq, Eq, Structural)]
pub enum SortIndex {
    Relevance,
    Downloads,
    Follows,
    Newest,
    Updated,
}

impl Default for SortIndex {
    fn default() -> (r: SortIndex)
        ensures
            r == SortIndex::Relevance,
    {
        SortIndex::Relevance
    }
}

impl SortIndex {
    pub fn label(self) -> (r: &'static str)
        ensures
            r@ == match self {
                SortIndex::Relevance => "Relevance"@,
                SortIndex::Downloads => "Downloads"@,
                SortIndex::Follows => "Follows"@,
                SortIndex::Newest => "Newest"@,
                SortIndex::Updated => "Updated"@,
            },
    {
        match self {
            SortIndex::Relevance => "Relevance",
            SortIndex::Downloads => "Downloads",
            SortIndex::Follows => "Follows",
            SortIndex::Newest => "Newest",
            SortIndex::Updated => "Updated",
        }
    }

    pub open spec fn param_spec(self) -> Seq<char> {
        match self {
            SortIndex::Relevance => "relevance"@,
            SortIndex::Downloads => "downloads"@,
            SortIndex::Follows => "follows"@,
            SortIndex::Newest => "newest"@,
            SortIndex::Updated => "updated"@,
        }
    }

    /// The `index=` query value.
    pub fn param(self) -> (r: &'static str)
        ensures
            r@ == self.param_spec(),
    {
        match self {
            SortIndex::Relevance => "relevance",
            SortIndex::Downloads => "downloads",
            SortIndex::Follows => "follows",
            SortIndex::Newest => "newest",
            SortIndex::Updated => "updated",
        }
    }
}

pub open spec fn category_list(kind: ContentKind) -> Seq<Seq<char>> {
    match kind {
        ContentKind::Mod => seq![
            "adventure"@, "optimization"@, "gameplay"@, "storage"@, "food"@, "furniture"@,
            "library"@, "magic"@, "mobs"@, "technology"@, "transportation"@, "utility"@,
            "worldgen"@,
        ],
        ContentKind::ResourcePack => seq![
            "8x-"@, "16x"@, "32x"@, "64x"@, "128x"@, "256x"@, "512x+"@, "simplistic"@,
            "realistic"@, "themed"@, "vanilla-like"@, "fonts"@, "gui"@, "medieval"@,
        ],
        ContentKind::DataPack => seq![
            "adventure"@, "gameplay"@, "technology"@, "utility"@, "worldgen"@,
        ],
        ContentKind::Shader => seq![
            "cartoon"@, "cursed"@, "fantasy"@, "realistic"@, "semi-realistic"@,
            "vanilla-like"@, "potato"@, "low"@, "medium"@, "high"@, "screenshot"@,
        ],
        ContentKind::Plugin => seq![
            "chat"@, "dev-tools"@, "economy"@, "gameplay"@, "management"@, "mechanics"@,
            "protection"@, "utility"@,
        ],
        ContentKind::Modpack => seq![
            "adventure"@, "challenging"@, "combat"@, "expert"@, "fps"@, "hrm"@, "light"@,
            "multiplayer"@, "optimization"@, "quests"@, "skyblock"@, "small"@, "technology"@,
        ],
        _ => Seq::empty(),
    }
}

/// The mod-loader tags, which have a filter of their own.
pub open spec fn loader_tags() -> Seq<Seq<char>> {
    seq!["fabric"@, "forge"@, "quilt"@, "neoforge"@]
}

proof fn lemma_loader_tags()
    ensures
        loader_tags().len() == 4,
        loader_tags()[0].len() == 6 && loader_tags()[0][0] == 'f' && loader_tags()[0][1] == 'a' && loader_tags()[0][2] == 'b',
        loader_tags()[1].len() == 5 && loader_tags()[1][0] == 'f' && loader_tags()[1][1] == 'o' && loader_tags()[1][2] == 'r',
        loader_tags()[2].len() == 5 && loader_tags()[2][0] == 'q' && loader_tags()[2][1] == 'u' && loader_tags()[2][2] == 'i',
        loader_tags()[3].len() == 8 && loader_tags()[3][0] == 'n' && loader_tags()[3][1] == 'e' && loader_tags()[3][2] == 'o',
{
    reveal_strlit("fabric");
    reveal_strlit("forge");
    reveal_strlit("quilt");
    reveal_strlit("neoforge");
}

proof fn lemma_categories_mod()
    ensures
        ({
            let c = category_list(ContentKind::Mod);
            &&& forall|a: int, b: int| 0 <= a < b < c.len() ==> (#[trigger] c[a]) != (#[trigger] c[b])
            &&& forall|a: int| 0 <= a < c.len() ==> !loader_tags().contains(#[trigger] c[a])
        }),
{
    reveal_strlit("adventure");
    reveal_strlit("optimization");
    reveal_strlit("gameplay");
    reveal_strlit("storage");
    reveal_strlit("food");
    reveal_strlit("furniture");
    reveal_strlit("library");
    reveal_strlit("magic");
    reveal_strlit("mobs");
    reveal_strlit("technology");
    reveal_strlit("transportation");
    reveal_strlit("utility");
    reveal_strlit("worldgen");
    let c = category_list(ContentKind::Mod);
    lemma_loader_tags();
    assert(c[0].len() == 9 && c[0][0] == 'a' && c[0][1] == 'd' && c[0][2] == 'v');
    assert(c[1].len() == 12 && c[1][0] == 'o' && c[1][1] == 'p' && c[1][2] == 't');
    assert(c[2].len() == 8 && c[2][0] == 'g' && c[2][1] == 'a' && c[2][2] == 'm');
    assert(c[3].len() == 7 && c[3][0] == 's' && c[3][1] == 't' && c[3][2] == 'o');
    assert(c[4].len() == 4 && c[4][0] == 'f' && c[4][1] == 'o' && c[4][2] == 'o');
    assert(c[5].len() == 9 && c[5][0] == 'f' && c[5][1] == 'u' && c[5][2] == 'r');
    assert(c[6].len() == 7 && c[6][0] == 'l' && c[6][1] == 'i' && c[6][2] == 'b');
    assert(c[7].len() == 5 && c[7][0] == 'm' && c[7][1] == 'a' && c[7][2] == 'g');
    assert(c[8].len() == 4 && c[8][0] == 'm' && c[8][1] == 'o' && c[8][2] == 'b');
    assert(c[9].len() == 10 && c[9][0] == 't' && c[9][1] == 'e' && c[9][2] == 'c');
    assert(c[10].len() == 14 && c[10][0] == 't' && c[10][1] == 'r' && c[10][2] == 'a');
    assert(c[11].len() == 7 && c[11][0] == 'u' && c[11][1] == 't' && c[11][2] == 'i');
    assert(c[12].len() == 8 && c[12][0] == 'w' && c[12][1] == 'o' && c[12][2] == 'r');
}

proof fn lemma_categories_resourcepack()
    ensures
        ({
            let c = category_list(ContentKind::ResourcePack);
            &&& forall|a: int, b: int| 0 <= a < b < c.len() ==> (#[trigger] c[a]) != (#[trigger] c[b])
            &&& forall|a: int| 0 <= a < c.len() ==> !loader_tags().contains(#[trigger] c[a])
        }),
{
    reveal_strlit("8x-");
    reveal_strlit("16x");
    reveal_strlit("32x");
    reveal_strlit("64x");
    reveal_strlit("128x");
    reveal_strlit("256x");
    reveal_strlit("512x+");
    reveal_strlit("simplistic");
    reveal_strlit("realistic");
    reveal_strlit("themed");
    reveal_strlit("vanilla-like");
    reveal_strlit("fonts");
    reveal_strlit("gui");
    reveal_strlit("medieval");
    let c = category_list(ContentKind::ResourcePack);
    lemma_loader_tags();
    assert(c[0].len() == 3 && c[0][0] == '8' && c[0][1] == 'x' && c[0][2] == '-');
    assert(c[1].len() == 3 && c[1][0] == '1' && c[1][1] == '6' && c[1][2] == 'x');
    assert(c[2].len() == 3 && c[2][0] == '3' && c[2][1] == '2' && c[2][2] == 'x');
    assert(c[3].len() == 3 && c[3][0] == '6' && c[3][1] == '4' && c[3][2] == 'x');
    assert(c[4].len() == 4 && c[4][0] == '1' && c[4][1] == '2' && c[4][2] == '8');
    assert(c[5].len() == 4 && c[5][0] == '2' && c[5][1] == '5' && c[5][2] == '6');
    assert(c[6].len() == 5 && c[6][0] == '5' && c[6][1] == '1' && c[6][2] == '2');
    assert(c[7].len() == 10 && c[7][0] == 's' && c[7][1] == 'i' && c[7][2] == 'm');
    assert(c[8].len() == 9 && c[8][0] == 'r' && c[8][1] == 'e' && c[8][2] == 'a');
    assert(c[9].len() == 6 && c[9][0] == 't' && c[9][1] == 'h' && c[9][2] == 'e');
    assert(c[10].len() == 12 && c[10][0] == 'v' && c[10][1] == 'a' && c[10][2] == 'n');
    assert(c[11].len() == 5 && c[11][0] == 'f' && c[11][1] == 'o' && c[11][2] == 'n');
    assert(c[12].len() == 3 && c[12][0] == 'g' && c[12][1] == 'u' && c[12][2] == 'i');
    assert(c[13].len() == 8 && c[13][0] == 'm' && c[13][1] == 'e' && c[13][2] == 'd');
}

proof fn lemma_categories_datapack()
    ensures
        ({
            let c = category_list(ContentKind::DataPack);
            &&& forall|a: int, b: int| 0 <= a < b < c.len() ==> (#[trigger] c[a]) != (#[trigger] c[b])
            &&& forall|a: int| 0 <= a < c.len() ==> !loader_tags().contains(#[trigger] c[a])
        }),
{
    reveal_strlit("adventure");
    reveal_strlit("gameplay");
    reveal_strlit("technology");
    reveal_strlit("utility");
    reveal_strlit("worldgen");
    let c = category_list(ContentKind::DataPack);
    lemma_loader_tags();
    assert(c[0].len() == 9 && c[0][0] == 'a' && c[0][1] == 'd' && c[0][2] == 'v');
    assert(c[1].len() == 8 && c[1][0] == 'g' && c[1][1] == 'a' && c[1][2] == 'm');
    assert(c[2].len() == 10 && c[2][0] == 't' && c[2][1] == 'e' && c[2][2] == 'c');
    assert(c[3].len() == 7 && c[3][0] == 'u' && c[3][1] == 't' && c[3][2] == 'i');
    assert(c[4].len() == 8 && c[4][0] == 'w' && c[4][1] == 'o' && c[4][2] == 'r');
}

proof fn lemma_categories_shader()
    ensures
        ({
            let c = category_list(ContentKind::Shader);
            &&& forall|a: int, b: int| 0 <= a < b < c.len() ==> (#[trigger] c[a]) != (#[trigger] c[b])
            &&& forall|a: int| 0 <= a < c.len() ==> !loader_tags().contains(#[trigger] c[a])
        }),
{
    reveal_strlit("cartoon");
    reveal_strlit("cursed");
    reveal_strlit("fantasy");
    reveal_strlit("realistic");
    reveal_strlit("semi-realistic");
    reveal_strlit("vanilla-like");
    reveal_strlit("potato");
    reveal_strlit("low");
    reveal_strlit("medium");
    reveal_strlit("high");
    reveal_strlit("screenshot");
    let c = category_list(ContentKind::Shader);
    lemma_loader_tags();
    assert(c[0].len() == 7 && c[0][0] == 'c' && c[0][1] == 'a' && c[0][2] == 'r');
    assert(c[1].len() == 6 && c[1][0] == 'c' && c[1][1] == 'u' && c[1][2] == 'r');
    assert(c[2].len() == 7 && c[2][0] == 'f' && c[2][1] == 'a' && c[2][2] == 'n');
    assert(c[3].len() == 9 && c[3][0] == 'r' && c[3][1] == 'e' && c[3][2] == 'a');
    assert(c[4].len() == 14 && c[4][0] == 's' && c[4][1] == 'e' && c[4][2] == 'm');
    assert(c[5].len() == 12 && c[5][0] == 'v' && c[5][1] == 'a' && c[5][2] == 'n');
    assert(c[6].len() == 6 && c[6][0] == 'p' && c[6][1] == 'o' && c[6][2] == 't');
    assert(c[7].len() == 3 && c[7][0] == 'l' && c[7][1] == 'o' && c[7][2] == 'w');
    assert(c[8].len() == 6 && c[8][0] == 'm' && c[8][1] == 'e' && c[8][2] == 'd');
    assert(c[9].len() == 4 && c[9][0] == 'h' && c[9][1] == 'i' && c[9][2] == 'g');
    assert(c[10].len() == 10 && c[10][0] == 's' && c[10][1] == 'c' && c[10][2] == 'r');
}

proof fn lemma_categories_plugin()
    ensures
        ({
            let c = category_list(ContentKind::Plugin);
            &&& forall|a: int, b: int| 0 <= a < b < c.len() ==> (#[trigger] c[a]) != (#[trigger] c[b])
            &&& forall|a: int| 0 <= a < c.len() ==> !loader_tags().contains(#[trigger] c[a])
        }),
{
    reveal_strlit("chat");
    reveal_strlit("dev-tools");
    reveal_strlit("economy");
    reveal_strlit("gameplay");
    reveal_strlit("management");
    reveal_strlit("mechanics");
    reveal_strlit("protection");
    reveal_strlit("utility");
    let c = category_list(ContentKind::Plugin);
    lemma_loader_tags();
    assert(c[0].len() == 4 && c[0][0] == 'c' && c[0][1] == 'h' && c[0][2] == 'a');
    assert(c[1].len() == 9 && c[1][0] == 'd' && c[1][1] == 'e' && c[1][2] == 'v');
    assert(c[2].len() == 7 && c[2][0] == 'e' && c[2][1] == 'c' && c[2][2] == 'o');
    assert(c[3].len() == 8 && c[3][0] == 'g' && c[3][1] == 'a' && c[3][2] == 'm');
    assert(c[4].len() == 10 && c[4][0] == 'm' && c[4][1] == 'a' && c[4][2] == 'n');
    assert(c[5].len() == 9 && c[5][0] == 'm' && c[5][1] == 'e' && c[5][2] == 'c');
    assert(c[6].len() == 10 && c[6][0] == 'p' && c[6][1] == 'r' && c[6][2] == 'o');
    assert(c[7].len() == 7 && c[7][0] == 'u' && c[7][1] == 't' && c[7][2] == 'i');
}

proof fn lemma_categories_modpack()
    ensures
        ({
            let c = category_list(ContentKind::Modpack);
            &&& forall|a: int, b: int| 0 <= a < b < c.len() ==> (#[trigger] c[a]) != (#[trigger] c[b])
            &&& forall|a: int| 0 <= a < c.len() ==> !loader_tags().contains(#[trigger] c[a])
        }),
{
    reveal_strlit("adventure");
    reveal_strlit("challenging");
    reveal_strlit("combat");
    reveal_strlit("expert");
    reveal_strlit("fps");
    reveal_strlit("hrm");
    reveal_strlit("light");
    reveal_strlit("multiplayer");
    reveal_strlit("optimization");
    reveal_strlit("quests");
    reveal_strlit("skyblock");
    reveal_strlit("small");
    reveal_strlit("technology");
    let c = category_list(ContentKind::Modpack);
    lemma_loader_tags();
    assert(c[0].len() == 9 && c[0][0] == 'a' && c[0][1] == 'd' && c[0][2] == 'v');
    assert(c[1].len() == 11 && c[1][0] == 'c' && c[1][1] == 'h' && c[1][2] == 'a');
    assert(c[2].len() == 6 && c[2][0] == 'c' && c[2][1] == 'o' && c[2][2] == 'm');
    assert(c[3].len() == 6 && c[3][0] == 'e' && c[3][1] == 'x' && c[3][2] == 'p');
    assert(c[4].len() == 3 && c[4][0] == 'f' && c[4][1] == 'p' && c[4][2] == 's');
    assert(c[5].len() == 3 && c[5][0] == 'h' && c[5][1] == 'r' && c[5][2] == 'm');
    assert(c[6].len() == 5 && c[6][0] == 'l' && c[6][1] == 'i' && c[6][2] == 'g');
    assert(c[7].len() == 11 && c[7][0] == 'm' && c[7][1] == 'u' && c[7][2] == 'l');
    assert(c[8].len() == 12 && c[8][0] == 'o' && c[8][1] == 'p' && c[8][2] == 't');
    assert(c[9].len() == 6 && c[9][0] == 'q' && c[9][1] == 'u' && c[9][2] == 'e');
    assert(c[10].len() == 8 && c[10][0] == 's' && c[10][1] == 'k' && c[10][2] == 'y');
    assert(c[11].len() == 5 && c[11][0] == 's' && c[11][1] == 'm' && c[11][2] == 'a');
    assert(c[12].len() == 10 && c[12][0] == 't' && c[12][1] == 'e' && c[12][2] == 'c');
}

/// The category chips of a content kind hold no tag twice and no loader
/// tag; worlds and servers offer none.
pub proof fn lemma_categories_shape(kind: ContentKind)
    ensures
        ({
            let c = category_list(kind);
            &&& forall|a: int, b: int| 0 <= a < b < c.len() ==> (#[trigger] c[a]) != (#[trigger] c[b])
            &&& forall|a: int| 0 <= a < c.len() ==> !loader_tags().contains(#[trigger] c[a])
        }),
        kind == ContentKind::World || kind == ContentKind::Server ==> category_list(kind).len() == 0,
{
    match kind {
        ContentKind::Mod => lemma_categories_mod(),
        ContentKind::ResourcePack => lemma_categories_resourcepack(),
        ContentKind::DataPack => lemma_categories_datapack(),
        ContentKind::Shader => lemma_categories_shader(),
        ContentKind::Plugin => lemma_categories_plugin(),
        ContentKind::Modpack => lemma_categories_modpack(),
        _ => {},
    }
}

pub open spec fn str_views(v: Seq<&str>) -> Seq<Seq<char>> {
    v.map_values(|x: &str| x@)
}

/// Category chips offered per content kind (Modrinth tags). Loaders are
/// handled by the dedicated loader filter and not repeated here.
pub fn categories_for(kind: ContentKind) -> (r: Vec<&'static str>)
    ensures
        str_views(r@) == category_list(kind),
{
    let r: Vec<&'static str> = match kind {
        ContentKind::Mod => vec![
            "adventure", "optimization", "gameplay", "storage", "food", "furniture", "library",
            "magic", "mobs", "technology", "transportation", "utility", "worldgen",
        ],
        ContentKind::ResourcePack => vec![
            "8x-", "16x", "32x", "64x", "128x", "256x", "512x+", "simplistic", "realistic",
            "themed", "vanilla-like", "fonts", "gui", "medieval",
        ],
        ContentKind::DataPack => vec!["adventure", "gameplay", "technology", "utility", "worldgen"],
        ContentKind::Shader => vec![
            "cartoon", "cursed", "fantasy", "realistic", "semi-realistic", "vanilla-like",
            "potato", "low", "medium", "high", "screenshot",
        ],
        ContentKind::Plugin => vec![
            "chat", "dev-tools", "economy", "gameplay", "management", "mechanics", "protection",
            "utility",
        ],
        ContentKind::Modpack => vec![
            "adventure", "challenging", "combat", "expert", "fps", "hrm", "light", "multiplayer",
            "optimization", "quests", "skyblock", "small", "technology",
        ],
        _ => Vec::new(),
    };
    assert(str_views(r@) =~= category_list(kind));
    r
}

// ---------------------------------------------------------------------------
// URLs
// ---------------------------------------------------------------------------

/// The bytes that stay as they are in a query component.
pub open spec fn unreserved(b: u8) -> bool {
    (65 <= b <= 90) || (97 <= b <= 122) || (48 <= b <= 57) || b == 45 || b == 95 || b == 46 || b
        == 126
}

/// An uppercase hexadecimal digit.
pub open spec fn hex_digit(n: u8) -> char {
    if n < 10 {
        (48 + n) as char
    } else {
        (55 + n) as char
    }
}

/// One byte of a query component: itself when unreserved, else `%XX`.
pub open spec fn encode_byte(b: u8) -> Seq<char> {
    if unreserved(b) {
        seq![b as char]
    } else {
        seq!['%', hex_digit(b / 16), hex_digit(b % 16)]
    }
}

pub open spec fn url_encoded(bytes: Seq<u8>) -> Seq<char>
    decreases bytes.len(),
{
    if bytes.len() == 0 {
        Seq::empty()
    } else {
        url_encoded(bytes.drop_last()) + encode_byte(bytes.last())
    }
}

/// `s` percent-encoded byte by byte over its UTF-8 encoding.
pub open spec fn urlquery_spec(s: Seq<char>) -> Seq<char> {
    url_encoded(vstd::utf8::encode_utf8(s))
}

fn hex_digit_exec(n: u8) -> (c: char)
    requires
        n < 16,
    ensures
        c == hex_digit(n),
{
    if n < 10 {
        (48 + n) as char
    } else {
        (55 + n) as char
    }
}

/// Appends `s` percent-encoded to `out`.
fn push_urlquery(out: &mut Vec<char>, s: &str)
    ensures
        final(out)@ == old(out)@ + urlquery_spec(s@),
{
    let bytes = s.as_bytes();
    let mut i: usize = 0;
    while i < bytes.len()
        invariant
            i <= bytes.len(),
            bytes@ == vstd::utf8::encode_utf8(s@),
            out@ == old(out)@ + url_encoded(bytes@.take(i as int)),
        decreases bytes.len() - i,
    {
        let b = bytes[i];
        assert(bytes@.take(i + 1).drop_last() =~= bytes@.take(i as int));
        let ghost o0 = out@;
        if (65 <= b && b <= 90) || (97 <= b && b <= 122) || (48 <= b && b <= 57) || b == 45 || b == 95
            || b == 46 || b == 126 {
            out.push(b as char);
        } else {
            out.push('%');
            out.push(hex_digit_exec(b / 16));
            out.push(hex_digit_exec(b % 16));
        }
        assert(out@ =~= o0 + encode_byte(b));
        i += 1;
        assert(out@ =~= old(out)@ + url_encoded(bytes@.take(i as int)));
    }
    assert(bytes@.take(bytes.len() as int) =~= bytes@);
}

/// Percent-encode the query-component characters that break URLs.
pub fn urlquery(s: &str) -> (r: String)
    ensures
        r@ == urlquery_spec(s@),
{
    let mut out: Vec<char> = Vec::new();
    push_urlquery(&mut out, s);
    string_of(out.as_slice())
}

/// What a Modrinth search asks for.
#[derive(Debug, Clone)]
pub struct SearchQuery {
    pub kind: ContentKind,
    pub query: String,
    /// Minecraft version filter (blank for any).
    pub mc: String,
    pub loader: Option<String>,
    /// Category tags, OR-combined.
    pub categories: Vec<String>,
    pub license: Option<String>,
    pub sort: SortIndex,
    pub limit: usize,
}

pub open spec fn quoted_facet(name: Seq<char>, value: Seq<char>) -> Seq<char> {
    "\""@ + name + ":"@ + urlquery_spec(value) + "\""@
}

/// The facet groups of a search: one group per dimension; values inside a
/// group are OR-combined, groups AND-combined.
pub open spec fn search_facets(q: SearchQuery) -> Seq<Seq<char>> {
    let f0 = seq!["[\"project_type:"@ + q.kind.modrinth_type_spec() + "\"]"@];
    let f1 = if trim(q.mc@).len() > 0 {
        f0.push("["@ + quoted_facet("versions"@, trim(q.mc@)) + "]"@)
    } else {
        f0
    };
    let f2 = match q.loader {
        Some(l) => if q.kind == ContentKind::Mod || q.kind == ContentKind::Plugin {
            f1.push("["@ + quoted_facet("categories"@, l@) + "]"@)
        } else {
            f1
        },
        None => f1,
    };
    let f3 = if q.categories.len() > 0 {
        f2.push(
            "["@ + join_with(
                q.categories@.map_values(|c: String| quoted_facet("categories"@, c@)),
                ","@,
            ) + "]"@,
        )
    } else {
        f2
    };
    match q.license {
        Some(l) => if trim(l@).len() > 0 {
            f3.push("["@ + quoted_facet("license"@, trim(l@)) + "]"@)
        } else {
            f3
        },
        None => f3,
    }
}

/// The facet groups of a search: the project type first, then one group
/// each for a non-blank game version, a loader (mods and plugins only), the
/// chosen categories and a non-blank license. The categories group holds
/// `"categories:<c>"` for each chosen category `c` (URL-encoded), in order.
pub proof fn lemma_search_facet_groups(q: SearchQuery)
    ensures
        ({
            let f = search_facets(q);
            let n_mc: int = if trim(q.mc@).len() > 0 { 1 } else { 0 };
            let n_loader: int = if q.loader is Some && (q.kind == ContentKind::Mod || q.kind
                == ContentKind::Plugin) {
                1
            } else {
                0
            };
            let n_cat: int = if q.categories.len() > 0 { 1 } else { 0 };
            let n_lic: int = if q.license is Some && trim(q.license->0@).len() > 0 { 1 } else { 0 };
            &&& f.len() == 1 + n_mc + n_loader + n_cat + n_lic
            &&& f[0] == "[\"project_type:"@ + q.kind.modrinth_type_spec() + "\"]"@
            &&& n_mc == 1 ==> f[1] == "[\"versions:"@ + urlquery_spec(trim(q.mc@)) + "\"]"@
            &&& n_loader == 1 ==> f[1 + n_mc] == "[\"categories:"@ + urlquery_spec(q.loader->0@) + "\"]"@
            &&& q.categories.len() > 0 ==> f[1 + n_mc + n_loader] == "["@ + join_with(
                q.categories@.map_values(|c: String| "\"categories:"@ + urlquery_spec(c@) + "\""@),
                ","@,
            ) + "]"@
            &&& n_lic == 1 ==> f[1 + n_mc + n_loader + n_cat] == "[\"license:"@ + urlquery_spec(
                trim(q.license->0@),
            ) + "\"]"@
        }),
{
    reveal_strlit("\"categories:");
    reveal_strlit("\"");
    reveal_strlit("categories");
    reveal_strlit(":");
    reveal_strlit("[");
    reveal_strlit("]");
    reveal_strlit("\"]");
    reveal_strlit("[\"versions:");
    reveal_strlit("versions");
    reveal_strlit("[\"categories:");
    reveal_strlit("[\"license:");
    reveal_strlit("license");
    let mc = trim(q.mc@);
    assert("["@ + quoted_facet("versions"@, mc) + "]"@ =~= "[\"versions:"@ + urlquery_spec(mc) + "\"]"@);
    if q.loader is Some {
        let l = q.loader->0@;
        assert("["@ + quoted_facet("categories"@, l) + "]"@ =~= "[\"categories:"@ + urlquery_spec(l)
            + "\"]"@);
    }
    if q.license is Some {
        let l = trim(q.license->0@);
        assert("["@ + quoted_facet("license"@, l) + "]"@ =~= "[\"license:"@ + urlquery_spec(l) + "\"]"@);
    }
    let a = q.categories@.map_values(|c: String| quoted_facet("categories"@, c@));
    let b = q.categories@.map_values(|c: String| "\"categories:"@ + urlquery_spec(c@) + "\""@);
    assert forall|i: int| 0 <= i < a.len() implies a[i] == b[i] by {
        let u = urlquery_spec(q.categories@[i]@);
        assert("\""@ + "categories"@ + ":"@ + u + "\""@ =~= "\"categories:"@ + u + "\""@);
    }
    assert(a =~= b);
}

/// The Labrinth search URL of a query.
pub open spec fn search_url_spec(q: SearchQuery) -> Seq<char> {
    let base = "https://api.modrinth.com/v2/search?limit="@ + dec(q.limit as nat) + "&index="@
        + q.sort.param_spec() + "&facets=%5B"@ + urlquery_spec(join_with(search_facets(q), ","@))
        + "%5D"@;
    if trim(q.query@).len() > 0 {
        base + "&query="@ + urlquery_spec(trim(q.query@))
    } else {
        base
    }
}

fn quoted_facet_exec(name: &str, value: &str) -> (r: String)
    ensures
        r@ == quoted_facet(name@, value@),
{
    let mut out: Vec<char> = Vec::new();
    push_str_chars(&mut out, "\"");
    push_str_chars(&mut out, name);
    push_str_chars(&mut out, ":");
    push_urlquery(&mut out, value);
    push_str_chars(&mut out, "\"");
    assert(out@ =~= quoted_facet(name@, value@));
    string_of(out.as_slice())
}

/// `[` + `s` + `]`.
fn bracketed(s: &str) -> (r: String)
    ensures
        r@ == "["@ + s@ + "]"@,
{
    let mut out: Vec<char> = Vec::new();
    push_str_chars(&mut out, "[");
    push_str_chars(&mut out, s);
    push_str_chars(&mut out, "]");
    string_of(out.as_slice())
}

fn search_facets_exec(q: &SearchQuery) -> (r: Vec<String>)
    ensures
        string_views(r@) == search_facets(*q),
{
    let mut f: Vec<String> = Vec::new();
    let mut first: Vec<char> = Vec::new();
    push_str_chars(&mut first, "[\"project_type:");
    push_str_chars(&mut first, q.kind.modrinth_type());
    push_str_chars(&mut first, "\"]");
    f.push(string_of(first.as_slice()));
    assert(string_views(f@) =~= seq!["[\"project_type:"@ + q.kind.modrinth_type_spec() + "\"]"@]);
    let mct = trim_str(q.mc.as_str());
    let mc = string_of(mct.as_slice());
    if mct.len() > 0 {
        let g = bracketed(quoted_facet_exec("versions", mc.as_str()).as_str());
        let ghost f0 = f@;
        f.push(g);
        assert(string_views(f@) =~= string_views(f0).push(g@));
    }
    match &q.loader {
        Some(l) => {
            if q.kind == ContentKind::Mod || q.kind == ContentKind::Plugin {
                let g = bracketed(quoted_facet_exec("categories", l.as_str()).as_str());
                let ghost f0 = f@;
                f.push(g);
                assert(string_views(f@) =~= string_views(f0).push(g@));
            }
        },
        None => {},
    }
    if q.categories.len() > 0 {
        let mut inner: Vec<String> = Vec::new();
        let mut i: usize = 0;
        while i < q.categories.len()
            invariant
                i <= q.categories.len(),
                string_views(inner@) == q.categories@.take(i as int).map_values(
                    |c: String| quoted_facet("categories"@, c@),
                ),
            decreases q.categories.len() - i,
        {
            let e = quoted_facet_exec("categories", q.categories[i].as_str());
            let ghost i0 = inner@;
            inner.push(e);
            assert(string_views(inner@) =~= string_views(i0).push(e@));
            i += 1;
            assert(q.categories@.take(i as int).map_values(|c: String| quoted_facet("categories"@, c@))
                =~= q.categories@.take(i - 1).map_values(|c: String| quoted_facet("categories"@, c@)).push(
                quoted_facet("categories"@, q.categories@[i - 1]@),
            ));
        }
        assert(q.categories@.take(q.categories.len() as int) =~= q.categories@);
        let joined = join_strings(&inner, ",");
        let g = bracketed(joined.as_str());
        let ghost f0 = f@;
        f.push(g);
        assert(string_views(f@) =~= string_views(f0).push(g@));
    }
    match &q.license {
        Some(l) => {
            let tt = trim_str(l.as_str());
            let t = string_of(tt.as_slice());
            if tt.len() > 0 {
                let g = bracketed(quoted_facet_exec("license", t.as_str()).as_str());
                let ghost f0 = f@;
                f.push(g);
                assert(string_views(f@) =~= string_views(f0).push(g@));
            }
        },
        None => {},
    }
    f
}

/// The Labrinth search URL of a query.
pub fn search_url(q: &SearchQuery) -> (r: String)
    ensures
        r@ == search_url_spec(*q),
{
    let facets = search_facets_exec(q);
    let joined = join_strings(&facets, ",");
    let mut out: Vec<char> = Vec::new();
    push_str_chars(&mut out, "https://api.modrinth.com/v2/search?limit=");
    push_dec(&mut out, q.limit as u64);
    push_str_chars(&mut out, "&index=");
    push_str_chars(&mut out, q.sort.param());
    push_str_chars(&mut out, "&facets=%5B");
    push_urlquery(&mut out, joined.as_str());
    push_str_chars(&mut out, "%5D");
    let qt = trim_str(q.query.as_str());
    let query = string_of(qt.as_slice());
    if qt.len() > 0 {
        push_str_chars(&mut out, "&query=");
        push_urlquery(&mut out, query.as_str());
    }
    string_of(out.as_slice())
}

/// The Labrinth URL of a project page.
pub fn project_url(project_id: &str) -> (r: String)
    ensures
        r@ == "https://api.modrinth.com/v2/project/"@ + project_id@,
{
    let mut out: Vec<char> = Vec::new();
    push_str_chars(&mut out, "https://api.modrinth.com/v2/project/");
    push_str_chars(&mut out, project_id);
    string_of(out.as_slice())
}

/// The Labrinth URL listing a project's versions, filtered by Minecraft
/// version (and then loader) when a Minecraft version is given.
pub open spec fn versions_url_spec(project_id: Seq<char>, mc: Seq<char>, loader: Option<Seq<char>>) -> Seq<char> {
    let base = "https://api.modrinth.com/v2/project/"@ + project_id + "/version"@;
    if mc.len() > 0 {
        let with_mc = base + "?game_versions=[%22"@ + urlquery_spec(mc) + "%22]"@;
        match loader {
            Some(l) => with_mc + "&loaders=[%22"@ + urlquery_spec(l) + "%22]"@,
            None => with_mc,
        }
    } else {
        base
    }
}

pub fn versions_url(project_id: &str, mc: &str, loader: Option<&str>) -> (r: String)
    ensures
        r@ == versions_url_spec(
            project_id@,
            mc@,
            match loader {
                Some(l) => Some(l@),
                None => None,
            },
        ),
{
    let mut out: Vec<char> = Vec::new();
    push_str_chars(&mut out, "https://api.modrinth.com/v2/project/");
    push_str_chars(&mut out, project_id);
    push_str_chars(&mut out, "/version");
    if !mc.is_empty() {
        push_str_chars(&mut out, "?game_versions=[%22");
        push_urlquery(&mut out, mc);
        push_str_chars(&mut out, "%22]");
        match loader {
            Some(l) => {
                push_str_chars(&mut out, "&loaders=[%22");
                push_urlquery(&mut out, l);
                push_str_chars(&mut out, "%22]");
            },
            None => {},
        }
    }
    string_of(out.as_slice())
}

// ---------------------------------------------------------------------------
// Search results, project pages, version files
// ---------------------------------------------------------------------------

/// One search result.
#[derive(Debug, Clone)]
pub struct ContentItem {
    /// Platform slug/id used to fetch versions.
    pub id: String,
    pub title: String,
    pub author: String,
    pub description: String,
    pub downloads: u64,
    pub icon_url: String,
    /// Display categories (loaders + tags), lowercase.
    pub categories: Vec<String>,
    /// License short name (`MIT`, `LicenseRef-All-Rights-Reserved`, …).
    pub license: String,
    pub follows: u64,
    /// Date of the latest update (ISO-8601, may be empty).
    pub date_updated: String,
}

/// The long description of a project (Modrinth `body`, markdown).
#[derive(Debug, Clone)]
pub struct ProjectDetail {
    pub title: String,
    pub description: String,
    /// The full markdown body of the project page.
    pub body: String,
    pub license: String,
    pub downloads: u64,
    pub follows: u64,
    pub icon_url: String,
    pub categories: Vec<String>,
    pub game_versions: Vec<String>,
    pub date_updated: String,
    /// Issue tracker / source links (empty when the project has none).
    pub issues_url: String,
    pub source_url: String,
    pub wiki_url: String,
}

/// One downloadable version file of a content project.
#[derive(Debug, Clone)]
pub struct ContentFile {
    /// Display name (`19.36.1.16 for Fabric 1.21.4`).
    pub name: String,
    /// Download URL of the primary file.
    pub url: String,
    /// File name to save as.
    pub file_name: String,
    pub size: u64,
    /// Game versions the file supports.
    pub game_versions: Vec<String>,
    /// Loader names.
    pub loaders: Vec<String>,
}

/// A file of a Modrinth version, as the API lists it.
#[derive(Debug, Clone)]
pub struct ModrinthFile {
    pub url: String,
    pub filename: String,
    pub size: u64,
    pub primary: bool,
}

/// A Modrinth version of a project, as the API lists it.
#[derive(Debug, Clone)]
pub struct ModrinthVersion {
    pub name: String,
    pub version_number: String,
    pub game_versions: Vec<String>,
    pub loaders: Vec<String>,
    pub files: Vec<ModrinthFile>,
}

pub struct ContentFileView {
    pub name: Seq<char>,
    pub url: Seq<char>,
    pub file_name: Seq<char>,
    pub size: u64,
    pub game_versions: Seq<Seq<char>>,
    pub loaders: Seq<Seq<char>>,
}

impl View for ContentFile {
    type V = ContentFileView;

    open spec fn view(&self) -> ContentFileView {
        ContentFileView {
            name: self.name@,
            url: self.url@,
            file_name: self.file_name@,
            size: self.size,
            game_versions: string_views(self.game_versions@),
            loaders: string_views(self.loaders@),
        }
    }
}

/// The index of the first primary file.
pub open spec fn first_primary(files: Seq<ModrinthFile>, from: int) -> Option<int>
    decreases files.len() - from,
{
    if from < 0 || from >= files.len() {
        None
    } else if files[from].primary {
        Some(from)
    } else {
        first_primary(files, from + 1)
    }
}

/// The file offered for a version: its primary file, else its first one.
pub open spec fn chosen_file(files: Seq<ModrinthFile>) -> Option<ModrinthFile> {
    match first_primary(files, 0) {
        Some(i) => Some(files[i]),
        None => if files.len() > 0 {
            Some(files[0])
        } else {
            None
        },
    }
}

/// The downloadable file of a version (URL empty when it has no file).
pub open spec fn file_of_version(v: ModrinthVersion) -> ContentFileView {
    let (url, file_name, size) = match chosen_file(v.files@) {
        Some(f) => (f.url@, f.filename@, f.size),
        None => (Seq::empty(), Seq::empty(), 0),
    };
    ContentFileView {
        name: if v.name@.len() == 0 {
            v.version_number@
        } else {
            v.name@
        },
        url,
        file_name,
        size,
        game_versions: string_views(v.game_versions@),
        loaders: string_views(v.loaders@),
    }
}

/// The files of the versions that have a download URL, in order.
pub open spec fn files_of_versions(vs: Seq<ModrinthVersion>) -> Seq<ContentFileView>
    decreases vs.len(),
{
    if vs.len() == 0 {
        Seq::empty()
    } else {
        let rest = files_of_versions(vs.drop_last());
        let f = file_of_version(vs.last());
        if f.url.len() > 0 {
            rest.push(f)
        } else {
            rest
        }
    }
}

pub open spec fn file_views(v: Seq<ContentFile>) -> Seq<ContentFileView> {
    v.map_values(|f: ContentFile| f@)
}

fn clone_str(s: &str) -> (r: String)
    ensures
        r@ == s@,
{
    let c = to_chars(s);
    string_of(c.as_slice())
}

fn clone_strings(v: &Vec<String>) -> (r: Vec<String>)
    ensures
        string_views(r@) == string_views(v@),
{
    let mut r: Vec<String> = Vec::new();
    let mut i: usize = 0;
    while i < v.len()
        invariant
            i <= v.len(),
            string_views(r@) == string_views(v@).take(i as int),
        decreases v.len() - i,
    {
        let c = clone_str(v[i].as_str());
        let ghost r0 = r@;
        r.push(c);
        assert(string_views(r@) =~= string_views(r0).push(c@));
        i += 1;
        assert(string_views(r@) =~= string_views(v@).take(i as int));
    }
    assert(string_views(v@).take(v.len() as int) =~= string_views(v@));
    r
}

fn chosen_file_exec(files: &Vec<ModrinthFile>) -> (r: Option<usize>)
    ensures
        match r {
            Some(i) => i < files.len() && chosen_file(files@) == Some(files@[i as int]),
            None => chosen_file(files@) is None,
        },
{
    let mut i: usize = 0;
    while i < files.len()
        invariant
            i <= files.len(),
            first_primary(files@, 0) == first_primary(files@, i as int),
        decreases files.len() - i,
    {
        if files[i].primary {
            return Some(i);
        }
        i += 1;
    }
    if files.len() > 0 {
        Some(0)
    } else {
        None
    }
}

/// The downloadable files of a project's versions, in the order listed:
/// each version offers its primary file (else its first file) under its
/// name (else its version number); versions without a file are left out.
pub fn content_files(versions: &Vec<ModrinthVersion>) -> (r: Vec<ContentFile>)
    ensures
        file_views(r@) == files_of_versions(versions@),
{
    let mut r: Vec<ContentFile> = Vec::new();
    let mut i: usize = 0;
    while i < versions.len()
        invariant
            i <= versions.len(),
            file_views(r@) == files_of_versions(versions@.take(i as int)),
        decreases versions.len() - i,
    {
        assert(versions@.take(i + 1).drop_last() =~= versions@.take(i as int));
        let v = &versions[i];
        let (url, file_name, size) = match chosen_file_exec(&v.files) {
            Some(k) => (
                clone_str(v.files[k].url.as_str()),
                clone_str(v.files[k].filename.as_str()),
                v.files[k].size,
            ),
            None => (String::new(), String::new(), 0u64),
        };
        let name = if v.name.as_str().is_empty() {
            clone_str(v.version_number.as_str())
        } else {
            clone_str(v.name.as_str())
        };
        let f = ContentFile {
            name,
            url,
            file_name,
            size,
            game_versions: clone_strings(&v.game_versions),
            loaders: clone_strings(&v.loaders),
        };
        assert(f@ == file_of_version(*v));
        if !f.url.as_str().is_empty() {
            let ghost r0 = r@;
            r.push(f);
            assert(file_views(r@) =~= file_views(r0).push(f@));
        }
        i += 1;
    }
    assert(versions@.take(versions.len() as int) =~= versions@);
    r
}

// ---------------------------------------------------------------------------
// Where a download goes
// ---------------------------------------------------------------------------

/// Where a downloaded file is saved.
#[derive(Debug, Clone)]
pub struct DownloadPlan {
    /// `<game_dir>/<dest_dir>`, created before saving.
    pub dir: String,
    /// The file name to save as.
    pub file_name: String,
    /// For a world zip: `<dir>/<stem>`, where the archive is extracted
    /// instead of being saved.
    pub world_dir: Option<String>,
}

#[derive(Debug, Clone, Copy, PartialEq, Eq, Structural)]
pub enum DownloadError {
    /// The file has no download URL.
    NoUrl,
}

/// The text after the last `/`.
pub open spec fn after_last_slash(s: Seq<char>) -> Seq<char>
    decreases s.len(),
{
    if s.len() == 0 {
        s
    } else if s.last() == '/' {
        Seq::empty()
    } else {
        after_last_slash(s.drop_last()).push(s.last())
    }
}

/// `s` with every trailing repetition of `p` removed (`trim_end_matches`).
pub open spec fn trim_end_all(s: Seq<char>, p: Seq<char>) -> Seq<char>
    decreases s.len(),
{
    if p.len() > 0 && crate::text::ends_with(s, p) {
        trim_end_all(s.take(s.len() - p.len()), p)
    } else {
        s
    }
}

/// The file name to save as: the given one, else the URL's last segment.
pub open spec fn download_name(f: ContentFileView) -> Seq<char> {
    if f.file_name.len() == 0 {
        after_last_slash(f.url)
    } else {
        f.file_name
    }
}

pub open spec fn is_world_zip(kind: ContentKind, name: Seq<char>) -> bool {
    kind == ContentKind::World && crate::text::ends_with(crate::text::lower(name), ".zip"@)
}

fn after_last_slash_exec(s: &[char]) -> (r: Vec<char>)
    ensures
        r@ == after_last_slash(s@),
{
    let mut k: usize = s.len();
    assert(s@.take(s.len() as int) =~= s@);
    assert(s@.skip(s.len() as int) =~= Seq::<char>::empty());
    while k > 0
        invariant
            k <= s.len(),
            forall|m: int| k <= m < s.len() ==> s@[m] != '/',
            after_last_slash(s@) == after_last_slash(s@.take(k as int)) + s@.skip(k as int),
        decreases k,
    {
        assert(s@.take(k as int).drop_last() =~= s@.take(k - 1));
        assert(s@.take(k as int).last() == s@[k - 1]);
        if s[k - 1] == '/' {
            assert(after_last_slash(s@.take(k as int)) =~= Seq::<char>::empty());
            let r = slice_chars(s, k, s.len());
            assert(r@ =~= s@.skip(k as int));
            return r;
        }
        assert(s@.skip(k - 1) =~= seq![s@[k - 1]] + s@.skip(k as int));
        k -= 1;
    }
    assert(s@.take(0) =~= Seq::<char>::empty());
    assert(s@.skip(0) =~= s@);
    slice_chars(s, 0, s.len())
}

fn trim_end_all_exec(s: Vec<char>, p: &[char]) -> (r: Vec<char>)
    ensures
        r@ == trim_end_all(s@, p@),
{
    let mut cur = s;
    if p.len() == 0 {
        return cur;
    }
    while crate::text::ends_with_exec(cur.as_slice(), p)
        invariant
            p.len() > 0,
            trim_end_all(cur@, p@) == trim_end_all(s@, p@),
        decreases cur.len(),
    {
        let next = slice_chars(cur.as_slice(), 0, cur.len() - p.len());
        assert(next@ =~= cur@.take(cur.len() - p.len()));
        cur = next;
    }
    cur
}

pub open spec fn opt_view(o: Option<String>) -> Option<Seq<char>> {
    match o {
        Some(s) => Some(s@),
        None => None,
    }
}

/// The directory a world zip named `name` is extracted into; none for other
/// downloads.
pub open spec fn world_dir_of(dir: Seq<char>, kind: ContentKind, name: Seq<char>) -> Option<Seq<char>> {
    if is_world_zip(kind, name) {
        Some(path_join(dir, trim_end_all(trim_end_all(name, ".zip"@), ".ZIP"@)))
    } else {
        None
    }
}

/// Where a content file is saved in the game directory. Files without a URL
/// cannot be downloaded. A world zip is extracted into `saves/<stem>/` (the
/// stem being the name without trailing `.zip`s, then `.ZIP`s) so the world
/// appears directly in the world list.
pub fn plan_download(game_dir: &str, kind: ContentKind, file: &ContentFile) -> (r: Result<
    DownloadPlan,
    DownloadError,
>)
    ensures
        file.url@.len() == 0 <==> r is Err,
        r matches Ok(p) ==> p.dir@ == path_join(game_dir@, kind.dest_dir_spec()) && p.file_name@
            == download_name(file@) && opt_view(p.world_dir) == world_dir_of(
            path_join(game_dir@, kind.dest_dir_spec()),
            kind,
            download_name(file@),
        ),
{
    if file.url.as_str().is_empty() {
        return Err(DownloadError::NoUrl);
    }
    let name: Vec<char> = if file.file_name.as_str().is_empty() {
        let u = to_chars(file.url.as_str());
        after_last_slash_exec(u.as_slice())
    } else {
        to_chars(file.file_name.as_str())
    };
    let g = to_chars(game_dir);
    let d = to_chars(kind.dest_dir());
    let dir: Vec<char> = crate::text::join_chars(g.as_slice(), d.as_slice());
    let lowered = crate::text::lower_chars(name.as_slice());
    let zip = to_chars(".zip");
    let world_dir = if kind == ContentKind::World && crate::text::ends_with_exec(
        lowered.as_slice(),
        zip.as_slice(),
    ) {
        let upper_zip = to_chars(".ZIP");
        let copy = slice_chars(name.as_slice(), 0, name.len());
        assert(copy@ =~= name@);
        let stem = trim_end_all_exec(trim_end_all_exec(copy, zip.as_slice()), upper_zip.as_slice());
        let w = crate::text::join_chars(dir.as_slice(), stem.as_slice());
        assert(upper_zip@ == ".ZIP"@);
        Some(string_of(w.as_slice()))
    } else {
        None
    };
    assert(name@ == download_name(file@));
    assert(zip@ == ".zip"@);
    assert(opt_view(world_dir) == world_dir_of(dir@, kind, name@));
    Ok(
        DownloadPlan {
            dir: string_of(dir.as_slice()),
            file_name: string_of(name.as_slice()),
            world_dir,
        },
    )
}

} // verus!
