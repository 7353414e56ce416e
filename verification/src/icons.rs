//! Material Icons codepoints. Each constant is a string holding a single
//! glyph of the Material Icons font, ready to be put into labels.
use vstd::prelude::*;

verus! {

pub const ARROW_BACK: &'static str = "\u{e5c4}";
pub const PLAY_ARROW: &'static str = "\u{e037}";
pub const TERMINAL: &'static str = "\u{eb8e}";
pub const LAYERS: &'static str = "\u{e53b}";
pub const DNS: &'static str = "\u{e875}";
pub const CONTENT_COPY: &'static str = "\u{e14c}";
pub const ACCOUNT_CIRCLE: &'static str = "\u{e853}";
pub const FACE: &'static str = "\u{e87c}";
pub const EXTENSION: &'static str = "\u{e87b}";
pub const ARTICLE: &'static str = "\u{ef42}";
pub const SETTINGS: &'static str = "\u{e8b8}";
pub const BUILD: &'static str = "\u{e869}";
pub const VIDEOGAME_ASSET: &'static str = "\u{e338}";
pub const ADD: &'static str = "\u{e145}";
pub const DELETE: &'static str = "\u{e872}";
pub const STOP: &'static str = "\u{e047}";
pub const KILL: &'static str = "\u{e14c}";
pub const FOLDER: &'static str = "\u{e2c8}";
pub const CHECK_CIRCLE: &'static str = "\u{e86c}";
pub const CHEVRON_RIGHT: &'static str = "\u{e5cc}";
pub const ARROW_UPWARD: &'static str = "\u{e5d8}";
pub const ARROW_DOWNWARD: &'static str = "\u{e5db}";
pub const ARROW_FORWARD: &'static str = "\u{e5c8}";
pub const FAVORITE: &'static str = "\u{e87d}";
pub const CHECK: &'static str = "\u{e5ca}";
pub const RESTORE: &'static str = "\u{e8b3}";
pub const FIBER_MANUAL_RECORD: &'static str = "\u{e061}";
pub const FILE_DOWNLOAD: &'static str = "\u{e2c4}";
pub const REFRESH: &'static str = "\u{e5d5}";
pub const EXPAND_MORE: &'static str = "\u{e313}";
pub const EXPAND_LESS: &'static str = "\u{e316}";

/// All icons.
pub fn all_icons() -> (r: Vec<&'static str>)
    ensures
        r@ == seq![
        ARROW_BACK, PLAY_ARROW, TERMINAL, LAYERS, DNS, ACCOUNT_CIRCLE, FACE, EXTENSION, ARTICLE,
        SETTINGS, BUILD, VIDEOGAME_ASSET, ADD, DELETE, STOP, KILL, FOLDER, CHECK_CIRCLE, CONTENT_COPY,
        CHEVRON_RIGHT, ARROW_UPWARD, ARROW_DOWNWARD, ARROW_FORWARD, FAVORITE, CHECK, RESTORE,
        FIBER_MANUAL_RECORD, FILE_DOWNLOAD, REFRESH, EXPAND_MORE, EXPAND_LESS,
    ],
{
    let r = vec![
        ARROW_BACK, PLAY_ARROW, TERMINAL, LAYERS, DNS, ACCOUNT_CIRCLE, FACE, EXTENSION, ARTICLE,
        SETTINGS, BUILD, VIDEOGAME_ASSET, ADD, DELETE, STOP, KILL, FOLDER, CHECK_CIRCLE, CONTENT_COPY,
        CHEVRON_RIGHT, ARROW_UPWARD, ARROW_DOWNWARD, ARROW_FORWARD, FAVORITE, CHECK, RESTORE,
        FIBER_MANUAL_RECORD, FILE_DOWNLOAD, REFRESH, EXPAND_MORE, EXPAND_LESS,
    ];
    assert(r@ =~= seq![
        ARROW_BACK, PLAY_ARROW, TERMINAL, LAYERS, DNS, ACCOUNT_CIRCLE, FACE, EXTENSION, ARTICLE,
        SETTINGS, BUILD, VIDEOGAME_ASSET, ADD, DELETE, STOP, KILL, FOLDER, CHECK_CIRCLE, CONTENT_COPY,
        CHEVRON_RIGHT, ARROW_UPWARD, ARROW_DOWNWARD, ARROW_FORWARD, FAVORITE, CHECK, RESTORE,
        FIBER_MANUAL_RECORD, FILE_DOWNLOAD, REFRESH, EXPAND_MORE, EXPAND_LESS,
    ]);
    r
}

} // verus!
