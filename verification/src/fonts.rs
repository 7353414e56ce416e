//! Fonts: which system font files may provide CJK glyphs, and which bytes
//! are a font at all. Loading them into the UI is done by the program
//! around the library.
use vstd::prelude::*;

verus! {

broadcast use vstd::std_specs::vec::group_vec_axioms, vstd::seq::group_seq_axioms;

/// Upper bound on how many system CJK faces to load, to bound memory use.
pub const MAX_CJK_FONTS: usize = 3;

/// Whether the bytes look like a supported font container: a
/// TrueType/OpenType face (`0x00010000` / `OTTO`) or a TrueType collection
/// (`ttcf`).
pub open spec fn font_bytes(b: Seq<u8>) -> bool {
    b.len() > 4 && (b.take(4) == seq![0u8, 1u8, 0u8, 0u8] || b.take(4) == seq![79u8, 84u8, 84u8, 79u8]
        || b.take(4) == seq![116u8, 116u8, 99u8, 102u8])
}

pub fn is_font_bytes(bytes: &[u8]) -> (r: bool)
    ensures
        r == font_bytes(bytes@),
{
    if bytes.len() <= 4 {
        return false;
    }
    let a = bytes[0];
    let b = bytes[1];
    let c = bytes[2];
    let d = bytes[3];
    let r = (a == 0 && b == 1 && c == 0 && d == 0) || (a == 79 && b == 84 && c == 84 && d == 79) || (a
        == 116 && b == 116 && c == 99 && d == 102);
    assert(r == font_bytes(bytes@)) by {
        let t = bytes@.take(4);
        assert(t =~= seq![a, b, c, d]);
    }
    r
}

pub open spec fn str_views(v: Seq<&str>) -> Seq<Seq<char>> {
    v.map_values(|s: &str| s@)
}

/// Candidate system font files that cover CJK, in preference order, for an
/// operating system (`std::env::consts::OS`).
pub open spec fn cjk_candidate_list(os: Seq<char>) -> Seq<Seq<char>> {
    if os == "windows"@ {
        seq![
            "C:\\Windows\\Fonts\\msyh.ttc"@,
            "C:\\Windows\\Fonts\\msgothic.ttc"@,
            "C:\\Windows\\Fonts\\malgun.ttf"@,
        ]
    } else if os == "macos"@ {
        seq![
            "/System/Library/Fonts/PingFang.ttc"@,
            "/System/Library/Fonts/Hiragino Sans GB.ttc"@,
            "/Library/Fonts/Arial Unicode.ttf"@,
        ]
    } else {
        seq![
            "/usr/share/fonts/opentype/noto/NotoSansCJK-Regular.ttc"@,
            "/usr/share/fonts/truetype/noto/NotoSansCJK-Regular.ttc"@,
            "/usr/share/fonts/noto-cjk/NotoSansCJK-Regular.ttc"@,
            "/usr/share/fonts/opentype/noto/NotoSansCJKsc-Regular.otf"@,
        ]
    }
}

/// The CJK font candidates of an operating system. The first entry is the
/// broadest (it also covers kana); the extras improve coverage for
/// Japanese-specific glyph shapes and Korean.
pub fn cjk_candidates(os: &str) -> (r: Vec<&'static str>)
    ensures
        str_views(r@) == cjk_candidate_list(os@),
{
    let r: Vec<&'static str> = if crate::text::str_eq(os, "windows") {
        vec![
            "C:\\Windows\\Fonts\\msyh.ttc",
            "C:\\Windows\\Fonts\\msgothic.ttc",
            "C:\\Windows\\Fonts\\malgun.ttf",
        ]
    } else if crate::text::str_eq(os, "macos") {
        vec![
            "/System/Library/Fonts/PingFang.ttc",
            "/System/Library/Fonts/Hiragino Sans GB.ttc",
            "/Library/Fonts/Arial Unicode.ttf",
        ]
    } else {
        vec![
            "/usr/share/fonts/opentype/noto/NotoSansCJK-Regular.ttc",
            "/usr/share/fonts/truetype/noto/NotoSansCJK-Regular.ttc",
            "/usr/share/fonts/noto-cjk/NotoSansCJK-Regular.ttc",
            "/usr/share/fonts/opentype/noto/NotoSansCJKsc-Regular.otf",
        ]
    };
    assert(str_views(r@) =~= cjk_candidate_list(os@));
    r
}

/// The candidates whose file was read and is a font, in order, at most
/// `MAX_CJK_FONTS` of them: their positions in the list of candidates.
pub open spec fn chosen_fonts(files: Seq<Option<Vec<u8>>>) -> Seq<int>
    decreases files.len(),
{
    if files.len() == 0 {
        Seq::empty()
    } else {
        let prev = chosen_fonts(files.drop_last());
        if prev.len() < 3 && files.last() is Some && font_bytes(files.last()->0@) {
            prev.push(files.len() - 1)
        } else {
            prev
        }
    }
}

/// Which CJK candidates to load, given what reading each candidate file
/// gave (`None` when it could not be read).
pub fn select_cjk_fonts(files: &Vec<Option<Vec<u8>>>) -> (r: Vec<usize>)
    ensures
        r@.map_values(|i: usize| i as int) == chosen_fonts(files@),
{
    let mut r: Vec<usize> = Vec::new();
    let mut i: usize = 0;
    while i < files.len()
        invariant
            i <= files.len(),
            r@.map_values(|k: usize| k as int) == chosen_fonts(files@.take(i as int)),
            r.len() <= 3,
        decreases files.len() - i,
    {
        assert(files@.take(i + 1).drop_last() =~= files@.take(i as int));
        proof {
            lemma_chosen_fonts_len(files@.take(i as int));
        }
        if r.len() < MAX_CJK_FONTS {
            match &files[i] {
                Some(bytes) => {
                    if is_font_bytes(bytes.as_slice()) {
                        let ghost r0 = r@;
                        r.push(i);
                        assert(r@.map_values(|k: usize| k as int) =~= r0.map_values(|k: usize| k as int).push(
                            i as int,
                        ));
                    }
                },
                None => {},
            }
        }
        i += 1;
    }
    assert(files@.take(files.len() as int) =~= files@);
    r
}

proof fn lemma_chosen_fonts_len(files: Seq<Option<Vec<u8>>>)
    ensures
        chosen_fonts(files).len() <= 3,
    decreases files.len(),
{
    if files.len() > 0 {
        lemma_chosen_fonts_len(files.drop_last());
    }
}

} // verus!
