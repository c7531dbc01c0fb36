//! Converts colors: names to hex (`fuchsia` to `#ff00ff`), long hex to
//! short hex, and the hex of some colors to their names.  The conversion of
//! `rgb()` values works in floating point and is handed in from outside.

use vstd::prelude::*;
use crate::ast::{Element, ElementView, Node, NodeView, attr_entries, attr_pairs, elem_view, keys_distinct,
    lemma_nodes_view, lemma_nodes_view_push, node_view, nodes_view, pair_views};
use crate::strings::{contains_seq, lower_text, owned, str_contains, str_eq, to_chars, to_lowercase,
    to_uppercase, upper_text};
use crate::value::{Value, get_bool_param, opt_value, param_bool, value_get};

verus! {

/// The color keywords and their hex values.
pub open spec fn color_names() -> Seq<(Seq<char>, Seq<char>)> {
    seq![
        ("aliceblue"@, "#f0f8ff"@),
        ("antiquewhite"@, "#faebd7"@),
        ("aqua"@, "#00ffff"@),
        ("aquamarine"@, "#7fffd4"@),
        ("azure"@, "#f0ffff"@),
        ("beige"@, "#f5f5dc"@),
        ("bisque"@, "#ffe4c4"@),
        ("black"@, "#000000"@),
        ("blanchedalmond"@, "#ffebcd"@),
        ("blue"@, "#0000ff"@),
        ("blueviolet"@, "#8a2be2"@),
        ("brown"@, "#a52a2a"@),
        ("burlywood"@, "#deb887"@),
        ("cadetblue"@, "#5f9ea0"@),
        ("chartreuse"@, "#7fff00"@),
        ("chocolate"@, "#d2691e"@),
        ("coral"@, "#ff7f50"@),
        ("cornflowerblue"@, "#6495ed"@),
        ("cornsilk"@, "#fff8dc"@),
        ("crimson"@, "#dc143c"@),
        ("cyan"@, "#00ffff"@),
        ("darkblue"@, "#00008b"@),
        ("darkcyan"@, "#008b8b"@),
        ("darkgoldenrod"@, "#b8860b"@),
        ("darkgray"@, "#a9a9a9"@),
        ("darkgreen"@, "#006400"@),
        ("darkgrey"@, "#a9a9a9"@),
        ("darkkhaki"@, "#bdb76b"@),
        ("darkmagenta"@, "#8b008b"@),
        ("darkolivegreen"@, "#556b2f"@),
        ("darkorange"@, "#ff8c00"@),
        ("darkorchid"@, "#9932cc"@),
        ("darkred"@, "#8b0000"@),
        ("darksalmon"@, "#e9967a"@),
        ("darkseagreen"@, "#8fbc8f"@),
        ("darkslateblue"@, "#483d8b"@),
        ("darkslategray"@, "#2f4f4f"@),
        ("darkslategrey"@, "#2f4f4f"@),
        ("darkturquoise"@, "#00ced1"@),
        ("darkviolet"@, "#9400d3"@),
        ("deeppink"@, "#ff1493"@),
        ("deepskyblue"@, "#00bfff"@),
        ("dimgray"@, "#696969"@),
        ("dimgrey"@, "#696969"@),
        ("dodgerblue"@, "#1e90ff"@),
        ("firebrick"@, "#b22222"@),
        ("floralwhite"@, "#fffaf0"@),
        ("forestgreen"@, "#228b22"@),
        ("fuchsia"@, "#ff00ff"@),
        ("gainsboro"@, "#dcdcdc"@),
        ("ghostwhite"@, "#f8f8ff"@),
        ("gold"@, "#ffd700"@),
        ("goldenrod"@, "#daa520"@),
        ("gray"@, "#808080"@),
        ("green"@, "#008000"@),
        ("greenyellow"@, "#adff2f"@),
        ("grey"@, "#808080"@),
        ("honeydew"@, "#f0fff0"@),
        ("hotpink"@, "#ff69b4"@),
        ("indianred"@, "#cd5c5c"@),
        ("indigo"@, "#4b0082"@),
        ("ivory"@, "#fffff0"@),
        ("khaki"@, "#f0e68c"@),
        ("lavender"@, "#e6e6fa"@),
        ("lavenderblush"@, "#fff0f5"@),
        ("lawngreen"@, "#7cfc00"@),
        ("lemonchiffon"@, "#fffacd"@),
        ("lightblue"@, "#add8e6"@),
        ("lightcoral"@, "#f08080"@),
        ("lightcyan"@, "#e0ffff"@),
        ("lightgoldenrodyellow"@, "#fafad2"@),
        ("lightgray"@, "#d3d3d3"@),
        ("lightgreen"@, "#90ee90"@),
        ("lightgrey"@, "#d3d3d3"@),
        ("lightpink"@, "#ffb6c1"@),
        ("lightsalmon"@, "#ffa07a"@),
        ("lightseagreen"@, "#20b2aa"@),
        ("lightskyblue"@, "#87cefa"@),
        ("lightslategray"@, "#778899"@),
        ("lightslategrey"@, "#778899"@),
        ("lightsteelblue"@, "#b0c4de"@),
        ("lightyellow"@, "#ffffe0"@),
        ("lime"@, "#00ff00"@),
        ("limegreen"@, "#32cd32"@),
        ("linen"@, "#faf0e6"@),
        ("magenta"@, "#ff00ff"@),
        ("maroon"@, "#800000"@),
        ("mediumaquamarine"@, "#66cdaa"@),
        ("mediumblue"@, "#0000cd"@),
        ("mediumorchid"@, "#ba55d3"@),
        ("mediumpurple"@, "#9370db"@),
        ("mediumseagreen"@, "#3cb371"@),
        ("mediumslateblue"@, "#7b68ee"@),
        ("mediumspringgreen"@, "#00fa9a"@),
        ("mediumturquoise"@, "#48d1cc"@),
        ("mediumvioletred"@, "#c71585"@),
        ("midnightblue"@, "#191970"@),
        ("mintcream"@, "#f5fffa"@),
        ("mistyrose"@, "#ffe4e1"@),
        ("moccasin"@, "#ffe4b5"@),
        ("navajowhite"@, "#ffdead"@),
        ("navy"@, "#000080"@),
        ("oldlace"@, "#fdf5e6"@),
        ("olive"@, "#808000"@),
        ("olivedrab"@, "#6b8e23"@),
        ("orange"@, "#ffa500"@),
        ("orangered"@, "#ff4500"@),
        ("orchid"@, "#da70d6"@),
        ("palegoldenrod"@, "#eee8aa"@),
        ("palegreen"@, "#98fb98"@),
        ("paleturquoise"@, "#afeeee"@),
        ("palevioletred"@, "#db7093"@),
        ("papayawhip"@, "#ffefd5"@),
        ("peachpuff"@, "#ffdab9"@),
        ("peru"@, "#cd853f"@),
        ("pink"@, "#ffc0cb"@),
        ("plum"@, "#dda0dd"@),
        ("powderblue"@, "#b0e0e6"@),
        ("purple"@, "#800080"@),
        ("red"@, "#ff0000"@),
        ("rosybrown"@, "#bc8f8f"@),
        ("royalblue"@, "#4169e1"@),
        ("saddlebrown"@, "#8b4513"@),
        ("salmon"@, "#fa8072"@),
        ("sandybrown"@, "#f4a460"@),
        ("seagreen"@, "#2e8b57"@),
        ("seashell"@, "#fff5ee"@),
        ("sienna"@, "#a0522d"@),
        ("silver"@, "#c0c0c0"@),
        ("skyblue"@, "#87ceeb"@),
        ("slateblue"@, "#6a5acd"@),
        ("slategray"@, "#708090"@),
        ("slategrey"@, "#708090"@),
        ("snow"@, "#fffafa"@),
        ("springgreen"@, "#00ff7f"@),
        ("steelblue"@, "#4682b4"@),
        ("tan"@, "#d2b48c"@),
        ("teal"@, "#008080"@),
        ("thistle"@, "#d8bfd8"@),
        ("tomato"@, "#ff6347"@),
        ("turquoise"@, "#40e0d0"@),
        ("violet"@, "#ee82ee"@),
        ("wheat"@, "#f5deb3"@),
        ("white"@, "#ffffff"@),
        ("whitesmoke"@, "#f5f5f5"@),
        ("yellow"@, "#ffff00"@),
        ("yellowgreen"@, "#9acd32"@)
    ]
}

/// The hex values that have a shorter name, and that name.
pub open spec fn color_short_names() -> Seq<(Seq<char>, Seq<char>)> {
    seq![
        ("#000080"@, "navy"@),
        ("#008000"@, "green"@),
        ("#008080"@, "teal"@),
        ("#800000"@, "maroon"@),
        ("#800080"@, "purple"@),
        ("#808000"@, "olive"@),
        ("#808080"@, "gray"@),
        ("#c0c0c0"@, "silver"@),
        ("#ff0000"@, "red"@),
        ("#00ff00"@, "lime"@),
        ("#0000ff"@, "blue"@),
        ("#ffff00"@, "yellow"@),
        ("#00ffff"@, "cyan"@),
        ("#ff00ff"@, "magenta"@),
        ("#ffffff"@, "white"@),
        ("#000000"@, "black"@)
    ]
}

/// The color keywords and their hex values, in the order of
/// `color_names`.
pub fn get_color_names() -> (r: Vec<(String, String)>)
    ensures
        pair_views(r@) == color_names(),
{
    let v: Vec<(String, String)> = vec![
        (owned("aliceblue"), owned("#f0f8ff")),
        (owned("antiquewhite"), owned("#faebd7")),
        (owned("aqua"), owned("#00ffff")),
        (owned("aquamarine"), owned("#7fffd4")),
        (owned("azure"), owned("#f0ffff")),
        (owned("beige"), owned("#f5f5dc")),
        (owned("bisque"), owned("#ffe4c4")),
        (owned("black"), owned("#000000")),
        (owned("blanchedalmond"), owned("#ffebcd")),
        (owned("blue"), owned("#0000ff")),
        (owned("blueviolet"), owned("#8a2be2")),
        (owned("brown"), owned("#a52a2a")),
        (owned("burlywood"), owned("#deb887")),
        (owned("cadetblue"), owned("#5f9ea0")),
        (owned("chartreuse"), owned("#7fff00")),
        (owned("chocolate"), owned("#d2691e")),
        (owned("coral"), owned("#ff7f50")),
        (owned("cornflowerblue"), owned("#6495ed")),
        (owned("cornsilk"), owned("#fff8dc")),
        (owned("crimson"), owned("#dc143c")),
        (owned("cyan"), owned("#00ffff")),
        (owned("darkblue"), owned("#00008b")),
        (owned("darkcyan"), owned("#008b8b")),
        (owned("darkgoldenrod"), owned("#b8860b")),
        (owned("darkgray"), owned("#a9a9a9")),
        (owned("darkgreen"), owned("#006400")),
        (owned("darkgrey"), owned("#a9a9a9")),
        (owned("darkkhaki"), owned("#bdb76b")),
        (owned("darkmagenta"), owned("#8b008b")),
        (owned("darkolivegreen"), owned("#556b2f")),
        (owned("darkorange"), owned("#ff8c00")),
        (owned("darkorchid"), owned("#9932cc")),
        (owned("darkred"), owned("#8b0000")),
        (owned("darksalmon"), owned("#e9967a")),
        (owned("darkseagreen"), owned("#8fbc8f")),
        (owned("darkslateblue"), owned("#483d8b")),
        (owned("darkslategray"), owned("#2f4f4f")),
        (owned("darkslategrey"), owned("#2f4f4f")),
        (owned("darkturquoise"), owned("#00ced1")),
        (owned("darkviolet"), owned("#9400d3")),
        (owned("deeppink"), owned("#ff1493")),
        (owned("deepskyblue"), owned("#00bfff")),
        (owned("dimgray"), owned("#696969")),
        (owned("dimgrey"), owned("#696969")),
        (owned("dodgerblue"), owned("#1e90ff")),
        (owned("firebrick"), owned("#b22222")),
        (owned("floralwhite"), owned("#fffaf0")),
        (owned("forestgreen"), owned("#228b22")),
        (owned("fuchsia"), owned("#ff00ff")),
        (owned("gainsboro"), owned("#dcdcdc")),
        (owned("ghostwhite"), owned("#f8f8ff")),
        (owned("gold"), owned("#ffd700")),
        (owned("goldenrod"), owned("#daa520")),
        (owned("gray"), owned("#808080")),
        (owned("green"), owned("#008000")),
        (owned("greenyellow"), owned("#adff2f")),
        (owned("grey"), owned("#808080")),
        (owned("honeydew"), owned("#f0fff0")),
        (owned("hotpink"), owned("#ff69b4")),
        (owned("indianred"), owned("#cd5c5c")),
        (owned("indigo"), owned("#4b0082")),
        (owned("ivory"), owned("#fffff0")),
        (owned("khaki"), owned("#f0e68c")),
        (owned("lavender"), owned("#e6e6fa")),
        (owned("lavenderblush"), owned("#fff0f5")),
        (owned("lawngreen"), owned("#7cfc00")),
        (owned("lemonchiffon"), owned("#fffacd")),
        (owned("lightblue"), owned("#add8e6")),
        (owned("lightcoral"), owned("#f08080")),
        (owned("lightcyan"), owned("#e0ffff")),
        (owned("lightgoldenrodyellow"), owned("#fafad2")),
        (owned("lightgray"), owned("#d3d3d3")),
        (owned("lightgreen"), owned("#90ee90")),
        (owned("lightgrey"), owned("#d3d3d3")),
        (owned("lightpink"), owned("#ffb6c1")),
        (owned("lightsalmon"), owned("#ffa07a")),
        (owned("lightseagreen"), owned("#20b2aa")),
        (owned("lightskyblue"), owned("#87cefa")),
        (owned("lightslategray"), owned("#778899")),
        (owned("lightslategrey"), owned("#778899")),
        (owned("lightsteelblue"), owned("#b0c4de")),
        (owned("lightyellow"), owned("#ffffe0")),
        (owned("lime"), owned("#00ff00")),
        (owned("limegreen"), owned("#32cd32")),
        (owned("linen"), owned("#faf0e6")),
        (owned("magenta"), owned("#ff00ff")),
        (owned("maroon"), owned("#800000")),
        (owned("mediumaquamarine"), owned("#66cdaa")),
        (owned("mediumblue"), owned("#0000cd")),
        (owned("mediumorchid"), owned("#ba55d3")),
        (owned("mediumpurple"), owned("#9370db")),
        (owned("mediumseagreen"), owned("#3cb371")),
        (owned("mediumslateblue"), owned("#7b68ee")),
        (owned("mediumspringgreen"), owned("#00fa9a")),
        (owned("mediumturquoise"), owned("#48d1cc")),
        (owned("mediumvioletred"), owned("#c71585")),
        (owned("midnightblue"), owned("#191970")),
        (owned("mintcream"), owned("#f5fffa")),
        (owned("mistyrose"), owned("#ffe4e1")),
        (owned("moccasin"), owned("#ffe4b5")),
        (owned("navajowhite"), owned("#ffdead")),
        (owned("navy"), owned("#000080")),
        (owned("oldlace"), owned("#fdf5e6")),
        (owned("olive"), owned("#808000")),
        (owned("olivedrab"), owned("#6b8e23")),
        (owned("orange"), owned("#ffa500")),
        (owned("orangered"), owned("#ff4500")),
        (owned("orchid"), owned("#da70d6")),
        (owned("palegoldenrod"), owned("#eee8aa")),
        (owned("palegreen"), owned("#98fb98")),
        (owned("paleturquoise"), owned("#afeeee")),
        (owned("palevioletred"), owned("#db7093")),
        (owned("papayawhip"), owned("#ffefd5")),
        (owned("peachpuff"), owned("#ffdab9")),
        (owned("peru"), owned("#cd853f")),
        (owned("pink"), owned("#ffc0cb")),
        (owned("plum"), owned("#dda0dd")),
        (owned("powderblue"), owned("#b0e0e6")),
        (owned("purple"), owned("#800080")),
        (owned("red"), owned("#ff0000")),
        (owned("rosybrown"), owned("#bc8f8f")),
        (owned("royalblue"), owned("#4169e1")),
        (owned("saddlebrown"), owned("#8b4513")),
        (owned("salmon"), owned("#fa8072")),
        (owned("sandybrown"), owned("#f4a460")),
        (owned("seagreen"), owned("#2e8b57")),
        (owned("seashell"), owned("#fff5ee")),
        (owned("sienna"), owned("#a0522d")),
        (owned("silver"), owned("#c0c0c0")),
        (owned("skyblue"), owned("#87ceeb")),
        (owned("slateblue"), owned("#6a5acd")),
        (owned("slategray"), owned("#708090")),
        (owned("slategrey"), owned("#708090")),
        (owned("snow"), owned("#fffafa")),
        (owned("springgreen"), owned("#00ff7f")),
        (owned("steelblue"), owned("#4682b4")),
        (owned("tan"), owned("#d2b48c")),
        (owned("teal"), owned("#008080")),
        (owned("thistle"), owned("#d8bfd8")),
        (owned("tomato"), owned("#ff6347")),
        (owned("turquoise"), owned("#40e0d0")),
        (owned("violet"), owned("#ee82ee")),
        (owned("wheat"), owned("#f5deb3")),
        (owned("white"), owned("#ffffff")),
        (owned("whitesmoke"), owned("#f5f5f5")),
        (owned("yellow"), owned("#ffff00")),
        (owned("yellowgreen"), owned("#9acd32"))
    ];
    assert(pair_views(v@) =~= color_names());
    v
}

/// The hex values that have a shorter name, and that name; each name maps
/// back to its hex in the color names table.
pub fn get_color_short_names() -> (r: Vec<(String, String)>)
    ensures
        pair_views(r@) == color_short_names(),
        forall|i: int| #![trigger color_short_names()[i]] 0 <= i < color_short_names().len() ==> exists|j: int| 0 <= j < color_names().len()
            && #[trigger] color_names()[j] == (color_short_names()[i].1, color_short_names()[i].0),
{
    proof { crate::laws::law_short_names_round_trip(); }
    let v: Vec<(String, String)> = vec![
        (owned("#000080"), owned("navy")),
        (owned("#008000"), owned("green")),
        (owned("#008080"), owned("teal")),
        (owned("#800000"), owned("maroon")),
        (owned("#800080"), owned("purple")),
        (owned("#808000"), owned("olive")),
        (owned("#808080"), owned("gray")),
        (owned("#c0c0c0"), owned("silver")),
        (owned("#ff0000"), owned("red")),
        (owned("#00ff00"), owned("lime")),
        (owned("#0000ff"), owned("blue")),
        (owned("#ffff00"), owned("yellow")),
        (owned("#00ffff"), owned("cyan")),
        (owned("#ff00ff"), owned("magenta")),
        (owned("#ffffff"), owned("white")),
        (owned("#000000"), owned("black"))
    ];
    assert(pair_views(v@) =~= color_short_names());
    v
}

/// The first value stored under `k` in a table of pairs.
pub open spec fn table_get(t: Seq<(Seq<char>, Seq<char>)>, k: Seq<char>) -> Option<Seq<char>>
    decreases t.len(),
{
    if t.len() == 0 {
        None
    } else {
        match table_get(t.drop_last(), k) {
            Some(v) => Some(v),
            None => if t.last().0 == k { Some(t.last().1) } else { None },
        }
    }
}

proof fn lemma_table_get_prefix(t: Seq<(Seq<char>, Seq<char>)>, n: int, k: Seq<char>)
    requires
        0 <= n <= t.len(),
        table_get(t.take(n), k) is Some,
    ensures
        table_get(t, k) == table_get(t.take(n), k),
    decreases t.len() - n,
{
    if n < t.len() {
        assert(t.take(n + 1).drop_last() =~= t.take(n));
        lemma_table_get_prefix(t, n + 1, k);
    } else {
        assert(t.take(n) =~= t);
    }
}

/// The first value stored under `k` in a table of pairs.
pub fn table_lookup(t: &Vec<(String, String)>, k: &str) -> (r: Option<String>)
    ensures
        match r {
            Some(v) => table_get(pair_views(t@), k@) == Some(v@),
            None => table_get(pair_views(t@), k@) is None,
        },
{
    let ghost tv = pair_views(t@);
    let mut i: usize = 0;
    assert(tv.take(0) =~= Seq::<(Seq<char>, Seq<char>)>::empty());
    while i < t.len()
        invariant
            i <= t@.len(), tv == pair_views(t@),
            table_get(tv.take(i as int), k@) is None,
        decreases t.len() - i,
    {
        assert(tv.take(i + 1).drop_last() =~= tv.take(i as int));
        if str_eq(t[i].0.as_str(), k) {
            proof { lemma_table_get_prefix(tv, i + 1, k@); }
            return Some(t[i].1.clone());
        }
        i = i + 1;
    }
    assert(tv.take(t@.len() as int) =~= tv);
    None
}

/// The settings of the plugin as plain values.
pub struct ColorSettings {
    pub current_color: Option<Seq<char>>,
    pub names2hex: bool,
    pub rgb2hex: bool,
    pub convert_case: Option<Seq<char>>,
    pub shorthex: bool,
    pub shortname: bool,
}

/// The settings of the plugin.
#[derive(Debug)]
pub struct ConvertColorsConfig {
    /// Where set, colors outside masks become `currentColor`.
    pub current_color: Option<String>,
    /// Color keywords become hex.
    pub names2hex: bool,
    /// `rgb()` values become hex.
    pub rgb2hex: bool,
    /// `"lower"` or `"upper"`: the case that colors are written in.
    pub convert_case: Option<String>,
    /// `#aabbcc` becomes `#abc`.
    pub shorthex: bool,
    /// Hex values with a shorter name become that name.
    pub shortname: bool,
}

impl View for ConvertColorsConfig {
    type V = ColorSettings;

    open spec fn view(&self) -> ColorSettings {
        ColorSettings {
            current_color: match self.current_color { Some(s) => Some(s@), None => None },
            names2hex: self.names2hex,
            rgb2hex: self.rgb2hex,
            convert_case: match self.convert_case { Some(s) => Some(s@), None => None },
            shorthex: self.shorthex,
            shortname: self.shortname,
        }
    }
}

/// The string found under `k` in optional parameters.
pub open spec fn param_str(params: Option<Value>, k: Seq<char>) -> Option<Seq<char>> {
    match params {
        Some(p) => match value_get(p, k) {
            Some(Value::String(s)) => Some(s@),
            _ => None,
        },
        None => None,
    }
}

/// The settings that the parameters give: the switches default to true,
/// `currentColor` and `convertCase` to none.
pub open spec fn color_settings(params: Option<Value>) -> ColorSettings {
    ColorSettings {
        current_color: param_str(params, "currentColor"@),
        names2hex: param_bool(params, "names2hex"@, true),
        rgb2hex: param_bool(params, "rgb2hex"@, true),
        convert_case: param_str(params, "convertCase"@),
        shorthex: param_bool(params, "shorthex"@, true),
        shortname: param_bool(params, "shortname"@, true),
    }
}

fn string_param(params: Option<&Value>, key: &str) -> (r: Option<String>)
    ensures
        match r {
            Some(s) => param_str(opt_value(params), key@) == Some(s@),
            None => param_str(opt_value(params), key@) is None,
        },
{
    match params {
        Some(p) => match p.get(key) {
            Some(Value::String(s)) => Some(s.clone()),
            _ => None,
        },
        None => None,
    }
}

impl ConvertColorsConfig {
    /// The settings that the parameters give.
    pub fn from_params(params: Option<&Value>) -> (r: ConvertColorsConfig)
        ensures
            r@ == color_settings(opt_value(params)),
    {
        ConvertColorsConfig {
            current_color: string_param(params, "currentColor"),
            names2hex: get_bool_param(params, "names2hex", true),
            rgb2hex: get_bool_param(params, "rgb2hex", true),
            convert_case: string_param(params, "convertCase"),
            shorthex: get_bool_param(params, "shorthex", true),
            shortname: get_bool_param(params, "shortname", true),
        }
    }
}

/// The number of bytes that a character takes in UTF-8.
pub open spec fn utf8_width(c: char) -> nat {
    if (c as u32) < 0x80 {
        1
    } else if (c as u32) < 0x800 {
        2
    } else if (c as u32) < 0x10000 {
        3
    } else {
        4
    }
}

/// The number of bytes that a text takes in UTF-8.
pub open spec fn utf8_len(s: Seq<char>) -> nat
    decreases s.len(),
{
    if s.len() == 0 { 0 } else { utf8_len(s.drop_last()) + utf8_width(s.last()) }
}

proof fn lemma_utf8_len_grows(s: Seq<char>, i: int)
    requires
        0 <= i <= s.len(),
    ensures
        utf8_len(s.take(i)) <= utf8_len(s),
    decreases s.len() - i,
{
    if i < s.len() {
        assert(s.take(i + 1).drop_last() =~= s.take(i));
        lemma_utf8_len_grows(s, i + 1);
    } else {
        assert(s.take(i) =~= s);
    }
}

/// Whether a text takes exactly `n` bytes in UTF-8.
fn has_utf8_len(cs: &Vec<char>, n: usize) -> (r: bool)
    ensures
        r == (utf8_len(cs@) == n),
{
    let mut sum: usize = 0;
    let mut i: usize = 0;
    assert(cs@.take(0) =~= Seq::<char>::empty());
    while i < cs.len()
        invariant
            i <= cs@.len(), sum == utf8_len(cs@.take(i as int)), sum <= n,
        decreases cs.len() - i,
    {
        assert(cs@.take(i + 1).drop_last() =~= cs@.take(i as int));
        let c = cs[i];
        let w: usize = if (c as u32) < 0x80 { 1 } else if (c as u32) < 0x800 { 2 } else if (c as u32) < 0x10000 { 3 } else { 4 };
        if w > n - sum {
            proof { lemma_utf8_len_grows(cs@, i + 1); }
            return false;
        }
        sum = sum + w;
        i = i + 1;
    }
    assert(cs@.take(cs@.len() as int) =~= cs@);
    sum == n
}

/// Whether shortening a hex color would index past the end of the text:
/// it takes seven bytes and begins with `#`, but has fewer than seven
/// characters, and the comparisons of its digit pairs reach past its end.
pub open spec fn short_hex_panics(v: Seq<char>) -> bool {
    &&& utf8_len(v) == 7
    &&& v[0] == '#'
    &&& (v.len() < 3 || (v[1] == v[2] && (v.len() < 5 || (v[3] == v[4] && v.len() < 7))))
}

/// `#aabbcc` as `#abc`: a seven-byte hex color whose digits come in
/// equal pairs.
pub open spec fn short_hex(v: Seq<char>) -> Option<Seq<char>> {
    if utf8_len(v) == 7 && v.len() == 7 && v[0] == '#' && v[1] == v[2] && v[3] == v[4] && v[5] == v[6] {
        Some(seq!['#', v[1], v[3], v[5]])
    } else {
        None
    }
}

/// The short form of a hex color whose digits come in equal pairs.
pub fn convert_to_short_hex(value: &str) -> (r: Option<String>)
    requires
        !short_hex_panics(value@),
    ensures
        match r {
            Some(s) => short_hex(value@) == Some(s@),
            None => short_hex(value@) is None,
        },
{
    let cs = to_chars(value);
    if has_utf8_len(&cs, 7) && cs.len() > 0 && cs[0] == '#' {
        if cs.len() >= 7 && cs[1] == cs[2] && cs[3] == cs[4] && cs[5] == cs[6] {
            proof {
                if cs@.len() > 7 {
                    lemma_utf8_len_grows(cs@, 8);
                    assert(utf8_len(cs@.take(8)) >= 8) by {
                        lemma_utf8_len_at_least(cs@.take(8));
                    }
                }
            }
            let mut out: Vec<char> = Vec::new();
            out.push('#');
            out.push(cs[1]);
            out.push(cs[3]);
            out.push(cs[5]);
            assert(out@ =~= seq!['#', cs@[1], cs@[3], cs@[5]]);
            return Some(crate::strings::from_chars(out.as_slice()));
        }
    }
    None
}

proof fn lemma_utf8_len_at_least(s: Seq<char>)
    ensures
        utf8_len(s) >= s.len(),
    decreases s.len(),
{
    if s.len() > 0 {
        lemma_utf8_len_at_least(s.drop_last());
    }
}

/// Whether a value refers to something with `url(`.
pub fn includes_url_reference(value: &str) -> (r: bool)
    ensures
        r == contains_seq(value@, "url("@),
{
    str_contains(value, "url(")
}

/// The attributes that hold colors.
pub open spec fn color_props() -> Seq<Seq<char>> {
    seq!["color"@, "fill"@, "flood-color"@, "lighting-color"@, "stop-color"@, "stroke"@]
}

/// A color before its `rgb()` form is converted: outside masks it becomes
/// `currentColor` where that is asked for (unless it is `none`), and a
/// color keyword becomes its hex value.
pub open spec fn before_rgb(v: Seq<char>, s: ColorSettings, in_mask: bool) -> Seq<char> {
    let v1 = match s.current_color {
        Some(p) => if !in_mask && (v == p || v != "none"@) { "currentColor"@ } else { v },
        None => v,
    };
    if s.names2hex {
        match table_get(color_names(), lower_text(v1)) {
            Some(h) => h,
            None => v1,
        }
    } else {
        v1
    }
}

/// A color after its `rgb()` form is converted, by the table of converted
/// values `rgb`.
pub open spec fn rgb_step(v: Seq<char>, s: ColorSettings, rgb: Seq<(Seq<char>, Seq<char>)>) -> Seq<char> {
    if s.rgb2hex {
        match table_get(rgb, v) {
            Some(h) => h,
            None => v,
        }
    } else {
        v
    }
}

/// A color written in the case asked for, unless it refers to a `url(` or
/// is `currentColor`.
pub open spec fn case_step(v: Seq<char>, s: ColorSettings) -> Seq<char> {
    match s.convert_case {
        Some(c) => if !contains_seq(v, "url("@) && v != "currentColor"@ {
            if c == "lower"@ {
                lower_text(v)
            } else if c == "upper"@ {
                upper_text(v)
            } else {
                v
            }
        } else {
            v
        },
        None => v,
    }
}

/// A color shortened: long hex to short hex, then hex to a shorter name.
pub open spec fn shortened(v: Seq<char>, s: ColorSettings) -> Seq<char> {
    let v1 = if s.shorthex {
        match short_hex(v) {
            Some(h) => h,
            None => v,
        }
    } else {
        v
    };
    if s.shortname {
        match table_get(color_short_names(), lower_text(v1)) {
            Some(n) => n,
            None => v1,
        }
    } else {
        v1
    }
}

/// A color after the plugin.
pub open spec fn converted_color(v: Seq<char>, s: ColorSettings, in_mask: bool, rgb: Seq<(Seq<char>, Seq<char>)>) -> Seq<char> {
    shortened(case_step(rgb_step(before_rgb(v, s, in_mask), s, rgb), s), s)
}

/// Whether converting a color does not index past the end of it.
pub open spec fn color_safe(v: Seq<char>, s: ColorSettings, in_mask: bool, rgb: Seq<(Seq<char>, Seq<char>)>) -> bool {
    !(s.shorthex && short_hex_panics(case_step(rgb_step(before_rgb(v, s, in_mask), s, rgb), s)))
}

/// An attribute after the plugin.
pub open spec fn converted_attr(p: (Seq<char>, Seq<char>), s: ColorSettings, in_mask: bool, rgb: Seq<(Seq<char>, Seq<char>)>) -> (Seq<char>, Seq<char>) {
    if color_props().contains(p.0) { (p.0, converted_color(p.1, s, in_mask, rgb)) } else { p }
}

pub open spec fn converted_attrs(a: Seq<(Seq<char>, Seq<char>)>, s: ColorSettings, in_mask: bool, rgb: Seq<(Seq<char>, Seq<char>)>) -> Seq<(Seq<char>, Seq<char>)> {
    a.map_values(|p: (Seq<char>, Seq<char>)| converted_attr(p, s, in_mask, rgb))
}

pub open spec fn attrs_safe(a: Seq<(Seq<char>, Seq<char>)>, s: ColorSettings, in_mask: bool, rgb: Seq<(Seq<char>, Seq<char>)>) -> bool {
    forall|i: int| 0 <= i < a.len() && color_props().contains(#[trigger] a[i].0) ==> color_safe(a[i].1, s, in_mask, rgb)
}

/// An element and its descendants after the plugin; an element inside a
/// `<mask>`, or a mask itself, keeps its colors from becoming
/// `currentColor`.
pub open spec fn colored_elem(e: ElementView, s: ColorSettings, in_mask: bool, rgb: Seq<(Seq<char>, Seq<char>)>) -> ElementView
    decreases e,
{
    let m = in_mask || e.name == "mask"@;
    ElementView { name: e.name, attrs: converted_attrs(e.attrs, s, m, rgb), children: colored_children(e.children, s, m, rgb), ns: e.ns }
}

pub open spec fn colored_children(c: Seq<NodeView>, s: ColorSettings, in_mask: bool, rgb: Seq<(Seq<char>, Seq<char>)>) -> Seq<NodeView>
    decreases c,
{
    if c.len() == 0 {
        Seq::empty()
    } else {
        colored_children(c.drop_last(), s, in_mask, rgb).push(match c.last() {
            NodeView::Element(x) => NodeView::Element(colored_elem(x, s, in_mask, rgb)),
            other => other,
        })
    }
}

/// Whether converting the colors of an element and its descendants does
/// not index past the end of one.
pub open spec fn colors_safe(e: ElementView, s: ColorSettings, in_mask: bool, rgb: Seq<(Seq<char>, Seq<char>)>) -> bool
    decreases e,
{
    let m = in_mask || e.name == "mask"@;
    attrs_safe(e.attrs, s, m, rgb) && children_safe(e.children, s, m, rgb)
}

pub open spec fn children_safe(c: Seq<NodeView>, s: ColorSettings, in_mask: bool, rgb: Seq<(Seq<char>, Seq<char>)>) -> bool
    decreases c,
{
    if c.len() == 0 {
        true
    } else {
        children_safe(c.drop_last(), s, in_mask, rgb) && match c.last() {
            NodeView::Element(x) => colors_safe(x, s, in_mask, rgb),
            _ => true,
        }
    }
}

/// The colors of an element and its descendants as they stand before their
/// `rgb()` form is converted, in document order.
pub open spec fn rgb_inputs(e: ElementView, s: ColorSettings, in_mask: bool) -> Seq<Seq<char>>
    decreases e,
{
    let m = in_mask || e.name == "mask"@;
    attr_rgb_inputs(e.attrs, s, m) + children_rgb_inputs(e.children, s, m)
}

pub open spec fn attr_rgb_inputs(a: Seq<(Seq<char>, Seq<char>)>, s: ColorSettings, in_mask: bool) -> Seq<Seq<char>>
    decreases a.len(),
{
    if a.len() == 0 {
        Seq::empty()
    } else if color_props().contains(a.last().0) {
        attr_rgb_inputs(a.drop_last(), s, in_mask).push(before_rgb(a.last().1, s, in_mask))
    } else {
        attr_rgb_inputs(a.drop_last(), s, in_mask)
    }
}

pub open spec fn children_rgb_inputs(c: Seq<NodeView>, s: ColorSettings, in_mask: bool) -> Seq<Seq<char>>
    decreases c,
{
    if c.len() == 0 {
        Seq::empty()
    } else {
        children_rgb_inputs(c.drop_last(), s, in_mask) + match c.last() {
            NodeView::Element(x) => rgb_inputs(x, s, in_mask),
            _ => Seq::empty(),
        }
    }
}

fn is_color_prop(name: &str) -> (r: bool)
    ensures
        r == color_props().contains(name@),
{
    let mut props: Vec<String> = Vec::new();
    props.push(owned("color"));
    props.push(owned("fill"));
    props.push(owned("flood-color"));
    props.push(owned("lighting-color"));
    props.push(owned("stop-color"));
    props.push(owned("stroke"));
    assert(props@.map_values(|x: String| x@) =~= color_props());
    crate::strings::contains_string(&props, name)
}

/// A color before its `rgb()` form is converted.
pub fn color_before_rgb(value: &str, config: &ConvertColorsConfig, in_mask: bool) -> (r: String)
    ensures
        r@ == before_rgb(value@, config@, in_mask),
{
    let mut val = owned(value);
    match &config.current_color {
        Some(p) => {
            if !in_mask && (str_eq(val.as_str(), p.as_str()) || !str_eq(val.as_str(), "none")) {
                val = owned("currentColor");
            }
        },
        None => {},
    }
    if config.names2hex {
        let low = to_lowercase(val.as_str());
        let names = get_color_names();
        match table_lookup(&names, low.as_str()) {
            Some(h) => { val = h; },
            None => {},
        }
    }
    val
}

/// A color after its `rgb()` form was converted.
pub fn color_after_rgb(value: &str, config: &ConvertColorsConfig) -> (r: String)
    requires
        !(config.shorthex && short_hex_panics(case_step(value@, config@))),
    ensures
        r@ == shortened(case_step(value@, config@), config@),
{
    let mut val = owned(value);
    match &config.convert_case {
        Some(c) => {
            if !includes_url_reference(val.as_str()) && !str_eq(val.as_str(), "currentColor") {
                if str_eq(c.as_str(), "lower") {
                    val = to_lowercase(val.as_str());
                } else if str_eq(c.as_str(), "upper") {
                    val = to_uppercase(val.as_str());
                }
            }
        },
        None => {},
    }
    if config.shorthex {
        match convert_to_short_hex(val.as_str()) {
            Some(h) => { val = h; },
            None => {},
        }
    }
    if config.shortname {
        let low = to_lowercase(val.as_str());
        let names = get_color_short_names();
        match table_lookup(&names, low.as_str()) {
            Some(n) => { val = n; },
            None => {},
        }
    }
    val
}

/// A color after the plugin, with `rgb` the table of converted `rgb()`
/// values.
pub fn convert_color_value(value: &str, config: &ConvertColorsConfig, in_mask: bool, rgb: &Vec<(String, String)>) -> (r: String)
    requires
        color_safe(value@, config@, in_mask, pair_views(rgb@)),
    ensures
        r@ == converted_color(value@, config@, in_mask, pair_views(rgb@)),
{
    let mut val = color_before_rgb(value, config, in_mask);
    if config.rgb2hex {
        match table_lookup(rgb, val.as_str()) {
            Some(h) => { val = h; },
            None => {},
        }
    }
    color_after_rgb(val.as_str(), config)
}

/// Converts the colors among an element's attributes; `mask_counter` is
/// the number of masks the element is in (itself included).
pub fn convert_colors_in_element_attrs(element: &mut Element, config: &ConvertColorsConfig, mask_counter: usize,
    rgb: &Vec<(String, String)>)
    requires
        attrs_safe(attr_entries(old(element).attributes), config@, mask_counter > 0, pair_views(rgb@)),
    ensures
        attr_entries(final(element).attributes) == converted_attrs(attr_entries(old(element).attributes), config@,
            mask_counter > 0, pair_views(rgb@)),
        final(element).name == old(element).name,
        final(element).children == old(element).children,
        final(element).namespaces == old(element).namespaces,
{
    let ghost a = attr_entries(element.attributes);
    let ghost rv = pair_views(rgb@);
    let pairs = attr_pairs(&element.attributes);
    let mut out: Vec<(String, String)> = Vec::new();
    let mut i: usize = 0;
    while i < pairs.len()
        invariant
            i <= pairs@.len(), pairs@.len() == a.len(), rv == pair_views(rgb@),
            forall|k: int| 0 <= k < pairs@.len() ==> (#[trigger] pairs@[k]).0@ == a[k].0 && pairs@[k].1@ == a[k].1,
            attrs_safe(a, config@, mask_counter > 0, rv),
            pair_views(out@) == converted_attrs(a.take(i as int), config@, mask_counter > 0, rv),
        decreases pairs.len() - i,
    {
        let ghost before = out@;
        assert(pairs@[i as int].0@ == a[i as int].0 && pairs@[i as int].1@ == a[i as int].1);
        if is_color_prop(pairs[i].0.as_str()) {
            assert(color_props().contains(a[i as int].0));
            let v = convert_color_value(pairs[i].1.as_str(), config, mask_counter > 0, rgb);
            out.push((pairs[i].0.clone(), v));
        } else {
            out.push((pairs[i].0.clone(), pairs[i].1.clone()));
        }
        proof {
            let item = converted_attr(a[i as int], config@, mask_counter > 0, rv);
            assert(pair_views(out@) =~= pair_views(before).push(item));
            assert(converted_attrs(a.take(i + 1), config@, mask_counter > 0, rv)
                =~= converted_attrs(a.take(i as int), config@, mask_counter > 0, rv).push(item));
        }
        i = i + 1;
    }
    assert(a.take(a.len() as int) =~= a);
    assert(keys_distinct(pair_views(out@))) by {
        assert forall|x: int, y: int| 0 <= x < y < pair_views(out@).len() implies
            (#[trigger] pair_views(out@)[x]).0 != (#[trigger] pair_views(out@)[y]).0 by {
            assert(a[x].0 != a[y].0);
        }
    }
    element.set_attributes(out);
}

/// Converts the colors of an element and its descendants, as
/// `colored_elem` says; `mask_counter` counts the masks around it.
pub fn convert_colors_in_element(element: &mut Element, config: &ConvertColorsConfig, mask_counter: usize,
    rgb: &Vec<(String, String)>)
    requires
        colors_safe(elem_view(*old(element)), config@, mask_counter > 0, pair_views(rgb@)),
    ensures
        elem_view(*final(element)) == colored_elem(elem_view(*old(element)), config@, mask_counter > 0, pair_views(rgb@)),
    decreases *old(element),
{
    let ghost rv = pair_views(rgb@);
    let ghost ev = elem_view(*element);
    let counter = if str_eq(element.name.as_str(), "mask") { mask_counter.saturating_add(1) } else { mask_counter };
    assert((counter > 0) == (mask_counter > 0 || ev.name == "mask"@));
    convert_colors_in_element_attrs(element, config, counter, rgb);
    let mut kids: Vec<Node> = Vec::new();
    std::mem::swap(&mut kids, &mut element.children);
    let ghost orig = kids@;
    proof { lemma_nodes_view(orig); }
    let n = kids.len();
    let mut out: Vec<Node> = Vec::new();
    let mut i: usize = 0;
    assert(nodes_view(out@) =~= Seq::<NodeView>::empty());
    while i < n
        invariant
            n == orig.len(), i <= n,
            kids@ == orig.subrange(i as int, n as int),
            nodes_view(orig) == ev.children, nodes_view(orig).len() == n,
            forall|k: int| 0 <= k < n ==> #[trigger] nodes_view(orig)[k] == node_view(orig[k]),
            children_safe(ev.children, config@, counter > 0, rv),
            nodes_view(out@) == colored_children(nodes_view(orig).take(i as int), config@, counter > 0, rv),
            rv == pair_views(rgb@),
            forall|k: int| 0 <= k < n ==> decreases_to!(*old(element) => #[trigger] orig[k]),
        decreases n - i,
    {
        let child = kids.remove(0);
        assert(child == orig[i as int]);
        assert(nodes_view(orig).take(i + 1).drop_last() =~= nodes_view(orig).take(i as int));
        proof { lemma_children_safe_at(ev.children, config@, counter > 0, rv, i as int); }
        match child {
            Node::Element(mut ce) => {
                convert_colors_in_element(&mut ce, config, counter, rgb);
                proof { lemma_nodes_view_push(out@, Node::Element(ce)); }
                out.push(Node::Element(ce));
            },
            other => {
                proof { lemma_nodes_view_push(out@, other); }
                out.push(other);
            },
        }
        i = i + 1;
    }
    assert(nodes_view(orig).take(n as int) =~= nodes_view(orig));
    element.children = out;
}

proof fn lemma_children_safe_at(c: Seq<NodeView>, s: ColorSettings, in_mask: bool, rgb: Seq<(Seq<char>, Seq<char>)>, i: int)
    requires
        children_safe(c, s, in_mask, rgb),
        0 <= i < c.len(),
    ensures
        c[i] matches NodeView::Element(x) ==> colors_safe(x, s, in_mask, rgb),
    decreases c.len(),
{
    if i < c.len() - 1 {
        assert(c.drop_last()[i] == c[i]);
        lemma_children_safe_at(c.drop_last(), s, in_mask, rgb, i);
    }
}

/// Whether converting a color does not index past the end of it.
pub fn color_is_safe(value: &str, config: &ConvertColorsConfig, in_mask: bool, rgb: &Vec<(String, String)>) -> (r: bool)
    ensures
        r == color_safe(value@, config@, in_mask, pair_views(rgb@)),
{
    if !config.shorthex {
        return true;
    }
    let mut val = color_before_rgb(value, config, in_mask);
    if config.rgb2hex {
        match table_lookup(rgb, val.as_str()) {
            Some(h) => { val = h; },
            None => {},
        }
    }
    match &config.convert_case {
        Some(c) => {
            if !includes_url_reference(val.as_str()) && !str_eq(val.as_str(), "currentColor") {
                if str_eq(c.as_str(), "lower") {
                    val = to_lowercase(val.as_str());
                } else if str_eq(c.as_str(), "upper") {
                    val = to_uppercase(val.as_str());
                }
            }
        },
        None => {},
    }
    let cs = to_chars(val.as_str());
    let bytes7 = has_utf8_len(&cs, 7);
    let panics = bytes7 && cs[0] == '#' && (cs.len() < 3 || (cs[1] == cs[2] && (cs.len() < 5 || (cs[3] == cs[4] && cs.len() < 7))));
    proof {
        if bytes7 {
            lemma_utf8_len_at_least(cs@);
            assert(cs@.len() > 0) by {
                if cs@.len() == 0 { assert(utf8_len(cs@) == 0); }
            }
        }
    }
    !panics
}

/// Whether converting the colors of an element and its descendants does
/// not index past the end of one.
pub fn colors_are_safe(element: &Element, config: &ConvertColorsConfig, mask_counter: usize, rgb: &Vec<(String, String)>) -> (r: bool)
    ensures
        r == colors_safe(elem_view(*element), config@, mask_counter > 0, pair_views(rgb@)),
    decreases *element,
{
    let ghost rv = pair_views(rgb@);
    let ghost ev = elem_view(*element);
    let counter = if str_eq(element.name.as_str(), "mask") { mask_counter.saturating_add(1) } else { mask_counter };
    assert((counter > 0) == (mask_counter > 0 || ev.name == "mask"@));
    let pairs = attr_pairs(&element.attributes);
    let ghost a = attr_entries(element.attributes);
    let mut i: usize = 0;
    while i < pairs.len()
        invariant
            i <= pairs@.len(), pairs@.len() == a.len(), rv == pair_views(rgb@), a == ev.attrs,
            ev == elem_view(*element), (counter > 0) == (mask_counter > 0 || ev.name == "mask"@),
            forall|k: int| 0 <= k < pairs@.len() ==> (#[trigger] pairs@[k]).0@ == a[k].0 && pairs@[k].1@ == a[k].1,
            forall|k: int| 0 <= k < i && color_props().contains(#[trigger] a[k].0) ==> color_safe(a[k].1, config@, counter > 0, rv),
        decreases pairs.len() - i,
    {
        assert(pairs@[i as int].0@ == a[i as int].0 && pairs@[i as int].1@ == a[i as int].1);
        if is_color_prop(pairs[i].0.as_str()) && !color_is_safe(pairs[i].1.as_str(), config, counter > 0, rgb) {
            assert(color_props().contains(a[i as int].0));
            assert(!attrs_safe(a, config@, counter > 0, rv));
            return false;
        }
        i = i + 1;
    }
    assert(attrs_safe(a, config@, counter > 0, rv));
    proof { lemma_nodes_view(element.children@); }
    let mut j: usize = 0;
    assert(ev.children.take(0) =~= Seq::<NodeView>::empty());
    while j < element.children.len()
        invariant
            j <= element.children@.len(), ev == elem_view(*element), rv == pair_views(rgb@),
            ev.children.len() == element.children@.len(),
            (counter > 0) == (mask_counter > 0 || ev.name == "mask"@),
            forall|k: int| 0 <= k < element.children@.len() ==> #[trigger] ev.children[k] == node_view(element.children@[k]),
            children_safe(ev.children.take(j as int), config@, counter > 0, rv),
        decreases element.children.len() - j,
    {
        assert(ev.children.take(j + 1).drop_last() =~= ev.children.take(j as int));
        if let Node::Element(c) = &element.children[j] {
            assert(decreases_to!(*element => element.children@[j as int]));
            if !colors_are_safe(c, config, counter, rgb) {
                proof { lemma_children_unsafe(ev.children, config@, counter > 0, rv, j as int + 1); }
                return false;
            }
        }
        j = j + 1;
    }
    assert(ev.children.take(ev.children.len() as int) =~= ev.children);
    true
}

proof fn lemma_children_unsafe(c: Seq<NodeView>, s: ColorSettings, in_mask: bool, rgb: Seq<(Seq<char>, Seq<char>)>, k: int)
    requires
        0 <= k <= c.len(),
        !children_safe(c.take(k), s, in_mask, rgb),
    ensures
        !children_safe(c, s, in_mask, rgb),
    decreases c.len() - k,
{
    if k < c.len() {
        assert(c.take(k + 1).drop_last() =~= c.take(k));
        lemma_children_unsafe(c, s, in_mask, rgb, k + 1);
    } else {
        assert(c.take(k) =~= c);
    }
}

/// The colors of an element and its descendants as they stand before their
/// `rgb()` form is converted, in document order: what the table of
/// converted values has to cover.
pub fn rgb_inputs_of(element: &Element, config: &ConvertColorsConfig, mask_counter: usize) -> (r: Vec<String>)
    ensures
        crate::strings::str_seq(r@) == rgb_inputs(elem_view(*element), config@, mask_counter > 0),
    decreases *element,
{
    let ghost ev = elem_view(*element);
    let counter = if str_eq(element.name.as_str(), "mask") { mask_counter.saturating_add(1) } else { mask_counter };
    let pairs = attr_pairs(&element.attributes);
    let ghost a = attr_entries(element.attributes);
    let mut out: Vec<String> = Vec::new();
    let mut i: usize = 0;
    assert(a.take(0) =~= Seq::<(Seq<char>, Seq<char>)>::empty());
    assert(crate::strings::str_seq(out@) =~= Seq::<Seq<char>>::empty());
    while i < pairs.len()
        invariant
            i <= pairs@.len(), pairs@.len() == a.len(), a == ev.attrs,
            forall|k: int| 0 <= k < pairs@.len() ==> (#[trigger] pairs@[k]).0@ == a[k].0 && pairs@[k].1@ == a[k].1,
            crate::strings::str_seq(out@) == attr_rgb_inputs(a.take(i as int), config@, counter > 0),
        decreases pairs.len() - i,
    {
        assert(a.take(i + 1).drop_last() =~= a.take(i as int));
        assert(a.take(i + 1).last() == a[i as int]);
        assert(pairs@[i as int].0@ == a[i as int].0 && pairs@[i as int].1@ == a[i as int].1);
        if is_color_prop(pairs[i].0.as_str()) {
            let ghost before = out@;
            out.push(color_before_rgb(pairs[i].1.as_str(), config, counter > 0));
            assert(crate::strings::str_seq(out@) =~= crate::strings::str_seq(before).push(
                before_rgb(a[i as int].1, config@, counter > 0)));
        }
        i = i + 1;
    }
    assert(a.take(a.len() as int) =~= a);
    proof { lemma_nodes_view(element.children@); }
    let ghost head = crate::strings::str_seq(out@);
    let mut j: usize = 0;
    assert(ev.children.take(0) =~= Seq::<NodeView>::empty());
    assert(head + Seq::<Seq<char>>::empty() =~= head);
    while j < element.children.len()
        invariant
            j <= element.children@.len(), ev == elem_view(*element),
            ev.children.len() == element.children@.len(),
            forall|k: int| 0 <= k < element.children@.len() ==> #[trigger] ev.children[k] == node_view(element.children@[k]),
            crate::strings::str_seq(out@) == head + children_rgb_inputs(ev.children.take(j as int), config@, counter > 0),
        decreases element.children.len() - j,
    {
        assert(ev.children.take(j + 1).drop_last() =~= ev.children.take(j as int));
        let ghost done = children_rgb_inputs(ev.children.take(j as int), config@, counter > 0);
        if let Node::Element(c) = &element.children[j] {
            assert(decreases_to!(*element => element.children@[j as int]));
            let more = rgb_inputs_of(c, config, counter);
            let ghost before = out@;
            let mut k: usize = 0;
            while k < more.len()
                invariant
                    k <= more@.len(),
                    crate::strings::str_seq(out@) == crate::strings::str_seq(before) + crate::strings::str_seq(more@).take(k as int),
                decreases more.len() - k,
            {
                let ghost b2 = out@;
                out.push(more[k].clone());
                assert(crate::strings::str_seq(out@) =~= crate::strings::str_seq(b2).push(more@[k as int]@));
                assert(crate::strings::str_seq(more@).take(k + 1) =~= crate::strings::str_seq(more@).take(k as int).push(more@[k as int]@));
                k = k + 1;
                assert(crate::strings::str_seq(out@) =~= crate::strings::str_seq(before) + crate::strings::str_seq(more@).take(k as int));
            }
            assert(crate::strings::str_seq(more@).take(more@.len() as int) =~= crate::strings::str_seq(more@));
            assert(crate::strings::str_seq(out@) =~= head + (done + rgb_inputs(elem_view(*c), config@, counter > 0)));
        } else {
            assert(done + Seq::<Seq<char>>::empty() =~= done);
        }
        j = j + 1;
    }
    assert(ev.children.take(ev.children.len() as int) =~= ev.children);
    out
}

} // verus!
