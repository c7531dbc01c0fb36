//! The parts of the optimization run that decide: when the passes stop and
//! how the output is framed as a data URI.

use vstd::prelude::*;
use crate::config::DataUriFormat;
use crate::strings::{owned, str_eq, to_chars, utf8_bytes};
use crate::laws::{law_url_encoded_clean, law_url_encoded_decodes, url_decoded};
use crate::plugins::cleanup_ids::{url_encode_id, url_encoding};
use base64::Engine;

verus! {

/// How `url_encode` writes one character.
pub open spec fn url_escape(c: char) -> Seq<char> {
    if c == ' ' {
        seq!['%', '2', '0']
    } else if c == '<' {
        seq!['%', '3', 'C']
    } else if c == '>' {
        seq!['%', '3', 'E']
    } else if c == '"' {
        seq!['%', '2', '2']
    } else if c == '#' {
        seq!['%', '2', '3']
    } else {
        seq![c]
    }
}

/// The text with each character written as `url_escape` writes it.
pub open spec fn url_encoded(s: Seq<char>) -> Seq<char>
    decreases s.len(),
{
    if s.len() == 0 {
        Seq::empty()
    } else {
        url_encoded(s.drop_last()) + url_escape(s.last())
    }
}

/// Escapes the characters that cannot stand in a data URI: space, `<`, `>`,
/// `"` and `#` become `%20`, `%3C`, `%3E`, `%22` and `%23`.  None of them
/// is left in the result, and for a text without `%` decoding the result
/// gives the text back.
pub fn url_encode(input: &str) -> (r: String)
    ensures
        r@ == url_encoded(input@),
        forall|i: int| 0 <= i < r@.len() ==> {
            let c = #[trigger] r@[i];
            c != ' ' && c != '<' && c != '>' && c != '"' && c != '#'
        },
        !input@.contains('%') ==> url_decoded(r@) == input@,
{
    proof {
        law_url_encoded_clean(input@);
        if !input@.contains('%') {
            law_url_encoded_decodes(input@);
        }
    }
    let cs = to_chars(input);
    let mut out = String::new();
    let mut i: usize = 0;
    while i < cs.len()
        invariant
            i <= cs@.len(),
            cs@ == input@,
            out@ == url_encoded(cs@.take(i as int)),
        decreases cs.len() - i,
    {
        let c = cs[i];
        assert(cs@.take(i + 1).drop_last() =~= cs@.take(i as int));
        if c == ' ' {
            proof { reveal_strlit("%20"); }
            out.append("%20");
        } else if c == '<' {
            proof { reveal_strlit("%3C"); }
            out.append("%3C");
        } else if c == '>' {
            proof { reveal_strlit("%3E"); }
            out.append("%3E");
        } else if c == '"' {
            proof { reveal_strlit("%22"); }
            out.append("%22");
        } else if c == '#' {
            proof { reveal_strlit("%23"); }
            out.append("%23");
        } else {
            let mut one: Vec<char> = Vec::new();
            one.push(c);
            assert(one@ =~= seq![c]);
            out.append(crate::strings::from_chars(one.as_slice()).as_str());
        }
        assert(out@ =~= url_encoded(cs@.take(i as int)) + url_escape(c));
        i = i + 1;
    }
    assert(cs@.take(cs@.len() as int) =~= cs@);
    out
}

/// The payload of a base64 data URI: the standard base64 of the text's
/// UTF-8 bytes.
pub fn base64_encode(input: &str) -> (r: String)
    ensures
        r@ == base64_standard(input@),
{
    base64_standard_encode(input)
}

/// The prefix of a data URI of the given format.
pub open spec fn datauri_prefix(format: DataUriFormat) -> Seq<char> {
    match format {
        DataUriFormat::Base64 => "data:image/svg+xml;base64,"@,
        _ => "data:image/svg+xml,"@,
    }
}

/// The payload of a data URI of the given format.
pub open spec fn datauri_payload(svg: Seq<char>, format: DataUriFormat) -> Seq<char> {
    match format {
        DataUriFormat::Base64 => base64_standard(svg),
        DataUriFormat::Enc => url_encoded(svg),
        DataUriFormat::Unenc => svg,
    }
}

/// Frames the SVG text as a data URI of the given format.
pub fn apply_datauri_encoding(svg: &str, format: &DataUriFormat) -> (r: String)
    ensures
        r@ == datauri_prefix(*format) + datauri_payload(svg@, *format),
{
    match format {
        DataUriFormat::Base64 => {
            let mut out = owned("data:image/svg+xml;base64,");
            out.append(base64_encode(svg).as_str());
            out
        },
        DataUriFormat::Enc => {
            let mut out = owned("data:image/svg+xml,");
            out.append(url_encode(svg).as_str());
            out
        },
        DataUriFormat::Unenc => {
            let mut out = owned("data:image/svg+xml,");
            out.append(svg);
            out
        },
    }
}

/// The most passes that a multipass run makes.
pub const MAX_PASSES: usize = 10;

/// Whether the pass just made is the last one: always without multipass,
/// and otherwise once the output no longer changes or the passes reach
/// `MAX_PASSES`.
pub fn is_last_pass(multipass: bool, current: &str, previous: &str, passes: usize) -> (r: bool)
    ensures
        r == (!multipass || current@ == previous@ || passes >= MAX_PASSES),
{
    !multipass || str_eq(current, previous) || passes >= MAX_PASSES
}

/// The output of the last pass, framed as a data URI when a format is set.
pub fn final_output(current: String, datauri: &Option<DataUriFormat>) -> (r: String)
    ensures
        match *datauri {
            Some(f) => r@ == datauri_prefix(f) + datauri_payload(current@, f),
            None => r@ == current@,
        },
{
    match datauri {
        Some(f) => apply_datauri_encoding(current.as_str(), f),
        None => current,
    }
}

/// The character of a six-bit value in the standard base64 alphabet
/// `A-Za-z0-9+/`.
pub open spec fn base64_digit(v: int) -> char {
    if v < 26 {
        ('A' as int + v) as char
    } else if v < 52 {
        ('a' as int + (v - 26)) as char
    } else if v < 62 {
        ('0' as int + (v - 52)) as char
    } else if v == 62 {
        '+'
    } else {
        '/'
    }
}

/// Standard base64 of bytes: each three bytes give four characters of six
/// bits each; a last group of one or two bytes is padded with `=`.
pub open spec fn base64_of(b: Seq<u8>) -> Seq<char>
    decreases b.len(),
{
    if b.len() == 0 {
        Seq::empty()
    } else if b.len() == 1 {
        seq![base64_digit(b[0] as int / 4), base64_digit((b[0] as int % 4) * 16), '=', '=']
    } else if b.len() == 2 {
        seq![base64_digit(b[0] as int / 4), base64_digit((b[0] as int % 4) * 16 + b[1] as int / 16),
            base64_digit((b[1] as int % 16) * 4), '=']
    } else {
        seq![base64_digit(b[0] as int / 4), base64_digit((b[0] as int % 4) * 16 + b[1] as int / 16),
            base64_digit((b[1] as int % 16) * 4 + b[2] as int / 64), base64_digit(b[2] as int % 64)]
            + base64_of(b.skip(3))
    }
}

/// The standard base64, with `=` padding, of the UTF-8 bytes of a text.
pub open spec fn base64_standard(s: Seq<char>) -> Seq<char> {
    base64_of(utf8_bytes(s))
}

/// Encodes the UTF-8 bytes of a text with `base64`'s standard engine
/// (`general_purpose::STANDARD.encode`): alphabet `A-Za-z0-9+/`, padded
/// with `=`.
#[verifier::external_body]
fn base64_standard_encode(s: &str) -> (r: String)
    ensures
        r@ == base64_standard(s@),
{
    base64::engine::general_purpose::STANDARD.encode(s)
}

/// The data URI that the command line writes for a payload already
/// encoded for the kind `kind`: `base64`, `enc` or `unenc`.
pub open spec fn datauri_framed(kind: Seq<char>, payload: Seq<char>) -> Option<Seq<char>> {
    if kind == "base64"@ {
        Some("data:image/svg+xml;base64,"@ + payload)
    } else if kind == "enc"@ || kind == "unenc"@ {
        Some("data:image/svg+xml;charset=utf-8,"@ + payload)
    } else {
        None
    }
}

/// The payload of a data URI of the kind `kind`, for the SVG text `svg`.
pub open spec fn datauri_encoded(kind: Seq<char>, svg: Seq<char>) -> Seq<char> {
    if kind == "base64"@ {
        base64_standard(svg)
    } else if kind == "enc"@ {
        url_encoding(svg)
    } else {
        svg
    }
}

/// Frames an encoded payload as the data URI of the kind `kind`; `None`
/// for a kind other than `base64`, `enc` and `unenc`.
pub fn frame_datauri(kind: &str, payload: &str) -> (r: Option<String>)
    ensures
        match r {
            Some(u) => datauri_framed(kind@, payload@) == Some(u@),
            None => datauri_framed(kind@, payload@) is None,
        },
{
    let prefix = if str_eq(kind, "base64") {
        "data:image/svg+xml;base64,"
    } else if str_eq(kind, "enc") || str_eq(kind, "unenc") {
        "data:image/svg+xml;charset=utf-8,"
    } else {
        return None;
    };
    let mut out = owned(prefix);
    out.append(payload);
    Some(out)
}

/// The data URI of the kind `kind` (`base64`: the standard base64 of the
/// text; `enc`: its percent-encoding; `unenc`: the text itself) that the
/// command line writes; `None` for any other kind.
pub fn cli_datauri(svg: &str, kind: &str) -> (r: Option<String>)
    ensures
        match r {
            Some(u) => datauri_framed(kind@, datauri_encoded(kind@, svg@)) == Some(u@),
            None => datauri_framed(kind@, datauri_encoded(kind@, svg@)) is None,
        },
{
    if str_eq(kind, "base64") {
        let payload = base64_standard_encode(svg);
        frame_datauri(kind, payload.as_str())
    } else if str_eq(kind, "enc") {
        let payload = url_encode_id(svg);
        frame_datauri(kind, payload.as_str())
    } else {
        frame_datauri(kind, svg)
    }
}

} // verus!
