//! The URL of a tile, and the tile format that a URL template promises.

use crate::text::{
    ascii_lowercase, chars_of, decimal, is_word, replace, replace_all, string_of, text_of,
    to_ascii_lowercase, to_decimal,
};
use crate::tile::Tile;
use vstd::prelude::*;

verus! {

/// The placeholder of one of the three numbers of a tile: the letter in
/// braces.
pub open spec fn placeholder(letter: char) -> Seq<char> {
    seq!['{', letter, '}']
}

/// The template with every `{z}`, then every `{x}`, then every `{y}`
/// replaced by the given texts.
pub open spec fn fill(template: Seq<char>, z: Seq<char>, x: Seq<char>, y: Seq<char>) -> Seq<char> {
    replace_all(
        replace_all(replace_all(template, placeholder('z'), z), placeholder('x'), x),
        placeholder('y'),
        y,
    )
}

/// The URL of a tile: the template with the placeholders replaced by the
/// decimal numbers of the tile. Nothing is escaped.
pub open spec fn render(template: Seq<char>, c: (u8, u32, u32)) -> Seq<char> {
    fill(template, decimal(c.0 as nat), decimal(c.1 as nat), decimal(c.2 as nat))
}

/// The characters of a placeholder.
fn placeholder_chars(letter: char) -> (p: Vec<char>)
    ensures
        p@ == placeholder(letter),
{
    let p: Vec<char> = vec!['{', letter, '}'];
    assert(p@ =~= placeholder(letter));
    p
}

/// Fills the three placeholders of a template.
fn fill_template(template: &str, z: &Vec<char>, x: &Vec<char>, y: &Vec<char>) -> (out: Vec<char>)
    ensures
        out@ == fill(template@, z@, x@, y@),
{
    let text: Vec<char> = chars_of(template);
    let with_z: Vec<char> = replace(&text, &placeholder_chars('z'), z);
    let with_x: Vec<char> = replace(&with_z, &placeholder_chars('x'), x);
    replace(&with_x, &placeholder_chars('y'), y)
}

/// The URL of one tile.
pub struct TileUrl {
    url: String,
}

impl View for TileUrl {
    type V = Seq<char>;

    closed spec fn view(&self) -> Seq<char> {
        self.url@
    }
}

impl TileUrl {
    /// The URL of `tile` by the template.
    pub fn from_template(url_template: &str, tile: Tile) -> (url: TileUrl)
        ensures
            url@ == render(url_template@, tile@),
    {
        let z: Vec<char> = to_decimal(tile.z() as u64);
        let x: Vec<char> = to_decimal(tile.x() as u64);
        let y: Vec<char> = to_decimal(tile.y() as u64);
        TileUrl { url: string_of(&fill_template(url_template, &z, &x, &y)) }
    }

    /// The URL as text.
    pub fn url(self) -> (text: String)
        ensures
            text@ == self@,
    {
        self.url
    }
}

/// The last segment of the path of a URL, as `url::Url::parse` and
/// `url::Url::path_segments` give it: nothing where the text is no
/// absolute URL or the URL has no path of segments.
pub uninterp spec fn url_last_segment(url: Seq<char>) -> Option<Seq<char>>;

/// `url::Url::parse`, then the last item of `url::Url::path_segments`.
#[verifier::external_body]
fn last_path_segment(url: &str) -> (segment: Option<String>)
    ensures
        text_of(segment) == url_last_segment(url@),
{
    let parsed = url::Url::parse(url).ok()?;
    let mut segments = parsed.path_segments()?;
    segments.next_back().map(|s| s.to_string())
}

/// The position of the last `.` of `s`, or -1 where it has none.
pub open spec fn last_dot(s: Seq<char>) -> int
    decreases s.len(),
{
    if s.len() == 0 {
        -1
    } else if s.last() == '.' {
        s.len() - 1
    } else {
        last_dot(s.drop_last())
    }
}

/// The name of the format that an extension in lower case stands for:
/// `jpg`, `jpeg`, `webp` and `mvt` for themselves, `mvt` for `pbf` too, and
/// `png` for `png` and for every extension that is no known format.
pub open spec fn format_name(extension: Seq<char>) -> Seq<char> {
    if extension == seq!['p', 'b', 'f'] || extension == seq!['m', 'v', 't'] {
        seq!['m', 'v', 't']
    } else if extension == seq!['j', 'p', 'g'] {
        seq!['j', 'p', 'g']
    } else if extension == seq!['j', 'p', 'e', 'g'] {
        seq!['j', 'p', 'e', 'g']
    } else if extension == seq!['w', 'e', 'b', 'p'] {
        seq!['w', 'e', 'b', 'p']
    } else {
        seq!['p', 'n', 'g']
    }
}

/// The format that the last path segment of a URL promises: `png` where
/// there is no segment or no `.` in it; else the format that what follows
/// the last `.`, in lower case, stands for.
pub open spec fn format_of(segment: Option<Seq<char>>) -> Seq<char> {
    match segment {
        Some(s) => if last_dot(s) >= 0 {
            format_name(ascii_lowercase(s.skip(last_dot(s) + 1)))
        } else {
            seq!['p', 'n', 'g']
        },
        None => seq!['p', 'n', 'g'],
    }
}

/// The name of the format that an extension in lower case stands for.
fn format_name_of(extension: &Vec<char>) -> (name: Vec<char>)
    ensures
        name@ == format_name(extension@),
{
    let png: Vec<char> = vec!['p', 'n', 'g'];
    let pbf: Vec<char> = vec!['p', 'b', 'f'];
    let mvt: Vec<char> = vec!['m', 'v', 't'];
    let jpg: Vec<char> = vec!['j', 'p', 'g'];
    let jpeg: Vec<char> = vec!['j', 'p', 'e', 'g'];
    let webp: Vec<char> = vec!['w', 'e', 'b', 'p'];
    assert(png@ =~= seq!['p', 'n', 'g'] && pbf@ =~= seq!['p', 'b', 'f']);
    assert(mvt@ =~= seq!['m', 'v', 't'] && jpg@ =~= seq!['j', 'p', 'g']);
    assert(jpeg@ =~= seq!['j', 'p', 'e', 'g'] && webp@ =~= seq!['w', 'e', 'b', 'p']);
    if is_word(extension, &pbf) || is_word(extension, &mvt) {
        mvt
    } else if is_word(extension, &jpg) {
        jpg
    } else if is_word(extension, &jpeg) {
        jpeg
    } else if is_word(extension, &webp) {
        webp
    } else {
        png
    }
}

/// The format that a last path segment promises.
pub fn format_of_segment(segment: &Option<String>) -> (format: String)
    ensures
        format@ == format_of(text_of(*segment)),
{
    let png: Vec<char> = vec!['p', 'n', 'g'];
    assert(png@ =~= seq!['p', 'n', 'g']);
    match segment {
        None => string_of(&png),
        Some(text) => {
            let s: Vec<char> = chars_of(text.as_str());
            let mut at: usize = s.len();
            assert(s@.take(s.len() as int) =~= s@);
            while at > 0 && s[at - 1] != '.'
                invariant
                    at <= s.len(),
                    last_dot(s@) == last_dot(s@.take(at as int)),
                decreases at,
            {
                assert(s@.take(at as int).drop_last() =~= s@.take(at - 1));
                at = at - 1;
            }
            if at == 0 {
                string_of(&png)
            } else {
                assert(s@.take(at as int).last() == '.');
                let mut ext: Vec<char> = Vec::new();
                let mut i: usize = at;
                while i < s.len()
                    invariant
                        at <= i <= s.len(),
                        ext@ == s@.subrange(at as int, i as int),
                    decreases s.len() - i,
                {
                    ext.push(s[i]);
                    assert(s@.subrange(at as int, i + 1) =~= s@.subrange(at as int, i as int).push(
                        s@[i as int],
                    ));
                    i = i + 1;
                }
                assert(ext@ =~= s@.skip(at as int));
                string_of(&format_name_of(&to_ascii_lowercase(&ext)))
            }
        },
    }
}

/// The URL that stands in for all the URLs of a template: every
/// placeholder filled with `0`.
pub open spec fn sample_url(template: Seq<char>) -> Seq<char> {
    fill(template, seq!['0'], seq!['0'], seq!['0'])
}

/// The tile format that a URL template promises by the extension at the
/// end of its path; the query string plays no part. `png` where the
/// template does not say, or says what is no known format.
pub fn infer_tile_format(url_template: &str) -> (format: String)
    ensures
        format@ == format_of(url_last_segment(sample_url(url_template@))),
{
    let zero: Vec<char> = vec!['0'];
    assert(zero@ =~= seq!['0']);
    let sample: String = string_of(&fill_template(url_template, &zero, &zero, &zero));
    format_of_segment(&last_path_segment(sample.as_str()))
}

} // verus!
