//! One line of text for each result, as a terminal shows it.

use crate::search::raw::{artist_views, Artist, ArtistView};
use crate::search::{artist_names, TrackMeta, TrackMetaView};
use crate::text::{append, chars_of, is_space, is_whitespace, join, joined, string_of, texts};
use vstd::prelude::*;

verus! {

/// `s` without the white space at its end.
pub open spec fn trimmed_end(s: Seq<char>) -> Seq<char>
    decreases s.len(),
{
    if s.len() > 0 && is_space(s.last()) {
        trimmed_end(s.drop_last())
    } else {
        s
    }
}

/// `value` if it has at most `max` characters; else its first `max - 3`
/// characters, without white space at their end, and three dots.
pub open spec fn truncated(value: Seq<char>, max: int) -> Seq<char> {
    if value.len() <= max {
        value
    } else {
        trimmed_end(value.take(max - 3)) + "..."@
    }
}

/// Trimming makes a text no longer, and leaves no white space at its end.
pub proof fn lemma_trimmed_end(s: Seq<char>)
    ensures
        trimmed_end(s).len() <= s.len(),
        trimmed_end(s) == s.take(trimmed_end(s).len() as int),
        trimmed_end(s).len() > 0 ==> !is_space(trimmed_end(s).last()),
    decreases s.len(),
{
    if s.len() > 0 && is_space(s.last()) {
        lemma_trimmed_end(s.drop_last());
        let n = trimmed_end(s).len() as int;
        assert(s.drop_last().take(n) =~= s.take(n));
    } else {
        assert(s.take(s.len() as int) =~= s);
    }
}

/// A truncated text has at most `max` characters.
pub proof fn lemma_truncated_fits(value: Seq<char>, max: int)
    requires
        max >= 3,
    ensures
        truncated(value, max).len() <= max,
{
    if value.len() > max {
        lemma_trimmed_end(value.take(max - 3));
        reveal_strlit("...");
    }
}

/// `value`, cut down to at most `max` characters: a text that is longer
/// keeps its first `max - 3` characters, loses the white space at their
/// end, and gets three dots.
pub fn truncate_chars(value: &str, max: usize) -> (r: String)
    requires
        max >= 3,
    ensures
        r@ == truncated(value@, max as int),
        r@.len() <= max,
{
    proof {
        lemma_truncated_fits(value@, max as int);
    }
    let chars = chars_of(value);
    if chars.len() <= max {
        return string_of(&chars);
    }
    let mut end: usize = max - 3;
    assert(trimmed_end(chars@.take(max - 3)) == trimmed_end(chars@.take(end as int)));
    while end > 0 && is_whitespace(chars[end - 1])
        invariant
            end <= max - 3,
            max < chars.len(),
            trimmed_end(chars@.take(max - 3)) == trimmed_end(chars@.take(end as int)),
        decreases end,
    {
        assert(chars@.take(end as int).drop_last() =~= chars@.take(end - 1));
        end -= 1;
    }
    let mut out: Vec<char> = Vec::new();
    let mut i: usize = 0;
    while i < end
        invariant
            i <= end,
            end <= chars.len(),
            out@ == chars@.take(i as int),
        decreases end - i,
    {
        out.push(chars[i]);
        assert(out@ =~= chars@.take(i + 1));
        i += 1;
    }
    let dots = chars_of("...");
    append(&mut out, &dots);
    string_of(&out)
}

/// The character that stands for the digit `d`.
pub open spec fn digit(d: nat) -> char {
    ((48 + d) as u8) as char
}

/// `n` written in decimal digits.
pub open spec fn decimal(n: nat) -> Seq<char>
    decreases n,
{
    if n < 10 {
        seq![digit(n)]
    } else {
        decimal(n / 10).push(digit(n % 10))
    }
}

/// `n` written in decimal digits.
pub fn decimal_digits(n: u32) -> (r: Vec<char>)
    ensures
        r@ == decimal(n as nat),
    decreases n,
{
    if n < 10 {
        let mut r: Vec<char> = Vec::new();
        r.push((48 + n as u8) as char);
        assert(r@ =~= seq![digit(n as nat)]);
        r
    } else {
        let mut r = decimal_digits(n / 10);
        r.push((48 + (n % 10) as u8) as char);
        r
    }
}

/// How the artists are shown: their names with `, ` between each two, or
/// `-` where there is none.
pub open spec fn artists_label(artists: Seq<ArtistView>) -> Seq<char> {
    if artists.len() == 0 {
        "-"@
    } else {
        joined(artist_names(artists), ", "@)
    }
}

/// The line that shows an entry of the collection `collection_name`.
pub open spec fn result_line(collection_name: Seq<char>, entry: TrackMetaView) -> Seq<char> {
    truncated(collection_name, 30) + ": #"@ + decimal(entry.position) + "   "@ + entry.track.name
        + "  |  "@ + artists_label(entry.track.artists)
}

/// The characters of each artist's name.
pub fn name_chars(artists: &Vec<Artist>) -> (r: Vec<Vec<char>>)
    ensures
        texts(r@) == artist_names(artist_views(artists@)),
{
    let mut r: Vec<Vec<char>> = Vec::new();
    let mut i: usize = 0;
    while i < artists.len()
        invariant
            i <= artists.len(),
            texts(r@) == artist_names(artist_views(artists@)).take(i as int),
        decreases artists.len() - i,
    {
        let ghost before = texts(r@);
        r.push(chars_of(artists[i].name.as_str()));
        assert(texts(r@) =~= before.push(artists@[i as int].name@));
        assert(texts(r@) =~= artist_names(artist_views(artists@)).take(i + 1));
        i += 1;
    }
    assert(artist_names(artist_views(artists@)).take(i as int) =~= artist_names(
        artist_views(artists@),
    ));
    r
}

/// The line that shows an entry: the name of its collection in at most 30
/// characters, its position, its title, and its artists.
pub fn format_result(collection_name: &str, track_meta: &TrackMeta) -> (r: String)
    ensures
        r@ == result_line(collection_name@, track_meta@),
{
    let collection = truncate_chars(collection_name, 30);
    let mut out = chars_of(collection.as_str());
    append(&mut out, &chars_of(": #"));
    append(&mut out, &decimal_digits(track_meta.position));
    append(&mut out, &chars_of("   "));
    append(&mut out, &chars_of(track_meta.track.name.as_str()));
    append(&mut out, &chars_of("  |  "));
    if track_meta.track.artists.len() == 0 {
        append(&mut out, &chars_of("-"));
    } else {
        let names = name_chars(&track_meta.track.artists);
        let label = join(&names, &chars_of(", "));
        append(&mut out, &label);
    }
    string_of(&out)
}

} // verus!
