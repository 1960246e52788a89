//! The canonical form under which keywords, titles and artist names are
//! compared: transliterated to ASCII, lower-cased, with `$` and `&` spelled
//! out, punctuation that stands inside words dropped, and white space
//! collapsed.

use crate::text::{
    all_words, chars_of, is_space, is_word, join, joined, lemma_words_are_words, split_words,
    string_of, words,
};
use vstd::prelude::*;

verus! {

/// Whether `c` is an ASCII character.
pub open spec fn is_ascii_char(c: char) -> bool {
    c as u32 <= 0x7F
}

/// Every character of `s` is an ASCII character.
pub open spec fn is_ascii_text(s: Seq<char>) -> bool {
    forall|i: int| 0 <= i < s.len() ==> is_ascii_char(#[trigger] s[i])
}

/// The test that ASCII characters pass.
pub open spec fn ascii() -> spec_fn(char) -> bool {
    |c: char| is_ascii_char(c)
}

/// What `unidecode::unidecode` returns for the text `s`.
pub uninterp spec fn unidecoded(s: Seq<char>) -> Seq<char>;

/// The ASCII transliteration of `s`. ASCII text stands for itself. Any
/// other text stands for the ASCII characters of what `unidecode` makes of
/// it, and those are all its characters, since `unidecode` returns ASCII
/// text.
pub open spec fn transliterated(s: Seq<char>) -> Seq<char> {
    if is_ascii_text(s) {
        s
    } else {
        unidecoded(s).filter(ascii())
    }
}

/// Calls `unidecode::unidecode`, which maps each character through a fixed
/// table to a string of ASCII characters and concatenates the strings. The
/// result is ASCII text, and every ASCII character is mapped to itself, so
/// ASCII text is returned unchanged.
#[verifier::external_body]
fn transliterate(value: &str) -> (r: String)
    ensures
        r@ == unidecoded(value@),
        is_ascii_text(r@),
        r@ == transliterated(value@),
{
    unidecode::unidecode(value)
}

/// A transliteration is ASCII text.
pub proof fn lemma_transliterated_is_ascii(s: Seq<char>)
    ensures
        is_ascii_text(transliterated(s)),
{
    if !is_ascii_text(s) {
        let t = unidecoded(s).filter(ascii());
        assert forall|i: int| 0 <= i < t.len() implies is_ascii_char(#[trigger] t[i]) by {
            unidecoded(s).lemma_filter_pred(ascii(), i);
        }
    }
}

/// The lower-case form of an ASCII capital letter; any other character
/// stands for itself.
pub open spec fn lower(c: char) -> char {
    if 'A' <= c <= 'Z' {
        ((c as u8 + 32) as u8) as char
    } else {
        c
    }
}

/// `s` with its ASCII capital letters in lower case.
pub open spec fn lowered(s: Seq<char>) -> Seq<char> {
    s.map_values(|c: char| lower(c))
}

/// What is written in place of `c`: `s` for `$`, `and` for `&`, and `c`
/// itself for any other character.
pub open spec fn spelled(c: char) -> Seq<char> {
    if c == '$' {
        seq!['s']
    } else if c == '&' {
        seq!['a', 'n', 'd']
    } else {
        seq![c]
    }
}

/// `s` with every `$` replaced by `s` and every `&` by `and`.
pub open spec fn spelled_out(s: Seq<char>) -> Seq<char>
    decreases s.len(),
{
    if s.len() == 0 {
        Seq::empty()
    } else {
        spelled_out(s.drop_last()) + spelled(s.last())
    }
}

/// The characters that are dropped wherever they stand: `-`, `*`, `.`, `:`
/// and `'`.
pub open spec fn is_skipped(c: char) -> bool {
    c == '-' || c == '*' || c == '.' || c == ':' || c == '\''
}

/// The test that a character passes when it is not skipped.
pub open spec fn kept() -> spec_fn(char) -> bool {
    |c: char| !is_skipped(c)
}

/// `s` without its skipped characters.
pub open spec fn stripped(s: Seq<char>) -> Seq<char> {
    s.filter(kept())
}

/// The words of `s` with one space between each two: runs of white space
/// become a single space, and white space at either end is dropped.
pub open spec fn collapsed(s: Seq<char>) -> Seq<char> {
    joined(words(s), seq![' '])
}

/// The canonical form of a text that is already transliterated.
pub open spec fn canonical(t: Seq<char>) -> Seq<char> {
    collapsed(stripped(spelled_out(lowered(t))))
}

/// The canonical form of `s`.
pub open spec fn normalized(s: Seq<char>) -> Seq<char> {
    canonical(transliterated(s))
}

/// The lower-case form of `c`.
pub fn to_lower(c: char) -> (r: char)
    ensures
        r == lower(c),
{
    if 'A' <= c && c <= 'Z' {
        let n: u8 = c as u8;
        (n + 32) as char
    } else {
        c
    }
}

/// `v` with its ASCII capital letters in lower case.
pub fn lower_chars(v: &Vec<char>) -> (out: Vec<char>)
    ensures
        out@ == lowered(v@),
{
    let mut out: Vec<char> = Vec::new();
    let mut i: usize = 0;
    while i < v.len()
        invariant
            i <= v.len(),
            out@ == lowered(v@.take(i as int)),
        decreases v.len() - i,
    {
        out.push(to_lower(v[i]));
        assert(out@ =~= lowered(v@.take(i + 1)));
        i += 1;
    }
    assert(v@.take(i as int) =~= v@);
    out
}

/// `v` with every `$` replaced by `s` and every `&` by `and`.
pub fn spell_out(v: &Vec<char>) -> (out: Vec<char>)
    ensures
        out@ == spelled_out(v@),
{
    let mut out: Vec<char> = Vec::new();
    let mut i: usize = 0;
    while i < v.len()
        invariant
            i <= v.len(),
            out@ == spelled_out(v@.take(i as int)),
        decreases v.len() - i,
    {
        let c = v[i];
        let ghost before = out@;
        proof {
            assert(v@.take(i + 1).drop_last() =~= v@.take(i as int));
            assert(v@.take(i + 1).last() == c);
        }
        if c == '$' {
            out.push('s');
            assert(out@ =~= before + spelled(c));
        } else if c == '&' {
            out.push('a');
            out.push('n');
            out.push('d');
            assert(out@ =~= before + spelled(c));
        } else {
            out.push(c);
            assert(out@ =~= before + spelled(c));
        }
        i += 1;
    }
    assert(v@.take(i as int) =~= v@);
    out
}

/// Whether `c` is one of the skipped characters.
pub fn is_skip_char(c: char) -> (r: bool)
    ensures
        r == is_skipped(c),
{
    c == '-' || c == '*' || c == '.' || c == ':' || c == '\''
}

/// `v` without its skipped characters.
pub fn strip(v: &Vec<char>) -> (out: Vec<char>)
    ensures
        out@ == stripped(v@),
{
    let mut out: Vec<char> = Vec::new();
    let mut i: usize = 0;
    proof {
        reveal(Seq::filter);
        assert(v@.take(0) =~= Seq::<char>::empty());
    }
    while i < v.len()
        invariant
            i <= v.len(),
            out@ == stripped(v@.take(i as int)),
        decreases v.len() - i,
    {
        let c = v[i];
        proof {
            assert(v@.take(i + 1) =~= v@.take(i as int).push(c));
            v@.take(i as int).lemma_filter_push(c, kept());
        }
        if !is_skip_char(c) {
            out.push(c);
        }
        i += 1;
    }
    assert(v@.take(i as int) =~= v@);
    out
}

/// The words of `v` with one space between each two.
pub fn collapse(v: &Vec<char>) -> (out: Vec<char>)
    ensures
        out@ == collapsed(v@),
{
    let parts = split_words(v);
    let mut sep: Vec<char> = Vec::new();
    sep.push(' ');
    assert(sep@ =~= seq![' ']);
    join(&parts, &sep)
}

/// The canonical form of a text that is already transliterated: ASCII
/// capital letters in lower case, `$` and `&` spelled out, skipped
/// characters dropped, white space collapsed. Characters outside ASCII,
/// which a transliteration does not hold, are kept as they are. Applied to
/// its own result it changes nothing.
pub fn canonical_form(text: &str) -> (r: String)
    ensures
        r@ == canonical(text@),
        canonical(r@) == r@,
{
    let chars = chars_of(text);
    let low = lower_chars(&chars);
    let spelt = spell_out(&low);
    let bare = strip(&spelt);
    let tidy = collapse(&bare);
    proof {
        lemma_canonical_idempotent(text@);
    }
    string_of(&tidy)
}

/// The canonical form of `value`. Normalizing the result again changes
/// nothing.
pub fn normalize_keyword(value: &str) -> (r: String)
    ensures
        r@ == normalized(value@),
        normalized(r@) == r@,
{
    let plain = transliterate(value);
    proof {
        lemma_normalized_idempotent(value@);
    }
    canonical_form(plain.as_str())
}

/// Every character of `s` passes the test `p`.
pub open spec fn all_chars(s: Seq<char>, p: spec_fn(char) -> bool) -> bool {
    forall|i: int| 0 <= i < s.len() ==> p(#[trigger] s[i])
}

/// A character that the canonical form leaves as it is: no ASCII capital
/// letter, neither `$` nor `&`, and not skipped.
pub open spec fn is_plain(c: char) -> bool {
    lower(c) == c && c != '$' && c != '&' && !is_skipped(c)
}

/// Lower-casing keeps a property of all characters that `lower` keeps.
pub proof fn lemma_lowered_keeps(s: Seq<char>, p: spec_fn(char) -> bool)
    requires
        all_chars(s, p),
        forall|c: char| p(c) ==> #[trigger] p(lower(c)),
    ensures
        all_chars(lowered(s), p),
{
    assert forall|i: int| 0 <= i < lowered(s).len() implies p(#[trigger] lowered(s)[i]) by {
        assert(p(s[i]));
        assert(lowered(s)[i] == lower(s[i]));
    }
}

/// Spelling out keeps a property of all characters that the letters of
/// `s` and `and` have.
pub proof fn lemma_spelled_out_keeps(s: Seq<char>, p: spec_fn(char) -> bool)
    requires
        all_chars(s, p),
        p('s'),
        p('a'),
        p('n'),
        p('d'),
    ensures
        all_chars(spelled_out(s), p),
    decreases s.len(),
{
    if s.len() > 0 {
        let head = s.drop_last();
        assert forall|i: int| 0 <= i < head.len() implies p(#[trigger] head[i]) by {
            assert(head[i] == s[i]);
        }
        lemma_spelled_out_keeps(head, p);
        let a = spelled_out(head);
        let b = spelled(s.last());
        assert(p(s[s.len() - 1]));
        assert forall|i: int| 0 <= i < (a + b).len() implies p(#[trigger] (a + b)[i]) by {
            if i < a.len() {
                assert((a + b)[i] == a[i]);
            } else {
                assert((a + b)[i] == b[i - a.len()]);
            }
        }
    }
}

/// Stripping keeps every property of all characters.
pub proof fn lemma_stripped_keeps(s: Seq<char>, p: spec_fn(char) -> bool)
    requires
        all_chars(s, p),
    ensures
        all_chars(stripped(s), p),
    decreases s.len(),
{
    reveal(Seq::filter);
    if s.len() > 0 {
        let head = s.drop_last();
        assert forall|i: int| 0 <= i < head.len() implies p(#[trigger] head[i]) by {
            assert(head[i] == s[i]);
        }
        lemma_stripped_keeps(head, p);
        assert(p(s[s.len() - 1]));
        let out = stripped(s);
        assert forall|i: int| 0 <= i < out.len() implies p(#[trigger] out[i]) by {
            if i < stripped(head).len() {
                assert(out[i] == stripped(head)[i]);
            }
        }
    }
}

/// Every word of a text has each property that all characters of the text
/// have.
pub proof fn lemma_words_keep(s: Seq<char>, p: spec_fn(char) -> bool)
    requires
        all_chars(s, p),
    ensures
        forall|j: int| 0 <= j < words(s).len() ==> all_chars(#[trigger] words(s)[j], p),
    decreases s.len(),
{
    if s.len() > 0 {
        let head = s.drop_last();
        assert forall|i: int| 0 <= i < head.len() implies p(#[trigger] head[i]) by {
            assert(head[i] == s[i]);
        }
        lemma_words_keep(head, p);
        let before = words(head);
        let c = s.last();
        assert(p(s[s.len() - 1]));
        let out = words(s);
        assert forall|j: int| 0 <= j < out.len() implies all_chars(#[trigger] out[j], p) by {
            if is_space(c) {
            } else if s.len() >= 2 && !is_space(s[s.len() - 2]) && before.len() > 0 {
                if j < out.len() - 1 {
                    assert(out[j] == before[j]);
                } else {
                    let w = before.last().push(c);
                    assert(all_chars(before[before.len() - 1], p));
                    assert forall|i: int| 0 <= i < w.len() implies p(#[trigger] w[i]) by {
                        if i < w.len() - 1 {
                            assert(w[i] == before.last()[i]);
                        }
                    }
                }
            } else {
                if j < out.len() - 1 {
                    assert(out[j] == before[j]);
                } else {
                    assert(out[j] =~= seq![c]);
                }
            }
        }
    }
}

/// Joining keeps a property that all characters of the parts and of the
/// separator have.
pub proof fn lemma_joined_keeps(parts: Seq<Seq<char>>, sep: Seq<char>, p: spec_fn(char) -> bool)
    requires
        forall|j: int| 0 <= j < parts.len() ==> all_chars(#[trigger] parts[j], p),
        all_chars(sep, p),
    ensures
        all_chars(joined(parts, sep), p),
    decreases parts.len(),
{
    if parts.len() == 1 {
        assert(all_chars(parts[0], p));
    } else if parts.len() > 1 {
        let head = parts.drop_last();
        assert forall|j: int| 0 <= j < head.len() implies all_chars(#[trigger] head[j], p) by {
            assert(head[j] == parts[j]);
        }
        lemma_joined_keeps(head, sep, p);
        let a = joined(head, sep);
        let w = parts.last();
        assert(all_chars(parts[parts.len() - 1], p));
        let out = a + sep + w;
        assert forall|i: int| 0 <= i < out.len() implies p(#[trigger] out[i]) by {
            if i < a.len() {
                assert(out[i] == a[i]);
            } else if i < a.len() + sep.len() {
                assert(out[i] == sep[i - a.len()]);
            } else {
                assert(out[i] == w[i - a.len() - sep.len()]);
            }
        }
    }
}

/// Collapsing white space keeps a property that all characters of the text
/// and the space have.
pub proof fn lemma_collapsed_keeps(s: Seq<char>, p: spec_fn(char) -> bool)
    requires
        all_chars(s, p),
        p(' '),
    ensures
        all_chars(collapsed(s), p),
{
    lemma_words_keep(s, p);
    let sep = seq![' '];
    assert(all_chars(sep, p));
    lemma_joined_keeps(words(s), sep, p);
}

/// The canonical form keeps a property of all characters that `lower`
/// keeps and that the space and the letters of `s` and `and` have.
pub proof fn lemma_canonical_keeps(t: Seq<char>, p: spec_fn(char) -> bool)
    requires
        all_chars(t, p),
        forall|c: char| p(c) ==> #[trigger] p(lower(c)),
        p('s'),
        p('a'),
        p('n'),
        p('d'),
        p(' '),
    ensures
        all_chars(canonical(t), p),
{
    lemma_lowered_keeps(t, p);
    lemma_spelled_out_keeps(lowered(t), p);
    lemma_stripped_keeps(spelled_out(lowered(t)), p);
    lemma_collapsed_keeps(stripped(spelled_out(lowered(t))), p);
}

/// The canonical form of ASCII text is ASCII text.
pub proof fn lemma_canonical_keeps_ascii(t: Seq<char>)
    requires
        is_ascii_text(t),
    ensures
        is_ascii_text(canonical(t)),
{
    assert(all_chars(t, ascii()));
    lemma_canonical_keeps(t, ascii());
    assert(all_chars(canonical(t), ascii()));
}

/// Lower-casing leaves no ASCII capital letter.
pub proof fn lemma_lowered_is_lower(s: Seq<char>)
    ensures
        all_chars(lowered(s), |c: char| lower(c) == c),
{
    assert forall|i: int| 0 <= i < lowered(s).len() implies lower(#[trigger] lowered(s)[i])
        == lowered(s)[i] by {
        assert(lowered(s)[i] == lower(s[i]));
    }
}

/// Spelling out leaves neither `$` nor `&`.
pub proof fn lemma_spelled_out_is_spelled(s: Seq<char>)
    ensures
        all_chars(spelled_out(s), |c: char| c != '$' && c != '&'),
    decreases s.len(),
{
    if s.len() > 0 {
        lemma_spelled_out_is_spelled(s.drop_last());
        let a = spelled_out(s.drop_last());
        let b = spelled(s.last());
        assert forall|i: int| 0 <= i < (a + b).len() implies (#[trigger] (a + b)[i]) != '$' && (a
            + b)[i] != '&' by {
            if i < a.len() {
                assert((a + b)[i] == a[i]);
            } else {
                assert((a + b)[i] == b[i - a.len()]);
            }
        }
    }
}

/// Stripping leaves no skipped character.
pub proof fn lemma_stripped_is_stripped(s: Seq<char>)
    ensures
        all_chars(stripped(s), kept()),
    decreases s.len(),
{
    reveal(Seq::filter);
    if s.len() > 0 {
        lemma_stripped_is_stripped(s.drop_last());
        let out = stripped(s);
        let head = stripped(s.drop_last());
        assert forall|i: int| 0 <= i < out.len() implies kept()(#[trigger] out[i]) by {
            if i < head.len() {
                assert(out[i] == head[i]);
            }
        }
    }
}

/// Every character of a canonical form is plain.
pub proof fn lemma_canonical_is_plain(t: Seq<char>)
    ensures
        all_chars(canonical(t), |c: char| is_plain(c)),
{
    let low = lowered(t);
    let spelt = spelled_out(low);
    let bare = stripped(spelt);
    let is_lower = |c: char| lower(c) == c;
    let is_spelled = |c: char| c != '$' && c != '&';
    lemma_lowered_is_lower(t);
    lemma_spelled_out_keeps(low, is_lower);
    lemma_spelled_out_is_spelled(low);
    lemma_stripped_keeps(spelt, is_lower);
    lemma_stripped_keeps(spelt, is_spelled);
    lemma_stripped_is_stripped(spelt);
    let plain = |c: char| is_plain(c);
    assert forall|i: int| 0 <= i < bare.len() implies plain(#[trigger] bare[i]) by {
        assert(is_lower(bare[i]));
        assert(is_spelled(bare[i]));
        assert(kept()(bare[i]));
    }
    lemma_collapsed_keeps(bare, plain);
}

/// Lower-casing changes nothing in text of plain characters.
pub proof fn lemma_plain_lowered(x: Seq<char>)
    requires
        all_chars(x, |c: char| is_plain(c)),
    ensures
        lowered(x) == x,
{
    assert forall|i: int| 0 <= i < x.len() implies lowered(x)[i] == x[i] by {
        assert(is_plain(x[i]));
    }
    assert(lowered(x) =~= x);
}

/// Spelling out changes nothing in text of plain characters.
pub proof fn lemma_plain_spelled_out(x: Seq<char>)
    requires
        all_chars(x, |c: char| is_plain(c)),
    ensures
        spelled_out(x) == x,
    decreases x.len(),
{
    if x.len() == 0 {
        assert(spelled_out(x) =~= x);
    } else {
        let head = x.drop_last();
        assert forall|i: int| 0 <= i < head.len() implies is_plain(#[trigger] head[i]) by {
            assert(head[i] == x[i]);
        }
        lemma_plain_spelled_out(head);
        assert(is_plain(x[x.len() - 1]));
        assert(spelled(x.last()) =~= seq![x.last()]);
        assert(head + seq![x.last()] =~= x);
    }
}

/// Stripping changes nothing in text of plain characters.
pub proof fn lemma_plain_stripped(x: Seq<char>)
    requires
        all_chars(x, |c: char| is_plain(c)),
    ensures
        stripped(x) == x,
    decreases x.len(),
{
    reveal(Seq::filter);
    if x.len() == 0 {
        assert(stripped(x) =~= x);
    } else {
        let head = x.drop_last();
        assert forall|i: int| 0 <= i < head.len() implies is_plain(#[trigger] head[i]) by {
            assert(head[i] == x[i]);
        }
        lemma_plain_stripped(head);
        assert(is_plain(x[x.len() - 1]));
        assert(kept()(x.last()));
        assert(head.push(x.last()) =~= x);
    }
}

/// A word written after text that is empty or ends in white space is a new
/// word of the whole.
pub proof fn lemma_words_after_gap(s: Seq<char>, w: Seq<char>)
    requires
        s.len() == 0 || is_space(s.last()),
        is_word(w),
    ensures
        words(s + w) == words(s).push(w),
    decreases w.len(),
{
    let whole = s + w;
    let c = w.last();
    assert(whole.last() == c);
    assert(!is_space(w[w.len() - 1]));
    if w.len() == 1 {
        assert(whole.drop_last() =~= s);
        assert(w =~= seq![c]);
        if s.len() > 0 {
            assert(whole[whole.len() - 2] == s.last());
        }
    } else {
        let head = w.drop_last();
        assert(is_word(head)) by {
            assert forall|i: int| 0 <= i < head.len() implies !is_space(#[trigger] head[i]) by {
                assert(head[i] == w[i]);
            }
        }
        lemma_words_after_gap(s, head);
        assert(whole.drop_last() =~= s + head);
        assert(whole[whole.len() - 2] == w[w.len() - 2]);
        assert(!is_space(w[w.len() - 2]));
        let before = words(s + head);
        assert(before.drop_last() =~= words(s));
        assert(before.last().push(c) =~= w);
    }
}

/// Splitting words that were joined by single spaces gives the words back.
pub proof fn lemma_words_of_joined(ws: Seq<Seq<char>>)
    requires
        all_words(ws),
    ensures
        words(joined(ws, seq![' '])) == ws,
    decreases ws.len(),
{
    let sep = seq![' '];
    if ws.len() == 0 {
        assert(words(joined(ws, sep)) =~= ws);
    } else if ws.len() == 1 {
        let none = Seq::<char>::empty();
        assert(is_word(ws[0]));
        lemma_words_after_gap(none, ws[0]);
        assert(none + ws[0] =~= ws[0]);
        assert(words(none) =~= Seq::<Seq<char>>::empty());
        assert(Seq::<Seq<char>>::empty().push(ws[0]) =~= ws);
    } else {
        let head = ws.drop_last();
        assert(all_words(head)) by {
            assert forall|i: int| 0 <= i < head.len() implies is_word(#[trigger] head[i]) by {
                assert(head[i] == ws[i]);
            }
        }
        lemma_words_of_joined(head);
        let gap = joined(head, sep) + sep;
        assert(gap.last() == ' ');
        assert(gap.drop_last() =~= joined(head, sep));
        assert(words(gap) == head);
        assert(is_word(ws[ws.len() - 1]));
        lemma_words_after_gap(gap, ws.last());
        assert(head.push(ws.last()) =~= ws);
    }
}

/// Collapsing white space twice gives what collapsing once gives.
pub proof fn lemma_collapsed_idempotent(s: Seq<char>)
    ensures
        collapsed(collapsed(s)) == collapsed(s),
{
    lemma_words_are_words(s);
    lemma_words_of_joined(words(s));
}

/// The canonical form of a canonical form is that form itself.
pub proof fn lemma_canonical_idempotent(t: Seq<char>)
    ensures
        canonical(canonical(t)) == canonical(t),
{
    let x = canonical(t);
    lemma_canonical_is_plain(t);
    lemma_plain_lowered(x);
    lemma_plain_spelled_out(x);
    lemma_plain_stripped(x);
    lemma_collapsed_idempotent(stripped(spelled_out(lowered(t))));
}

/// Normalizing twice gives what normalizing once gives.
pub proof fn lemma_normalized_idempotent(s: Seq<char>)
    ensures
        normalized(normalized(s)) == normalized(s),
{
    lemma_transliterated_is_ascii(s);
    lemma_canonical_keeps_ascii(transliterated(s));
    lemma_canonical_idempotent(transliterated(s));
}

} // verus!
