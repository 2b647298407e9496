//! Text: white space, lists set off by commas, search, and decimal numbers.
use vstd::prelude::*;
use vstd::string::{StrSliceExecFns, StringExecFns};

verus! {

/// The characters of each text.
pub open spec fn texts(strings: Seq<String>) -> Seq<Seq<char>> {
    strings.map_values(|s: String| s@)
}

/// Whether a character is white space: Unicode's White_Space property.
pub open spec fn white_space(c: char) -> bool {
    let code = c as u32;
    ||| 0x09 <= code <= 0x0D
    ||| code == 0x20
    ||| code == 0x85
    ||| code == 0xA0
    ||| code == 0x1680
    ||| 0x2000 <= code <= 0x200A
    ||| code == 0x2028
    ||| code == 0x2029
    ||| code == 0x202F
    ||| code == 0x205F
    ||| code == 0x3000
}

/// Whether a character is white space.
pub fn is_white_space(c: char) -> (is: bool)
    ensures
        is == white_space(c),
{
    let code: u32 = c as u32;
    (0x09 <= code && code <= 0x0D) || code == 0x20 || code == 0x85 || code == 0xA0 || code == 0x1680
        || (0x2000 <= code && code <= 0x200A) || code == 0x2028 || code == 0x2029 || code == 0x202F
        || code == 0x205F || code == 0x3000
}

/// A text without the white space at its ends.
pub open spec fn trimmed(text: Seq<char>) -> Seq<char>
    decreases text.len(),
{
    if text.len() == 0 {
        text
    } else if white_space(text[0]) {
        trimmed(text.drop_first())
    } else if white_space(text.last()) {
        trimmed(text.drop_last())
    } else {
        text
    }
}

/// What stands between the commas of a text: one piece more than it has commas.
pub open spec fn comma_pieces(text: Seq<char>) -> Seq<Seq<char>>
    decreases text.len(),
{
    if text.len() == 0 {
        seq![Seq::empty()]
    } else {
        let earlier = comma_pieces(text.drop_last());
        if text.last() == ',' {
            earlier.push(Seq::empty())
        } else {
            earlier.drop_last().push(earlier.last().push(text.last()))
        }
    }
}

/// The trimmed pieces that are not empty.
pub open spec fn kept(pieces: Seq<Seq<char>>) -> Seq<Seq<char>>
    decreases pieces.len(),
{
    if pieces.len() == 0 {
        Seq::empty()
    } else {
        let earlier = kept(pieces.drop_last());
        let piece = trimmed(pieces.last());
        if piece.len() == 0 {
            earlier
        } else {
            earlier.push(piece)
        }
    }
}

/// The entries of a text that lists them between commas.
pub open spec fn entries(text: Seq<char>) -> Seq<Seq<char>> {
    kept(comma_pieces(text))
}

/// The entries of several texts, one text after the other.
pub open spec fn all_entries(values: Seq<Seq<char>>) -> Seq<Seq<char>>
    decreases values.len(),
{
    if values.len() == 0 {
        Seq::empty()
    } else {
        all_entries(values.drop_last()) + entries(values.last())
    }
}

/// Whether a text occurs in another.
pub open spec fn occurs(needle: Seq<char>, text: Seq<char>) -> bool {
    exists|at: int|
        0 <= at <= text.len() - needle.len() && #[trigger] text.subrange(at, at + needle.len())
            == needle
}

/// The characters of a text.
fn chars_of(text: &str) -> (chars: Vec<char>)
    ensures
        chars@ == text@,
{
    let mut chars: Vec<char> = Vec::new();
    for c in it: text.chars()
        invariant
            it.seq() == text@,
            chars@ == text@.take(it.index()),
    {
        chars.push(c);
        assert(chars@ =~= text@.take(it.index() + 1));
    }
    assert(chars@ =~= text@);
    chars
}

/// The place of the trimmed text in `chars[from..to]`.
fn trim_range(chars: &[char], from: usize, to: usize) -> (place: (usize, usize))
    requires
        from <= to <= chars.len(),
    ensures
        from <= place.0 <= place.1 <= to,
        chars@.subrange(place.0 as int, place.1 as int) == trimmed(
            chars@.subrange(from as int, to as int),
        ),
{
    let mut lo: usize = from;
    let mut hi: usize = to;
    let ghost whole = chars@.subrange(from as int, to as int);
    while lo < hi && is_white_space(chars[lo])
        invariant
            from <= lo <= hi,
            hi == to <= chars.len(),
            trimmed(chars@.subrange(lo as int, hi as int)) == trimmed(whole),
        decreases hi - lo,
    {
        let ghost rest = chars@.subrange(lo as int, hi as int);
        assert(rest.drop_first() =~= chars@.subrange(lo + 1, hi as int));
        lo += 1;
    }
    while lo < hi && is_white_space(chars[hi - 1])
        invariant
            from <= lo <= hi <= to <= chars.len(),
            lo < hi ==> !white_space(chars@[lo as int]),
            trimmed(chars@.subrange(lo as int, hi as int)) == trimmed(whole),
        decreases hi - lo,
    {
        let ghost rest = chars@.subrange(lo as int, hi as int);
        assert(rest.drop_last() =~= chars@.subrange(lo as int, hi - 1));
        assert(rest[0] == chars@[lo as int]);
        assert(rest.last() == chars@[hi - 1]);
        hi -= 1;
    }
    proof {
        let rest = chars@.subrange(lo as int, hi as int);
        if lo < hi {
            assert(rest[0] == chars@[lo as int]);
            assert(rest.last() == chars@[hi - 1]);
        }
        assert(trimmed(rest) == rest);
    }
    (lo, hi)
}

proof fn lemma_kept_push(pieces: Seq<Seq<char>>, piece: Seq<char>)
    ensures
        kept(pieces.push(piece)) == if trimmed(piece).len() == 0 {
            kept(pieces)
        } else {
            kept(pieces).push(trimmed(piece))
        },
{
    assert(pieces.push(piece).drop_last() =~= pieces);
}

/// A text has at least one piece.
proof fn lemma_pieces_not_empty(text: Seq<char>)
    ensures
        comma_pieces(text).len() > 0,
    decreases text.len(),
{
    if text.len() > 0 {
        lemma_pieces_not_empty(text.drop_last());
    }
}

/// Adds the piece at `chars[from..to]` of `text` to `urls`, trimmed, unless
/// nothing is left of it.
fn push_entry(urls: &mut Vec<String>, text: &str, chars: &[char], from: usize, to: usize)
    requires
        chars@ == text@,
        from <= to <= chars.len(),
    ensures
        ({
            let piece = trimmed(text@.subrange(from as int, to as int));
            texts(final(urls)@) == if piece.len() == 0 {
                texts(old(urls)@)
            } else {
                texts(old(urls)@).push(piece)
            }
        }),
{
    let (lo, hi) = trim_range(chars, from, to);
    if lo < hi {
        let url = text.substring_char(lo, hi).to_owned();
        urls.push(url);
        assert(texts(urls@) =~= texts(old(urls)@).push(url@));
    }
}

/// Adds the entries of one text to `urls`.
pub(crate) fn push_entries(urls: &mut Vec<String>, text: &str)
    ensures
        texts(final(urls)@) == texts(old(urls)@) + entries(text@),
{
    let chars = chars_of(text);
    let ghost before = texts(urls@);
    // The pieces that have ended, and where the one that goes on began.
    let ghost mut ended: Seq<Seq<char>> = Seq::empty();
    let mut from: usize = 0;
    let mut at: usize = 0;
    assert(text@.take(0) =~= Seq::<char>::empty());
    assert(comma_pieces(text@.take(0)) =~= ended.push(text@.subrange(0, 0)));
    assert(texts(urls@) =~= before + kept(ended));
    while at < chars.len()
        invariant
            chars@ == text@,
            from <= at <= chars@.len(),
            comma_pieces(text@.take(at as int)) == ended.push(
                text@.subrange(from as int, at as int),
            ),
            texts(urls@) == before + kept(ended),
        decreases chars@.len() - at,
    {
        let ghost piece = text@.subrange(from as int, at as int);
        assert(text@.take(at + 1).drop_last() =~= text@.take(at as int));
        assert(ended.push(piece).drop_last() =~= ended);
        if chars[at] == ',' {
            push_entry(urls, text, chars.as_slice(), from, at);
            proof {
                lemma_kept_push(ended, piece);
                ended = ended.push(piece);
                assert(text@.subrange(at + 1, at + 1) =~= Seq::<char>::empty());
                assert(texts(urls@) =~= before + kept(ended));
            }
            from = at + 1;
        } else {
            assert(text@.subrange(from as int, at + 1) =~= piece.push(text@[at as int]));
        }
        at += 1;
    }
    assert(text@.take(at as int) =~= text@);
    push_entry(urls, text, chars.as_slice(), from, at);
    proof {
        let piece = text@.subrange(from as int, at as int);
        lemma_kept_push(ended, piece);
        assert(texts(urls@) =~= before + kept(ended.push(piece)));
    }
}

/// Whether `needle` occurs in `text`.
pub fn contains_text(text: &str, needle: &str) -> (found: bool)
    ensures
        found == occurs(needle@, text@),
{
    let chars = chars_of(text);
    let wanted = chars_of(needle);
    let mut at: usize = 0;
    while wanted.len() <= chars.len() - at
        invariant
            chars@ == text@,
            wanted@ == needle@,
            at <= chars.len(),
            forall|i: int|
                0 <= i < at ==> #[trigger] text@.subrange(i, i + needle@.len()) != needle@,
        decreases chars.len() - at,
    {
        let mut matched: usize = 0;
        while matched < wanted.len() && chars[at + matched] == wanted[matched]
            invariant
                at + wanted.len() <= chars.len(),
                matched <= wanted.len(),
                forall|j: int| 0 <= j < matched ==> chars@[at + j] == wanted@[j],
            decreases wanted.len() - matched,
        {
            matched += 1;
        }
        let ghost here = text@.subrange(at as int, at + needle@.len());
        if matched == wanted.len() {
            assert(here =~= needle@);
            return true;
        }
        assert(here[matched as int] != needle@[matched as int]);
        at += 1;
    }
    false
}

/// The digit that stands for a number below ten.
pub open spec fn digit(d: nat) -> char {
    (0x30 + d) as char
}

/// A number written in decimal.
pub open spec fn decimal(n: nat) -> Seq<char>
    decreases n,
{
    if n < 10 {
        seq![digit(n)]
    } else {
        decimal(n / 10).push(digit(n % 10))
    }
}

/// The text of one digit.
fn digit_text(d: u64) -> (text: &'static str)
    requires
        d < 10,
    ensures
        text@ == seq![digit(d as nat)],
{
    proof {
        reveal_strlit("0");
        reveal_strlit("1");
        reveal_strlit("2");
        reveal_strlit("3");
        reveal_strlit("4");
        reveal_strlit("5");
        reveal_strlit("6");
        reveal_strlit("7");
        reveal_strlit("8");
        reveal_strlit("9");
    }
    let text = match d {
        0 => "0",
        1 => "1",
        2 => "2",
        3 => "3",
        4 => "4",
        5 => "5",
        6 => "6",
        7 => "7",
        8 => "8",
        _ => "9",
    };
    assert(text@ =~= seq![digit(d as nat)]);
    text
}

/// A number written in decimal.
pub fn decimal_text(n: u64) -> (text: String)
    ensures
        text@ == decimal(n as nat),
    decreases n,
{
    if n < 10 {
        String::from_str(digit_text(n))
    } else {
        let text = decimal_text(n / 10).concat(digit_text(n % 10));
        assert(text@ =~= decimal(n as nat));
        text
    }
}

/// What a sequence of digits stands for.
pub open spec fn number(digits: Seq<char>) -> int
    decreases digits.len(),
{
    if digits.len() == 0 {
        0
    } else {
        10 * number(digits.drop_last()) + (digits.last() as u32 - 0x30)
    }
}

/// A number can be read back from its decimal text.
pub proof fn law_decimal_round_trip(n: nat)
    ensures
        number(decimal(n)) == n,
    decreases n,
{
    if n >= 10 {
        law_decimal_round_trip(n / 10);
        assert(decimal(n).drop_last() =~= decimal(n / 10));
        assert(digit(n % 10) as u32 - 0x30 == n % 10);
    } else {
        reveal_with_fuel(number, 2);
        assert(decimal(n).drop_last() =~= Seq::<char>::empty());
        assert(digit(n) as u32 - 0x30 == n);
    }
}

proof fn lemma_kept_concat(a: Seq<Seq<char>>, b: Seq<Seq<char>>)
    ensures
        kept(a + b) == kept(a) + kept(b),
    decreases b.len(),
{
    if b.len() == 0 {
        assert(a + b =~= a);
        assert(kept(a) + kept(b) =~= kept(a));
    } else {
        lemma_kept_concat(a, b.drop_last());
        assert(a + b =~= (a + b.drop_last()).push(b.last()));
        lemma_kept_push(a + b.drop_last(), b.last());
        assert(kept(a + b) =~= kept(a) + kept(b));
    }
}

proof fn lemma_pieces_concat(a: Seq<char>, b: Seq<char>)
    ensures
        comma_pieces(a.push(',') + b) == comma_pieces(a) + comma_pieces(b),
    decreases b.len(),
{
    let whole = a.push(',') + b;
    if b.len() == 0 {
        assert(whole =~= a.push(','));
        assert(a.push(',').drop_last() =~= a);
        assert(comma_pieces(whole) =~= comma_pieces(a) + comma_pieces(b));
    } else {
        lemma_pieces_concat(a, b.drop_last());
        lemma_pieces_not_empty(b.drop_last());
        assert(whole.drop_last() =~= a.push(',') + b.drop_last());
        assert(comma_pieces(whole) =~= comma_pieces(a) + comma_pieces(b));
    }
}

/// Two lists joined by a comma hold the entries of the one, then those of the
/// other: it is the same to join values by commas and to give them one by one.
pub proof fn law_comma_joins_lists(a: Seq<char>, b: Seq<char>)
    ensures
        entries(a.push(',') + b) == entries(a) + entries(b),
        entries(a.push(',') + b) == all_entries(seq![a, b]),
{
    lemma_pieces_concat(a, b);
    lemma_kept_concat(comma_pieces(a), comma_pieces(b));
    reveal_with_fuel(all_entries, 3);
    assert(seq![a, b].drop_last() =~= seq![a]);
    assert(seq![a].drop_last() =~= Seq::<Seq<char>>::empty());
    assert(all_entries(seq![a, b]) =~= entries(a) + entries(b));
}

/// A trimmed text neither starts nor ends with white space, and is a part of
/// the text.
#[verifier::spinoff_prover]
pub proof fn law_trimmed_has_no_outer_space(text: Seq<char>)
    ensures
        trimmed(text).len() > 0 ==> !white_space(trimmed(text)[0]) && !white_space(
            trimmed(text).last(),
        ),
        occurs(trimmed(text), text),
    decreases text.len(),
{
    if text.len() == 0 {
        assert(text.subrange(0, 0) =~= text);
    } else if white_space(text[0]) {
        let rest = text.drop_first();
        law_trimmed_has_no_outer_space(rest);
        let t = trimmed(text);
        let at = choose|at: int|
            0 <= at <= rest.len() - t.len() && #[trigger] rest.subrange(at, at + t.len()) == t;
        assert(text.subrange(at + 1, at + 1 + t.len()) =~= rest.subrange(at, at + t.len()));
    } else if white_space(text.last()) {
        let rest = text.drop_last();
        law_trimmed_has_no_outer_space(rest);
        let t = trimmed(text);
        let at = choose|at: int|
            0 <= at <= rest.len() - t.len() && #[trigger] rest.subrange(at, at + t.len()) == t;
        assert(text.subrange(at, at + t.len()) =~= rest.subrange(at, at + t.len()));
    } else {
        assert(text.subrange(0, 0 + text.len() as int) =~= text);
    }
}

proof fn lemma_pieces_without_comma(text: Seq<char>)
    requires
        !text.contains(','),
    ensures
        comma_pieces(text) == seq![text],
    decreases text.len(),
{
    if text.len() == 0 {
        assert(text =~= Seq::<char>::empty());
    } else {
        let front = text.drop_last();
        assert forall|i: int| 0 <= i < front.len() implies front[i] != ',' by {
            assert(text[i] == front[i]);
        }
        assert(text.contains(text.last()));
        lemma_pieces_without_comma(front);
        assert(front.push(text.last()) =~= text);
        assert(comma_pieces(text) =~= seq![text]);
    }
}

/// A text without commas and without white space at its ends is its own entry.
pub proof fn law_plain_text_is_its_entry(text: Seq<char>)
    requires
        text.len() > 0,
        !text.contains(','),
        !white_space(text[0]),
        !white_space(text.last()),
    ensures
        entries(text) == seq![text],
{
    lemma_pieces_without_comma(text);
    reveal_with_fuel(kept, 2);
    assert(seq![text].drop_last() =~= Seq::<Seq<char>>::empty());
    assert(entries(text) =~= seq![text]);
}

proof fn lemma_pieces_have_no_comma(text: Seq<char>)
    ensures
        forall|i: int| 0 <= i < comma_pieces(text).len() ==> !(#[trigger] comma_pieces(
            text,
        )[i]).contains(','),
    decreases text.len(),
{
    lemma_pieces_not_empty(text);
    if text.len() > 0 {
        let front = text.drop_last();
        lemma_pieces_have_no_comma(front);
        lemma_pieces_not_empty(front);
        assert forall|i: int| 0 <= i < comma_pieces(text).len() implies !(#[trigger] comma_pieces(
            text,
        )[i]).contains(',') by {
            let earlier = comma_pieces(front);
            if i < earlier.len() - 1 || text.last() == ',' {
                if i < earlier.len() {
                    assert(comma_pieces(text)[i] == earlier[i]);
                }
            } else {
                let piece = comma_pieces(text)[i];
                assert(piece == earlier[i].push(text.last()));
                assert forall|j: int| 0 <= j < piece.len() implies piece[j] != ',' by {
                    if j < earlier[i].len() {
                        assert(earlier[i].contains(earlier[i][j]));
                    }
                }
            }
        }
    }
}

proof fn lemma_kept_comes_from(pieces: Seq<Seq<char>>, i: int)
    requires
        0 <= i < kept(pieces).len(),
    ensures
        kept(pieces)[i].len() > 0,
        exists|k: int| 0 <= k < pieces.len() && kept(pieces)[i] == trimmed(#[trigger] pieces[k]),
    decreases pieces.len(),
{
    if pieces.len() > 0 {
        let front = pieces.drop_last();
        if i < kept(front).len() {
            lemma_kept_comes_from(front, i);
            let k = choose|k: int|
                0 <= k < front.len() && kept(front)[i] == trimmed(#[trigger] front[k]);
            assert(pieces[k] == front[k]);
        } else {
            assert(kept(pieces)[i] == trimmed(pieces[pieces.len() - 1]));
        }
    }
}

/// No entry of a list is blank, holds a comma, or starts or ends with white
/// space.
pub proof fn law_entries_are_plain(text: Seq<char>, i: int)
    requires
        0 <= i < entries(text).len(),
    ensures
        entries(text)[i].len() > 0,
        !entries(text)[i].contains(','),
        !white_space(entries(text)[i][0]),
        !white_space(entries(text)[i].last()),
{
    let pieces = comma_pieces(text);
    let entry = entries(text)[i];
    lemma_kept_comes_from(pieces, i);
    let k = choose|k: int| 0 <= k < pieces.len() && entry == trimmed(#[trigger] pieces[k]);
    lemma_pieces_have_no_comma(text);
    law_trimmed_has_no_outer_space(pieces[k]);
    let at = choose|at: int|
        0 <= at <= pieces[k].len() - entry.len() && #[trigger] pieces[k].subrange(
            at,
            at + entry.len(),
        ) == entry;
    assert forall|j: int| 0 <= j < entry.len() implies entry[j] != ',' by {
        assert(entry[j] == pieces[k][at + j]);
        assert(pieces[k].contains(pieces[k][at + j]));
    }
}

/// A trimmed text is what is left between white space at the two ends, and all
/// of it.
#[verifier::spinoff_prover]
pub proof fn law_trimmed_drops_only_outer_space(text: Seq<char>) -> (ends: (int, int))
    ensures
        0 <= ends.0 <= ends.1 <= text.len(),
        trimmed(text) == text.subrange(ends.0, ends.1),
        forall|i: int|
            0 <= i < ends.0 || ends.1 <= i < text.len() ==> white_space(#[trigger] text[i]),
        ends.0 < ends.1 ==> !white_space(text[ends.0]) && !white_space(text[ends.1 - 1]),
    decreases text.len(),
{
    if text.len() == 0 {
        assert(text.subrange(0, 0) =~= text);
        (0, 0)
    } else if white_space(text[0]) {
        let rest = text.drop_first();
        let (lo, hi) = law_trimmed_drops_only_outer_space(rest);
        assert(rest.subrange(lo, hi) =~= text.subrange(lo + 1, hi + 1));
        assert forall|i: int| 0 <= i < lo + 1 || hi + 1 <= i < text.len() implies white_space(
            #[trigger] text[i],
        ) by {
            if i > 0 {
                assert(rest[i - 1] == text[i]);
            }
        }
        if lo < hi {
            assert(rest[lo] == text[lo + 1]);
            assert(rest[hi - 1] == text[hi]);
        }
        (lo + 1, hi + 1)
    } else if white_space(text.last()) {
        let rest = text.drop_last();
        let (lo, hi) = law_trimmed_drops_only_outer_space(rest);
        assert(rest.subrange(lo, hi) =~= text.subrange(lo, hi));
        assert forall|i: int| 0 <= i < lo || hi <= i < text.len() implies white_space(
            #[trigger] text[i],
        ) by {
            if i < rest.len() {
                assert(rest[i] == text[i]);
            }
        }
        if lo < hi {
            assert(rest[lo] == text[lo]);
            assert(rest[hi - 1] == text[hi - 1]);
        }
        (lo, hi)
    } else {
        assert(text.subrange(0, text.len() as int) =~= text);
        (0, text.len() as int)
    }
}

/// A text without commas has one entry, itself trimmed, unless it is blank.
pub proof fn law_entry_of_a_text_without_commas(text: Seq<char>)
    requires
        !text.contains(','),
    ensures
        (forall|i: int| 0 <= i < text.len() ==> white_space(#[trigger] text[i])) ==> entries(
            text,
        ).len() == 0,
        (exists|i: int| 0 <= i < text.len() && !white_space(#[trigger] text[i])) ==> entries(text)
            == seq![trimmed(text)],
{
    lemma_pieces_without_comma(text);
    lemma_kept_push(Seq::empty(), text);
    assert(Seq::empty().push(text) =~= seq![text]);
    assert(kept(Seq::empty()) =~= Seq::<Seq<char>>::empty());
    let (lo, hi) = law_trimmed_drops_only_outer_space(text);
    if lo < hi {
        assert(!white_space(text[lo]));
    }
    assert(Seq::<Seq<char>>::empty().push(trimmed(text)) =~= seq![trimmed(text)]);
}

/// The entries of one text after another are those of the first texts, then
/// those of the last.
pub proof fn law_entries_follow_their_texts(values: Seq<Seq<char>>, last: Seq<char>)
    ensures
        all_entries(values.push(last)) == all_entries(values) + entries(last),
        all_entries(Seq::empty()).len() == 0,
{
    assert(values.push(last).drop_last() =~= values);
}

/// A text occurs in another exactly if the other is made of something, the text,
/// and something.
pub proof fn law_occurs_means_in_the_middle(needle: Seq<char>, text: Seq<char>)
    ensures
        occurs(needle, text) <==> exists|before: Seq<char>, after: Seq<char>|
            text == #[trigger] (before + needle + after),
{
    if occurs(needle, text) {
        let at = choose|at: int|
            0 <= at <= text.len() - needle.len() && #[trigger] text.subrange(at, at + needle.len())
                == needle;
        let before = text.take(at);
        let after = text.skip(at + needle.len());
        assert forall|i: int| 0 <= i < needle.len() implies needle[i] == text[at + i] by {
            assert(text.subrange(at, at + needle.len())[i] == text[at + i]);
        }
        assert(text =~= before + needle + after);
    }
    if exists|before: Seq<char>, after: Seq<char>| text == #[trigger] (before + needle + after) {
        let (before, after) = choose|before: Seq<char>, after: Seq<char>|
            text == #[trigger] (before + needle + after);
        let at = before.len() as int;
        assert(text.subrange(at, at + needle.len()) =~= needle);
    }
}

/// A decimal text is made of the digits '0' to '9', and starts with no '0' but
/// for zero itself.
pub proof fn law_decimal_is_made_of_digits(n: nat)
    ensures
        decimal(n).len() > 0,
        forall|i: int| 0 <= i < decimal(n).len() ==> '0' <= #[trigger] decimal(n)[i] <= '9',
        n > 0 ==> decimal(n)[0] != '0',
    decreases n,
{
    if n >= 10 {
        law_decimal_is_made_of_digits(n / 10);
        assert(decimal(n)[0] == decimal(n / 10)[0]);
        assert forall|i: int| 0 <= i < decimal(n).len() implies '0' <= #[trigger] decimal(n)[i]
            <= '9' by {
            if i < decimal(n / 10).len() {
                assert(decimal(n)[i] == decimal(n / 10)[i]);
            }
        }
    }
}

/// Below U+0100 the white space is the blank, the no-break space, the next-line
/// control and the five controls from the tabulator to the carriage return;
/// above, the spaces of U+2000 and the ten after it, the two separators of lines
/// and paragraphs, and four single spaces.
pub proof fn law_what_is_white_space(c: char)
    ensures
        (c as u32) < 0x100 ==> (white_space(c) <==> c == ' ' || c == '\u{a0}' || c == '\u{85}'
            || '\t' <= c <= '\r'),
        (c as u32) >= 0x100 ==> (white_space(c) <==> '\u{2000}' <= c <= '\u{200a}' || c
            == '\u{2028}' || c == '\u{2029}' || c == '\u{1680}' || c == '\u{202f}' || c
            == '\u{205f}' || c == '\u{3000}'),
{
}

/// Each string gives its own text, in order.
pub proof fn law_texts_are_those_of_the_strings(strings: Seq<String>)
    ensures
        texts(strings).len() == strings.len(),
        forall|i: int| 0 <= i < strings.len() ==> #[trigger] texts(strings)[i] == strings[i]@,
{
}

} // verus!
