//! What splitting, trimming and joining do to any text.

use vstd::prelude::*;

use crate::text::{
    byte_len_spec, distinct_spec, fields_spec, fitting, has_infix, has_prefix, is_white, join_spec,
    last_match, lemma_byte_len_add, lemma_distinct, lines_spec, lower, lower_char, match_at,
    nonempty_spec, replace_spec, rsplit_once_spec, trim_class_spec, trim_end_spec, trim_start_spec,
    truncated, without_cr, words_spec, CharClass,
};

verus! {

// ---------------------------------------------------------------------------
// Occurrences
// ---------------------------------------------------------------------------

/// What stands in a part of a text stands in the text.
pub proof fn law_parts_of_parts(whole: Seq<char>, part: Seq<char>, inner: Seq<char>)
    requires
        has_infix(whole, part),
        has_infix(part, inner),
    ensures
        has_infix(whole, inner),
{
    let i = choose|i: int| match_at(whole, part, i);
    let j = choose|j: int| match_at(part, inner, j);
    assert(whole.subrange(i + j, i + j + inner.len()) =~= part.subrange(j, j + inner.len()));
    assert(match_at(whole, inner, i + j));
}

/// A text stands in what is put together around it.
pub proof fn law_middle_stands_inside(a: Seq<char>, b: Seq<char>, c: Seq<char>)
    ensures
        has_infix(a + b + c, b),
        has_infix(a + b + c, a),
        has_infix(a + b + c, c),
{
    let s = a + b + c;
    assert(s.subrange(a.len() as int, (a.len() + b.len()) as int) =~= b);
    assert(match_at(s, b, a.len() as int));
    assert(s.subrange(0, a.len() as int) =~= a);
    assert(match_at(s, a, 0));
    assert(s.subrange((a.len() + b.len()) as int, s.len() as int) =~= c);
    assert(match_at(s, c, (a.len() + b.len()) as int));
}

// ---------------------------------------------------------------------------
// Trimming
// ---------------------------------------------------------------------------

/// A text with its front taken off: only characters of the class went, and
/// what is left does not start with one.
pub proof fn law_front_trimmed(s: Seq<char>, class: CharClass)
    ensures
        trim_start_spec(s, class).len() <= s.len(),
        trim_start_spec(s, class) == s.skip(s.len() - trim_start_spec(s, class).len()),
        forall|k: int|
            0 <= k < s.len() - trim_start_spec(s, class).len() ==> class.has(#[trigger] s[k]),
        trim_start_spec(s, class).len() > 0 ==> !class.has(trim_start_spec(s, class)[0]),
    decreases s.len(),
{
    if s.len() > 0 && class.has(s[0]) {
        let rest = s.drop_first();
        law_front_trimmed(rest, class);
        let n = trim_start_spec(rest, class).len();
        assert(rest.skip(rest.len() - n) =~= s.skip(s.len() - n));
        assert forall|k: int| 0 <= k < s.len() - n implies class.has(#[trigger] s[k]) by {
            if k > 0 {
                assert(s[k] == rest[k - 1]);
            }
        }
    } else {
        assert(s.skip(0) =~= s);
    }
}

/// A text with its end taken off: only characters of the class went, and what
/// is left does not end with one.
pub proof fn law_end_trimmed(s: Seq<char>, class: CharClass)
    ensures
        trim_end_spec(s, class).len() <= s.len(),
        trim_end_spec(s, class) == s.take(trim_end_spec(s, class).len() as int),
        forall|k: int|
            trim_end_spec(s, class).len() <= k < s.len() ==> class.has(#[trigger] s[k]),
        trim_end_spec(s, class).len() > 0 ==> !class.has(trim_end_spec(s, class).last()),
    decreases s.len(),
{
    if s.len() > 0 && class.has(s.last()) {
        let rest = s.drop_last();
        law_end_trimmed(rest, class);
        let n = trim_end_spec(rest, class).len();
        assert(rest.take(n as int) =~= s.take(n as int));
        assert forall|k: int| n <= k < s.len() implies class.has(#[trigger] s[k]) by {
            if k < rest.len() {
                assert(s[k] == rest[k]);
            }
        }
    } else {
        assert(s.take(s.len() as int) =~= s);
    }
}

/// A trimmed text is a part of the text. Nothing but characters of the class
/// stood around it, and it neither starts nor ends with one. It is empty only
/// where the text has no other character.
pub proof fn law_trimmed(s: Seq<char>, class: CharClass)
    ensures
        has_infix(s, trim_class_spec(s, class)),
        trim_class_spec(s, class).len() > 0 ==> !class.has(trim_class_spec(s, class)[0])
            && !class.has(trim_class_spec(s, class).last()),
        trim_class_spec(s, class).len() == 0 <==> forall|k: int|
            0 <= k < s.len() ==> class.has(#[trigger] s[k]),
{
    let front = trim_start_spec(s, class);
    let both = trim_end_spec(front, class);
    law_front_trimmed(s, class);
    law_end_trimmed(front, class);
    let i = s.len() - front.len();
    assert(s.subrange(i, i + both.len()) =~= both);
    assert(match_at(s, both, i));
    if both.len() > 0 {
        assert(both[0] == front[0]);
        assert(s[i] == front[0]);
        assert(!class.has(s[i]));
    } else {
        assert forall|k: int| 0 <= k < s.len() implies class.has(#[trigger] s[k]) by {
            if k >= i {
                assert(s[k] == front[k - i]);
            }
        }
    }
}

/// A text that neither starts nor ends with a character of the class is left
/// as it is.
pub proof fn law_trimming_spares(s: Seq<char>, class: CharClass)
    requires
        s.len() > 0 ==> !class.has(s[0]) && !class.has(s.last()),
    ensures
        trim_class_spec(s, class) == s,
{
}

proof fn lemma_front_around(before: Seq<char>, text: Seq<char>, class: CharClass)
    requires
        forall|k: int| 0 <= k < before.len() ==> class.has(#[trigger] before[k]),
        text.len() > 0,
        !class.has(text[0]),
    ensures
        trim_start_spec(before + text, class) == text,
    decreases before.len(),
{
    if before.len() == 0 {
        assert(before + text =~= text);
    } else {
        let rest = before.drop_first();
        assert forall|k: int| 0 <= k < rest.len() implies class.has(#[trigger] rest[k]) by {
            assert(rest[k] == before[k + 1]);
        }
        lemma_front_around(rest, text, class);
        assert((before + text).drop_first() =~= rest + text);
        assert(class.has(before[0]));
    }
}

proof fn lemma_end_around(text: Seq<char>, after: Seq<char>, class: CharClass)
    requires
        forall|k: int| 0 <= k < after.len() ==> class.has(#[trigger] after[k]),
        text.len() > 0,
        !class.has(text.last()),
    ensures
        trim_end_spec(text + after, class) == text,
    decreases after.len(),
{
    if after.len() == 0 {
        assert(text + after =~= text);
    } else {
        let rest = after.drop_last();
        assert forall|k: int| 0 <= k < rest.len() implies class.has(#[trigger] rest[k]) by {
            assert(rest[k] == after[k]);
        }
        lemma_end_around(text, rest, class);
        assert((text + after).drop_last() =~= text + rest);
        assert(class.has(after[after.len() - 1]));
    }
}

/// Characters of the class around a text that neither starts nor ends with one
/// are all that is taken off.
pub proof fn law_trimmed_around(
    before: Seq<char>,
    text: Seq<char>,
    after: Seq<char>,
    class: CharClass,
)
    requires
        forall|k: int| 0 <= k < before.len() ==> class.has(#[trigger] before[k]),
        forall|k: int| 0 <= k < after.len() ==> class.has(#[trigger] after[k]),
        text.len() > 0,
        !class.has(text[0]),
        !class.has(text.last()),
    ensures
        trim_class_spec(before + text + after, class) == text,
{
    lemma_front_around(before, text + after, class);
    lemma_end_around(text, after, class);
    assert(before + text + after =~= before + (text + after));
}

// ---------------------------------------------------------------------------
// Fields
// ---------------------------------------------------------------------------

/// No field holds a divider, and every field is a part of the text.
pub proof fn law_fields_are_parts(s: Seq<char>, class: CharClass)
    ensures
        fields_spec(s, class).len() >= 1,
        forall|k: int|
            0 <= k < fields_spec(s, class).len() ==> has_infix(
                s,
                #[trigger] fields_spec(s, class)[k],
            ),
        forall|k: int, c: int|
            #![trigger fields_spec(s, class)[k][c]]
            0 <= k < fields_spec(s, class).len() && 0 <= c < fields_spec(s, class)[k].len()
                ==> !class.has(fields_spec(s, class)[k][c]),
        fields_spec(s, class).last().len() <= s.len(),
        fields_spec(s, class).last() == s.skip(s.len() - fields_spec(s, class).last().len()),
    decreases s.len(),
{
    let all = fields_spec(s, class);
    if s.len() == 0 {
        assert(all[0] =~= s.subrange(0, 0));
        assert(match_at(s, all[0], 0));
        assert(all.last() =~= s.skip(0));
    } else {
        let front = s.drop_last();
        law_fields_are_parts(front, class);
        let before = fields_spec(front, class);
        assert(s.subrange(0, front.len() as int) =~= front);
        assert(match_at(s, front, 0));
        if class.has(s.last()) {
            assert(s.skip(s.len() as int) =~= Seq::<char>::empty());
            assert(s.subrange(0, 0) =~= Seq::<char>::empty());
            assert(match_at(s, Seq::<char>::empty(), 0));
        } else {
            let n = before.last().len();
            assert(all.last() =~= s.skip(s.len() - n - 1));
            assert(s.subrange(s.len() - n - 1, s.len() as int) =~= all.last());
            assert(match_at(s, all.last(), s.len() - n - 1));
        }
        assert forall|k: int| 0 <= k < all.len() implies has_infix(s, #[trigger] all[k]) by {
            if k < all.len() - 1 {
                assert(all[k] == before[k]);
                law_parts_of_parts(s, front, before[k]);
            }
        }
        assert forall|k: int, c: int|
            #![trigger all[k][c]]
            0 <= k < all.len() && 0 <= c < all[k].len() implies !class.has(all[k][c]) by {
            if k < all.len() - 1 {
                assert(all[k] == before[k]);
                assert(!class.has(before[k][c]));
            } else if !class.has(s.last()) {
                if c < before.last().len() {
                    assert(all[k][c] == before[before.len() - 1][c]);
                }
            }
        }
    }
}

/// A divider divides: the fields of two texts with a divider between them are
/// the fields of the one and then those of the other.
pub proof fn law_dividers_divide(a: Seq<char>, divider: char, b: Seq<char>, class: CharClass)
    requires
        class.has(divider),
    ensures
        fields_spec(a.push(divider) + b, class) == fields_spec(a, class) + fields_spec(b, class),
    decreases b.len(),
{
    let s = a.push(divider) + b;
    if b.len() == 0 {
        assert(s =~= a.push(divider));
        assert(a.push(divider).drop_last() =~= a);
        assert(fields_spec(b, class) =~= seq![Seq::<char>::empty()]);
        assert(fields_spec(s, class) =~= fields_spec(a, class) + fields_spec(b, class));
    } else {
        law_dividers_divide(a, divider, b.drop_last(), class);
        law_fields_are_parts(b.drop_last(), class);
        assert(s.drop_last() =~= a.push(divider) + b.drop_last());
        assert(s.last() == b.last());
        let front = fields_spec(a, class);
        let before = fields_spec(b.drop_last(), class);
        assert((front + before).last() == before.last());
        assert((front + before).drop_last() =~= front + before.drop_last());
        assert(fields_spec(s, class) =~= front + fields_spec(b, class));
    }
}

/// A text without a divider is a single field.
pub proof fn law_undivided_texts(s: Seq<char>, class: CharClass)
    requires
        forall|k: int| 0 <= k < s.len() ==> !class.has(#[trigger] s[k]),
    ensures
        fields_spec(s, class) == seq![s],
    decreases s.len(),
{
    if s.len() == 0 {
        assert(s =~= Seq::<char>::empty());
    } else {
        let front = s.drop_last();
        assert forall|k: int| 0 <= k < front.len() implies !class.has(#[trigger] front[k]) by {
            assert(front[k] == s[k]);
        }
        law_undivided_texts(front, class);
        assert(seq![front].drop_last() =~= Seq::<Seq<char>>::empty());
        assert(front.push(s.last()) =~= s);
        assert(fields_spec(s, class) =~= seq![s]);
    }
}

proof fn lemma_some_field(s: Seq<char>, class: CharClass)
    ensures
        fields_spec(s, class).len() >= 1,
    decreases s.len(),
{
    if s.len() > 0 {
        lemma_some_field(s.drop_last(), class);
    }
}

/// A list with one text more, or with a longer last text, when it is joined.
proof fn lemma_join_grows(parts: Seq<Seq<char>>, sep: Seq<char>, c: char)
    requires
        parts.len() >= 1,
    ensures
        join_spec(parts.push(Seq::empty()), sep) == join_spec(parts, sep) + sep,
        join_spec(parts.drop_last().push(parts.last().push(c)), sep) == join_spec(
            parts,
            sep,
        ).push(c),
{
    let more = parts.push(Seq::empty());
    assert(more.drop_last() =~= parts);
    assert(join_spec(more, sep) =~= join_spec(parts, sep) + sep);
    let longer = parts.drop_last().push(parts.last().push(c));
    assert(longer.drop_last() =~= parts.drop_last());
    if parts.len() == 1 {
        assert(longer[0] == parts[0].push(c));
    } else {
        let head = join_spec(parts.drop_last(), sep);
        assert(head + sep + parts.last().push(c) =~= (head + sep + parts.last()).push(c));
    }
}

/// A text that was divided at a character is put together again with it.
pub proof fn law_rejoined_fields(s: Seq<char>, divider: char)
    ensures
        join_spec(fields_spec(s, CharClass::Only(divider)), seq![divider]) == s,
    decreases s.len(),
{
    let class = CharClass::Only(divider);
    let sep = seq![divider];
    if s.len() == 0 {
        assert(fields_spec(s, class)[0] =~= s);
    } else {
        let front = s.drop_last();
        law_rejoined_fields(front, divider);
        lemma_some_field(front, class);
        lemma_join_grows(fields_spec(front, class), sep, s.last());
        assert(front.push(s.last()) =~= s);
        assert(front + sep =~= front.push(divider));
    }
}

/// The texts that are not empty, of two lists: those of the one and then those
/// of the other.
pub proof fn lemma_nonempty_add(a: Seq<Seq<char>>, b: Seq<Seq<char>>)
    ensures
        nonempty_spec(a + b) == nonempty_spec(a) + nonempty_spec(b),
    decreases b.len(),
{
    if b.len() == 0 {
        assert(a + b =~= a);
        assert(nonempty_spec(a) + nonempty_spec(b) =~= nonempty_spec(a));
    } else {
        lemma_nonempty_add(a, b.drop_last());
        assert((a + b).drop_last() =~= a + b.drop_last());
        assert((a + b).last() == b.last());
        assert(nonempty_spec(a + b) =~= nonempty_spec(a) + nonempty_spec(b));
    }
}

/// Exactly the texts that are not empty are kept.
pub proof fn lemma_nonempty(all: Seq<Seq<char>>)
    ensures
        forall|t: Seq<char>|
            nonempty_spec(all).contains(t) <==> t.len() > 0 && #[trigger] all.contains(t),
        forall|k: int|
            0 <= k < nonempty_spec(all).len() ==> (#[trigger] nonempty_spec(all)[k]).len() > 0
                && all.contains(nonempty_spec(all)[k]),
    decreases all.len(),
{
    if all.len() > 0 {
        let front = all.drop_last();
        lemma_nonempty(front);
        let before = nonempty_spec(front);
        let after = nonempty_spec(all);
        assert forall|t: Seq<char>|
            after.contains(t) <==> t.len() > 0 && #[trigger] all.contains(t) by {
            if after.contains(t) {
                let k = choose|k: int| 0 <= k < after.len() && after[k] == t;
                if k < before.len() {
                    assert(before[k] == t);
                    assert(before.contains(t));
                    assert(front.contains(t));
                    let j = choose|j: int| 0 <= j < front.len() && front[j] == t;
                    assert(all[j] == t);
                } else {
                    assert(all[all.len() - 1] == t);
                }
            }
            if t.len() > 0 && all.contains(t) {
                let j = choose|j: int| 0 <= j < all.len() && all[j] == t;
                if j < front.len() {
                    assert(front[j] == t);
                    assert(front.contains(t));
                    assert(before.contains(t));
                    let k = choose|k: int| 0 <= k < before.len() && before[k] == t;
                    assert(after[k] == t);
                } else {
                    assert(after[after.len() - 1] == t);
                }
            }
        }
        assert forall|k: int| 0 <= k < after.len() implies (#[trigger] after[k]).len() > 0
            && all.contains(after[k]) by {
            assert(after.contains(after[k]));
            assert(all.contains(after[k]));
        }
    }
}

// ---------------------------------------------------------------------------
// Words
// ---------------------------------------------------------------------------

/// Every word is a part of the text, is not empty and holds no white space. A
/// text that holds more than white space has a word.
pub proof fn law_words_are_parts(s: Seq<char>)
    ensures
        forall|k: int|
            0 <= k < words_spec(s).len() ==> (#[trigger] words_spec(s)[k]).len() > 0 && has_infix(
                s,
                words_spec(s)[k],
            ),
        forall|k: int, c: int|
            #![trigger words_spec(s)[k][c]]
            0 <= k < words_spec(s).len() && 0 <= c < words_spec(s)[k].len() ==> !is_white(
                words_spec(s)[k][c],
            ),
        forall|k: int| 0 <= k < s.len() && !is_white(#[trigger] s[k]) ==> words_spec(s).len() > 0,
{
    let all = fields_spec(s, CharClass::White);
    law_fields_are_parts(s, CharClass::White);
    lemma_nonempty(all);
    assert forall|k: int| 0 <= k < words_spec(s).len() implies (#[trigger] words_spec(s)[k]).len()
        > 0 && has_infix(s, words_spec(s)[k]) by {
        let j = choose|j: int| 0 <= j < all.len() && all[j] == words_spec(s)[k];
        assert(all.contains(words_spec(s)[k]));
        assert(has_infix(s, all[j]));
    }
    assert forall|k: int, c: int|
        #![trigger words_spec(s)[k][c]]
        0 <= k < words_spec(s).len() && 0 <= c < words_spec(s)[k].len() implies !is_white(
        words_spec(s)[k][c],
    ) by {
        assert(all.contains(words_spec(s)[k]));
        let j = choose|j: int| 0 <= j < all.len() && all[j] == words_spec(s)[k];
        assert(!CharClass::White.has(all[j][c]));
    }
    assert forall|k: int| 0 <= k < s.len() && !is_white(#[trigger] s[k]) implies words_spec(s).len()
        > 0 by {
        lemma_some_word(s, k);
    }
}

proof fn lemma_some_word(s: Seq<char>, k: int)
    requires
        0 <= k < s.len(),
        !is_white(s[k]),
    ensures
        words_spec(s).len() > 0,
    decreases s.len(),
{
    let all = fields_spec(s, CharClass::White);
    let front = s.drop_last();
    law_fields_are_parts(front, CharClass::White);
    let before = fields_spec(front, CharClass::White);
    if k < front.len() {
        lemma_some_word(front, k);
        lemma_nonempty(before);
        lemma_nonempty(all);
        let w = words_spec(front)[0];
        assert(before.contains(w));
        let j = choose|j: int| 0 <= j < before.len() && before[j] == w;
        if j < before.len() - 1 || CharClass::White.has(s.last()) {
            assert(all[j] == w);
            assert(all.contains(w));
            assert(nonempty_spec(all).contains(w));
        } else {
            let longer = w.push(s.last());
            assert(all[j] == longer);
            assert(all.contains(longer));
            assert(nonempty_spec(all).contains(longer));
        }
    } else {
        lemma_nonempty(all);
        let last = before.last().push(s.last());
        assert(all[all.len() - 1] == last);
        assert(all.contains(last));
        assert(nonempty_spec(all).contains(last));
    }
}

proof fn lemma_no_words()
    ensures
        words_spec(Seq::<char>::empty()) == Seq::<Seq<char>>::empty(),
{
    let none = Seq::<char>::empty();
    let nothing = Seq::<Seq<char>>::empty();
    assert(fields_spec(none, CharClass::White) =~= seq![none]);
    assert(seq![none].drop_last() =~= nothing);
    assert(nonempty_spec(nothing) =~= nothing);
    assert(nonempty_spec(seq![none]) =~= nothing);
}

/// A text without white space is a single word.
pub proof fn law_a_word_is_a_word(w: Seq<char>)
    requires
        w.len() > 0,
        forall|c: int| 0 <= c < w.len() ==> !is_white(#[trigger] w[c]),
    ensures
        words_spec(w) == seq![w],
{
    law_undivided_texts(w, CharClass::White);
    let nothing = Seq::<Seq<char>>::empty();
    assert(seq![w].drop_last() =~= nothing);
    assert(nonempty_spec(nothing) =~= nothing);
    assert(nonempty_spec(seq![w]) =~= seq![w]);
}

/// The words of two texts with white space between them are those of the one
/// and then those of the other.
pub proof fn law_white_space_divides_words(a: Seq<char>, white: char, b: Seq<char>)
    requires
        is_white(white),
    ensures
        words_spec(a.push(white) + b) == words_spec(a) + words_spec(b),
{
    law_dividers_divide(a, white, b, CharClass::White);
    lemma_nonempty_add(fields_spec(a, CharClass::White), fields_spec(b, CharClass::White));
}

/// Words that are joined with spaces are found again, one by one.
pub proof fn law_joined_words_are_found_again(parts: Seq<Seq<char>>)
    requires
        forall|k: int| 0 <= k < parts.len() ==> (#[trigger] parts[k]).len() > 0,
        forall|k: int, c: int|
            #![trigger parts[k][c]]
            0 <= k < parts.len() && 0 <= c < parts[k].len() ==> !is_white(parts[k][c]),
    ensures
        words_spec(join_spec(parts, " "@)) == parts,
    decreases parts.len(),
{
    if parts.len() == 0 {
        lemma_no_words();
        assert(parts =~= Seq::<Seq<char>>::empty());
    } else {
        let last = parts.last();
        assert forall|c: int| 0 <= c < last.len() implies !is_white(#[trigger] last[c]) by {
            assert(last[c] == parts[parts.len() - 1][c]);
        }
        law_a_word_is_a_word(last);
        if parts.len() == 1 {
            assert(parts =~= seq![last]);
        } else {
            let front = parts.drop_last();
            assert forall|k: int| 0 <= k < front.len() implies (#[trigger] front[k]).len() > 0 by {
                assert(front[k] == parts[k]);
            }
            assert forall|k: int, c: int|
                #![trigger front[k][c]]
                0 <= k < front.len() && 0 <= c < front[k].len() implies !is_white(front[k][c]) by {
                assert(front[k][c] == parts[k][c]);
            }
            law_joined_words_are_found_again(front);
            let head = join_spec(front, " "@);
            reveal_strlit(" ");
            assert(head + " "@ + last =~= head.push(' ') + last);
            law_white_space_divides_words(head, ' ', last);
            assert(front + seq![last] =~= parts);
        }
    }
}

/// A word keeps its length and holds no white space in small letters.
pub proof fn lemma_lower_word(w: Seq<char>)
    requires
        forall|c: int| 0 <= c < w.len() ==> !is_white(#[trigger] w[c]),
    ensures
        lower(w).len() == w.len(),
        forall|c: int| 0 <= c < w.len() ==> !is_white(#[trigger] lower(w)[c]),
{
    assert forall|c: int| 0 <= c < w.len() implies !is_white(#[trigger] lower(w)[c]) by {
        let x = w[c];
        if 'A' <= x <= 'Z' {
            let b = x as u8;
            assert(65 <= b <= 90);
            assert(97 <= (b + 32) as u8 <= 122);
            assert(lower_char(x) == ((b + 32) as u8) as char);
        }
    }
}

// ---------------------------------------------------------------------------
// Cutting
// ---------------------------------------------------------------------------

proof fn lemma_fitting_bounds(s: Seq<char>, max: nat, n: int)
    requires
        0 <= n <= s.len(),
    ensures
        0 <= fitting(s, max, n) <= n,
        byte_len_spec(s.take(fitting(s, max, n))) <= max,
        fitting(s, max, n) < n ==> byte_len_spec(s.take(fitting(s, max, n) + 1)) > max,
    decreases n,
{
    if n == 0 {
        assert(s.take(0) =~= Seq::<char>::empty());
        assert(vstd::utf8::encode_utf8(Seq::<char>::empty()) =~= Seq::<u8>::empty());
    } else if byte_len_spec(s.take(n)) > max {
        lemma_fitting_bounds(s, max, n - 1);
    }
}

/// A truncated text is the beginning of the text. It keeps to its bytes, and it
/// is the whole text or the next character would not fit.
pub proof fn law_truncated(s: Seq<char>, max: nat)
    ensures
        has_prefix(s, truncated(s, max)),
        byte_len_spec(truncated(s, max)) <= max,
        byte_len_spec(s) <= max ==> truncated(s, max) == s,
        byte_len_spec(s) > max ==> truncated(s, max).len() < s.len() && byte_len_spec(
            s.take(truncated(s, max).len() as int + 1),
        ) > max,
{
    lemma_fitting_bounds(s, max, s.len() as int);
    let n = fitting(s, max, s.len() as int);
    assert(s.take(s.len() as int) =~= s);
    assert(s.subrange(0, n) =~= s.take(n));
    assert(match_at(s, s.take(n), 0));
}

proof fn lemma_last_match(s: Seq<char>, p: Seq<char>, n: int)
    ensures
        last_match(s, p, n) matches Some(i) ==> i <= n && match_at(s, p, i),
        forall|j: int|
            #![trigger match_at(s, p, j)]
            0 <= j <= n && match_at(s, p, j) ==> last_match(s, p, n) is Some && j <= last_match(
                s,
                p,
                n,
            )->0,
    decreases n + 1,
{
    if n >= 0 && !match_at(s, p, n) {
        lemma_last_match(s, p, n - 1);
    }
}

/// A mark that stands nowhere later is the one that divides the text.
pub proof fn lemma_last_match_is(s: Seq<char>, p: Seq<char>, n: int, i: int)
    requires
        0 <= i <= n,
        match_at(s, p, i),
        forall|j: int| i < j <= n ==> !#[trigger] match_at(s, p, j),
    ensures
        last_match(s, p, n) == Some(i),
    decreases n,
{
    if i < n {
        assert(!match_at(s, p, n));
        lemma_last_match_is(s, p, n - 1, i);
    }
}

/// The parts of a divided text make it up, with the mark between them.
pub proof fn lemma_divided(s: Seq<char>, mark: Seq<char>)
    ensures
        rsplit_once_spec(s, mark) matches Some((before, after)) ==> s == before + mark + after,
{
    lemma_last_match(s, mark, s.len() as int);
    match last_match(s, mark, s.len() as int) {
        Some(i) => {
            assert(s.subrange(i, i + mark.len()) == mark);
            assert(s =~= s.take(i) + mark + s.skip(i + mark.len()));
        },
        None => {},
    }
}

/// A text divided at a mark is what stands before the mark, the mark, and what
/// stands behind it. The mark stands at no later place. Only a text without
/// the mark is not divided.
pub proof fn law_divided_at_the_last_mark(s: Seq<char>, mark: Seq<char>)
    ensures
        rsplit_once_spec(s, mark) is Some <==> has_infix(s, mark),
        rsplit_once_spec(s, mark) matches Some((before, after)) ==> {
            &&& s == before + mark + after
            &&& forall|j: int| #[trigger] match_at(s, mark, j) ==> j <= before.len()
        },
{
    lemma_last_match(s, mark, s.len() as int);
    match last_match(s, mark, s.len() as int) {
        Some(i) => {
            assert(s.subrange(i, i + mark.len()) == mark);
            assert(s =~= s.take(i) + mark + s.skip(i + mark.len()));
        },
        None => {
            assert forall|j: int| !match_at(s, mark, j) by {
                if match_at(s, mark, j) {
                    assert(0 <= j <= s.len());
                }
            }
        },
    }
}

/// Every character takes at least one byte.
pub proof fn law_characters_take_bytes(s: Seq<char>)
    ensures
        byte_len_spec(s) >= s.len(),
    decreases s.len(),
{
    if s.len() > 0 {
        let c = s[0];
        let one = seq![c];
        vstd::utf8::char_is_scalar(c);
        assert(one.drop_first() =~= Seq::<char>::empty());
        assert(vstd::utf8::encode_utf8(Seq::<char>::empty()) =~= Seq::<u8>::empty());
        assert(byte_len_spec(one) >= 1);
        law_characters_take_bytes(s.drop_first());
        lemma_byte_len_add(one, s.drop_first());
        assert(one + s.drop_first() =~= s);
    }
}

/// The bytes of a beginning are never more than those of the text.
pub proof fn law_beginnings_are_smaller(s: Seq<char>, n: int)
    requires
        0 <= n <= s.len(),
    ensures
        byte_len_spec(s.take(n)) <= byte_len_spec(s),
{
    lemma_byte_len_add(s.take(n), s.skip(n));
    assert(s.take(n) + s.skip(n) =~= s);
}

// ---------------------------------------------------------------------------
// Lines and lists
// ---------------------------------------------------------------------------

/// A line ends at its line feed, and what follows goes on with the next line. A
/// carriage return before the line feed belongs to the ending.
pub proof fn law_lines_end_at_line_feeds(line: Seq<char>, rest: Seq<char>)
    requires
        forall|k: int| 0 <= k < line.len() ==> #[trigger] line[k] != '\n',
        line.len() > 0 ==> line.last() != '\r',
    ensures
        lines_spec(line.push('\n') + rest) == seq![line] + lines_spec(rest),
        lines_spec(line.push('\r').push('\n') + rest) == seq![line] + lines_spec(rest),
        line.len() > 0 ==> lines_spec(line) == seq![line],
        lines_spec(Seq::<char>::empty()).len() == 0,
{
    let class = CharClass::Only('\n');
    let long = line.push('\r');
    assert forall|k: int| 0 <= k < line.len() implies !class.has(#[trigger] line[k]) by {}
    assert forall|k: int| 0 <= k < long.len() implies !class.has(#[trigger] long[k]) by {
        if k < line.len() {
            assert(long[k] == line[k]);
        }
    }
    law_undivided_texts(line, class);
    law_undivided_texts(long, class);
    law_undivided_texts(Seq::<char>::empty(), class);
    law_dividers_divide(line, '\n', rest, class);
    law_dividers_divide(long, '\n', rest, class);
    lemma_some_field(rest, class);
    assert(long.drop_last() =~= line);
    lemma_first_line(line, line, rest);
    lemma_first_line(long, line, rest);
    assert(seq![line].drop_last() =~= Seq::<Seq<char>>::empty());
    assert(Seq::<Seq<char>>::empty().map_values(|l: Seq<char>| without_cr(l)) =~= Seq::<
        Seq<char>,
    >::empty());
    assert(Seq::<Seq<char>>::empty().push(line) =~= seq![line]);
}

proof fn lemma_first_line(raw: Seq<char>, line: Seq<char>, rest: Seq<char>)
    requires
        fields_spec(raw.push('\n') + rest, CharClass::Only('\n')) == seq![raw] + fields_spec(
            rest,
            CharClass::Only('\n'),
        ),
        fields_spec(rest, CharClass::Only('\n')).len() >= 1,
        without_cr(raw) == line,
    ensures
        lines_spec(raw.push('\n') + rest) == seq![line] + lines_spec(rest),
{
    let tail = fields_spec(rest, CharClass::Only('\n'));
    let all = seq![raw] + tail;
    let f = |l: Seq<char>| without_cr(l);
    assert(all.last() == tail.last());
    assert(all.drop_last() =~= seq![raw] + tail.drop_last());
    assert(all.drop_last().map_values(f) =~= seq![line] + tail.drop_last().map_values(f));
    assert(lines_spec(raw.push('\n') + rest) =~= seq![line] + lines_spec(rest));
}

/// A list in which nothing comes twice is left as it is, and what comes again
/// is left out.
pub proof fn law_first_of_each_is_kept(list: Seq<Seq<char>>, text: Seq<char>)
    ensures
        list.no_duplicates() ==> distinct_spec(list) == list,
        list.contains(text) ==> distinct_spec(list.push(text)) == distinct_spec(list),
        !list.contains(text) ==> distinct_spec(list.push(text)) == distinct_spec(list).push(text),
    decreases list.len(),
{
    lemma_distinct(list);
    assert(list.push(text).drop_last() =~= list);
    if list.len() > 0 && list.no_duplicates() {
        let front = list.drop_last();
        let last = list.last();
        law_first_of_each_is_kept(front, last);
        assert(front.no_duplicates());
        if front.contains(last) {
            let k = choose|k: int| 0 <= k < front.len() && front[k] == last;
            assert(list[k] == list[list.len() - 1]);
        }
        assert(front.push(last) =~= list);
    }
}

/// A text put in the place of a character: what comes of two texts is what
/// comes of the one and then of the other.
pub proof fn law_replacing_goes_on(a: Seq<char>, b: Seq<char>, c: char, with: Seq<char>)
    ensures
        replace_spec(a + b, c, with) == replace_spec(a, c, with) + replace_spec(b, c, with),
        replace_spec(seq![c], c, with) == with,
    decreases b.len(),
{
    if b.len() == 0 {
        assert(a + b =~= a);
        assert(replace_spec(a, c, with) + replace_spec(b, c, with) =~= replace_spec(a, c, with));
    } else {
        law_replacing_goes_on(a, b.drop_last(), c, with);
        assert((a + b).drop_last() =~= a + b.drop_last());
        assert((a + b).last() == b.last());
        assert(replace_spec(a + b, c, with) =~= replace_spec(a, c, with) + replace_spec(
            b,
            c,
            with,
        ));
    }
    let none = Seq::<char>::empty();
    assert(seq![c].drop_last() =~= none);
    assert(replace_spec(none, c, with) =~= none);
    assert(none + with =~= with);
}

/// A text without the character stays as it is.
pub proof fn law_replacing_spares(s: Seq<char>, c: char, with: Seq<char>)
    requires
        forall|k: int| 0 <= k < s.len() ==> #[trigger] s[k] != c,
    ensures
        replace_spec(s, c, with) == s,
    decreases s.len(),
{
    if s.len() > 0 {
        let front = s.drop_last();
        assert forall|k: int| 0 <= k < front.len() implies #[trigger] front[k] != c by {
            assert(front[k] == s[k]);
        }
        law_replacing_spares(front, c, with);
        assert(s[s.len() - 1] != c);
        assert(front.push(s.last()) =~= s);
    }
}

} // verus!
