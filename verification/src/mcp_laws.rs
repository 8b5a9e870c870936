//! What a page of found tools shows, said of the catalog's own entries.

use vstd::prelude::*;

use crate::mcp::{
    comes_first, description_of, entry_score, grade, in_order, is_hit, is_page, lemma_hits_in_range,
    lemma_hits_ordered, lemma_place, lemma_text_order, ordered_hits, place, plain, score, shows,
    text_before, word_points, words_in, CatalogEntry, SearchOptions, SearchPage,
};
use crate::text::{
    has_infix, is_white, lower, lower_char, match_at, opt_view, replace_spec, trim_spec, words_spec,
    CharClass,
};
use crate::text_laws::{law_parts_of_parts, law_trimmed, law_words_are_parts};

verus! {

// ---------------------------------------------------------------------------
// What is found
// ---------------------------------------------------------------------------

/// Whether a tool's name, its server's name or its description has this word in
/// it. Letters may be of any case, and underscores and hyphens are spaces.
pub open spec fn mentions_word(entry: CatalogEntry, word: Seq<char>) -> bool {
    ||| has_infix(plain(entry.tool.name@), word)
    ||| has_infix(plain(entry.server@), word)
    ||| entry.tool.description is Some && has_infix(plain(entry.tool.description->0@), word)
}

/// Whether an entry answers what is looked for: a word of the query is
/// mentioned, or there is no word to look for.
pub open spec fn answers_query(entry: CatalogEntry, query: Option<String>) -> bool {
    query is Some && words_spec(plain(query->0@)).len() > 0 ==> exists|k: int|
        0 <= k < words_spec(plain(query->0@)).len() && #[trigger] mentions_word(
            entry,
            words_spec(plain(query->0@))[k],
        )
}

/// Whether an entry is of the server that is asked for, where one is.
pub open spec fn of_server(entry: CatalogEntry, server: Option<String>) -> bool {
    server is Some ==> entry.server@ == server->0@
}

proof fn lemma_words_in(terms: Seq<Seq<char>>, text: Seq<char>)
    ensures
        words_in(terms, text) > 0 <==> exists|k: int|
            0 <= k < terms.len() && has_infix(text, #[trigger] terms[k]),
        words_in(terms, text) == terms.filter(|t: Seq<char>| has_infix(text, t)).len(),
    decreases terms.len(),
{
    reveal(Seq::filter);
    if terms.len() > 0 {
        let front = terms.drop_last();
        lemma_words_in(front, text);
        if words_in(front, text) > 0 {
            let k = choose|k: int| 0 <= k < front.len() && has_infix(text, #[trigger] front[k]);
            assert(terms[k] == front[k]);
        }
        if has_infix(text, terms.last()) {
            assert(has_infix(text, terms[terms.len() - 1]));
        }
        if exists|k: int| 0 <= k < terms.len() && has_infix(text, #[trigger] terms[k]) {
            let k = choose|k: int| 0 <= k < terms.len() && has_infix(text, #[trigger] terms[k]);
            if k < front.len() {
                assert(front[k] == terms[k]);
            }
        }
    }
}

proof fn lemma_nothing_in_nothing(word: Seq<char>)
    requires
        word.len() > 0,
    ensures
        !has_infix(plain(Seq::<char>::empty()), word),
{
    let none = Seq::<char>::empty();
    let form = plain(none);
    assert(lower(none) =~= none);
    assert(form.len() == 0);
    if has_infix(form, word) {
        let i = choose|i: int| match_at(form, word, i);
        assert(i + word.len() <= 0);
    }
}

proof fn lemma_some_word(query: Seq<char>)
    ensures
        plain(query).len() > 0 <==> words_spec(plain(query)).len() > 0,
{
    let form = plain(query);
    let spaced = replace_spec(
        replace_spec(lower(query), '_', " "@),
        '-',
        " "@,
    );
    law_trimmed(spaced, CharClass::White);
    law_words_are_parts(form);
    if form.len() > 0 {
        assert(!is_white(form[0]));
    } else if words_spec(form).len() > 0 {
        let w = words_spec(form)[0];
        assert(has_infix(form, w));
        let i = choose|i: int| match_at(form, w, i);
        assert(i + w.len() <= 0);
    }
}

proof fn lemma_scored(query: Seq<char>, entry: CatalogEntry)
    requires
        words_spec(query).len() > 0,
    ensures
        score(query, entry.server@, entry.tool.name@, description_of(entry)) > 0 <==> exists|k: int|
            0 <= k < words_spec(query).len() && #[trigger] mentions_word(
                entry,
                words_spec(query)[k],
            ),
{
    let terms = words_spec(query);
    let name = plain(entry.tool.name@);
    let server = plain(entry.server@);
    let description = plain(description_of(entry));
    law_words_are_parts(query);
    lemma_words_in(terms, name);
    lemma_words_in(terms, server);
    lemma_words_in(terms, description);
    assert forall|k: int| 0 <= k < terms.len() implies (#[trigger] mentions_word(entry, terms[k])
        <==> has_infix(name, terms[k]) || has_infix(server, terms[k]) || has_infix(
        description,
        terms[k],
    )) by {
        if entry.tool.description is None {
            lemma_nothing_in_nothing(terms[k]);
        }
    }
    let some = exists|k: int| 0 <= k < terms.len() && #[trigger] mentions_word(entry, terms[k]);
    let points = word_points(query, entry.server@, entry.tool.name@, description_of(entry));
    if points > 0 {
        if words_in(terms, name) > 0 {
            let k = choose|k: int| 0 <= k < terms.len() && has_infix(name, #[trigger] terms[k]);
            assert(mentions_word(entry, terms[k]));
        } else if words_in(terms, server) > 0 {
            let k = choose|k: int| 0 <= k < terms.len() && has_infix(server, #[trigger] terms[k]);
            assert(mentions_word(entry, terms[k]));
        } else {
            let k = choose|k: int|
                0 <= k < terms.len() && has_infix(description, #[trigger] terms[k]);
            assert(mentions_word(entry, terms[k]));
        }
    }
    if grade(query, entry.server@, entry.tool.name@, description_of(entry)) > 1 {
        assert(has_infix(query, terms[0]));
        if name == query || has_infix(name, query) {
            if name != query {
                law_parts_of_parts(name, query, terms[0]);
            }
            assert(has_infix(name, terms[0]));
        } else if server == query || has_infix(server, query) {
            if server != query {
                law_parts_of_parts(server, query, terms[0]);
            }
            assert(has_infix(server, terms[0]));
        } else {
            law_parts_of_parts(description, query, terms[0]);
            assert(has_infix(description, terms[0]));
        }
        assert(mentions_word(entry, terms[0]));
    }
    if some {
        let k = choose|k: int| 0 <= k < terms.len() && #[trigger] mentions_word(entry, terms[k]);
        assert(has_infix(name, terms[k]) || has_infix(server, terms[k]) || has_infix(
            description,
            terms[k],
        ));
        assert(points > 0);
    }
}

/// An entry is found exactly where it is of the server that is asked for and
/// answers the query.
pub proof fn law_what_is_found(options: SearchOptions, entry: CatalogEntry)
    ensures
        is_hit(options, entry) <==> of_server(entry, options.server) && answers_query(
            entry,
            options.query,
        ),
{
    if options.query is Some {
        let query = plain(options.query->0@);
        lemma_some_word(options.query->0@);
        if query.len() > 0 {
            lemma_scored(query, entry);
        }
    }
}

// ---------------------------------------------------------------------------
// What a page shows
// ---------------------------------------------------------------------------

proof fn lemma_hits_are_found(options: SearchOptions, catalog: Seq<CatalogEntry>, n: int)
    requires
        0 <= n <= catalog.len(),
    ensures
        forall|k: int|
            0 <= k < ordered_hits(options, catalog, n).len() ==> is_hit(
                options,
                catalog[#[trigger] ordered_hits(options, catalog, n)[k]],
            ),
    decreases n,
{
    if n > 0 {
        lemma_hits_are_found(options, catalog, n - 1);
        let before = ordered_hits(options, catalog, n - 1);
        let after = ordered_hits(options, catalog, n);
        lemma_place(options, catalog, before, catalog[n - 1]);
        let at = place(options, catalog, before, catalog[n - 1]);
        assert forall|k: int| 0 <= k < after.len() implies is_hit(
            options,
            catalog[#[trigger] after[k]],
        ) by {
            if is_hit(options, catalog[n - 1]) {
                if k < at {
                    assert(after[k] == before[k]);
                } else if k > at {
                    assert(after[k] == before[k - 1]);
                }
            }
        }
    }
}

proof fn lemma_hits_counted(options: SearchOptions, catalog: Seq<CatalogEntry>, n: int)
    requires
        0 <= n <= catalog.len(),
    ensures
        ordered_hits(options, catalog, n).len() == catalog.take(n).filter(
            |e: CatalogEntry| of_server(e, options.server) && answers_query(e, options.query),
        ).len(),
        ordered_hits(options, catalog, n).len() <= catalog.take(n).filter(
            |e: CatalogEntry| of_server(e, options.server),
        ).len(),
    decreases n,
{
    reveal(Seq::filter);
    if n > 0 {
        lemma_hits_counted(options, catalog, n - 1);
        lemma_hits_in_range(options, catalog, n - 1);
        law_what_is_found(options, catalog[n - 1]);
        assert(catalog.take(n).drop_last() =~= catalog.take(n - 1));
        assert(catalog.take(n).last() == catalog[n - 1]);
        lemma_place(
            options,
            catalog,
            ordered_hits(options, catalog, n - 1),
            catalog[n - 1],
        );
    }
}

/// On every page, with a query or without one, each match is an entry of the
/// server that was asked for. There are never more of them than the catalog
/// has entries of that server, and without a query all of those are found.
pub proof fn law_pages_keep_to_the_server(
    page: SearchPage,
    options: SearchOptions,
    catalog: Seq<CatalogEntry>,
)
    requires
        is_page(page, options, catalog),
    ensures
        options.server is Some ==> forall|i: int|
            0 <= i < page.matches@.len() ==> (#[trigger] page.matches@[i]).server@
                == options.server->0@,
        options.server is Some ==> page.total <= catalog.filter(
            |e: CatalogEntry| e.server@ == options.server->0@,
        ).len(),
        options.server is Some && options.query is None ==> page.total == catalog.filter(
            |e: CatalogEntry| e.server@ == options.server->0@,
        ).len(),
        options.server is None && options.query is None ==> page.total == catalog.len(),
{
    let n = catalog.len() as int;
    let hits = ordered_hits(options, catalog, n);
    lemma_hits_are_found(options, catalog, n);
    lemma_hits_counted(options, catalog, n);
    assert(catalog.take(n) =~= catalog);
    assert forall|i: int|
        options.server is Some && 0 <= i < page.matches@.len() implies (
    #[trigger] page.matches@[i]).server@ == options.server->0@ by {
        let k = hits[options.offset + i];
        assert(shows(page.matches@[i], options, catalog[k]));
        assert(is_hit(options, catalog[k]));
    }
    let f = |e: CatalogEntry| of_server(e, options.server) && answers_query(e, options.query);
    let g = |e: CatalogEntry| of_server(e, options.server);
    if options.server is Some {
        let h = |e: CatalogEntry| e.server@ == options.server->0@;
        assert(g =~= h);
    }
    if options.query is None {
        assert(f =~= g);
        if options.server is None {
            lemma_all_kept(catalog, g);
        }
    }
}

proof fn lemma_all_kept(catalog: Seq<CatalogEntry>, f: spec_fn(CatalogEntry) -> bool)
    requires
        forall|e: CatalogEntry| #[trigger] f(e),
    ensures
        catalog.filter(f) == catalog,
    decreases catalog.len(),
{
    reveal(Seq::filter);
    if catalog.len() > 0 {
        lemma_all_kept(catalog.drop_last(), f);
        assert(catalog.drop_last().push(catalog.last()) =~= catalog);
    }
}

/// The number of entries that were found is that of the catalog's entries that
/// are of the server that was asked for and answer the query.
pub proof fn law_totals_count_what_is_found(
    page: SearchPage,
    options: SearchOptions,
    catalog: Seq<CatalogEntry>,
)
    requires
        is_page(page, options, catalog),
    ensures
        page.total == catalog.filter(
            |e: CatalogEntry| of_server(e, options.server) && answers_query(e, options.query),
        ).len(),
{
    lemma_hits_counted(options, catalog, catalog.len() as int);
    assert(catalog.take(catalog.len() as int) =~= catalog);
}

/// Whether the matches of a page show the catalog's entries at these places,
/// one each: entries of the server that was asked for that answer the query,
/// each with its own name, server and description, and with its schema where
/// schemas are asked for.
pub open spec fn shown_at(
    places: Seq<int>,
    page: SearchPage,
    options: SearchOptions,
    catalog: Seq<CatalogEntry>,
) -> bool {
    &&& places.len() == page.matches@.len()
    &&& places.no_duplicates()
    &&& forall|i: int|
        0 <= i < places.len() ==> {
            let entry = catalog[#[trigger] places[i]];
            let m = page.matches@[i];
            &&& 0 <= places[i] < catalog.len()
            &&& of_server(entry, options.server)
            &&& answers_query(entry, options.query)
            &&& m.server@ == entry.server@
            &&& m.tool@ == entry.tool.name@
            &&& opt_view(m.description) == opt_view(entry.tool.description)
            &&& m.input_schema is Some <==> options.include_schema
            &&& options.include_schema ==> *m.input_schema->0 == entry.tool.input_schema
        }
}

/// Every match shows an entry of the catalog, and no two show the same one.
pub proof fn law_matches_are_entries(
    page: SearchPage,
    options: SearchOptions,
    catalog: Seq<CatalogEntry>,
)
    requires
        is_page(page, options, catalog),
    ensures
        exists|places: Seq<int>| #[trigger] shown_at(places, page, options, catalog),
{
    let n = catalog.len() as int;
    let hits = ordered_hits(options, catalog, n);
    lemma_hits_in_range(options, catalog, n);
    lemma_hits_ordered(options, catalog, n);
    lemma_hits_are_found(options, catalog, n);
    let places = Seq::new(page.matches@.len(), |i: int| hits[options.offset + i]);
    assert forall|i: int| 0 <= i < places.len() implies {
        let entry = catalog[#[trigger] places[i]];
        let m = page.matches@[i];
        &&& 0 <= places[i] < catalog.len()
        &&& of_server(entry, options.server)
        &&& answers_query(entry, options.query)
        &&& m.server@ == entry.server@
        &&& m.tool@ == entry.tool.name@
        &&& opt_view(m.description) == opt_view(entry.tool.description)
        &&& m.input_schema is Some <==> options.include_schema
        &&& options.include_schema ==> *m.input_schema->0 == entry.tool.input_schema
    } by {
        assert(places[i] == hits[options.offset + i]);
        assert(shows(page.matches@[i], options, catalog[hits[options.offset + i]]));
        law_what_is_found(options, catalog[places[i]]);
    }
    assert(shown_at(places, page, options, catalog));
}

/// Matches come by falling score, then by their server's name, then by their
/// own.
pub proof fn law_matches_are_ranked(
    page: SearchPage,
    options: SearchOptions,
    catalog: Seq<CatalogEntry>,
    i: int,
    j: int,
)
    requires
        is_page(page, options, catalog),
        0 <= i < j < page.matches@.len(),
    ensures
        ({
            let a = page.matches@[i];
            let b = page.matches@[j];
            &&& a.score >= b.score
            &&& a.score == b.score ==> !text_before(b.server@, a.server@)
            &&& a.score == b.score && a.server@ == b.server@ ==> !text_before(b.tool@, a.tool@)
        }),
{
    let n = catalog.len() as int;
    let hits = ordered_hits(options, catalog, n);
    lemma_hits_in_range(options, catalog, n);
    lemma_hits_ordered(options, catalog, n);
    assert(shows(page.matches@[i], options, catalog[hits[options.offset + i]]));
    assert(shows(page.matches@[j], options, catalog[hits[options.offset + j]]));
    assert(in_order(options, catalog, hits));
}

/// What is found and left off a page ranks no higher than what is on it, where
/// the page starts at the first match.
pub proof fn law_first_pages_show_the_best(
    page: SearchPage,
    options: SearchOptions,
    catalog: Seq<CatalogEntry>,
    k: int,
)
    requires
        is_page(page, options, catalog),
        options.offset == 0,
        0 <= k < catalog.len(),
        of_server(catalog[k], options.server),
        answers_query(catalog[k], options.query),
    ensures
        (exists|i: int|
            0 <= i < page.matches@.len() && shows(#[trigger] page.matches@[i], options, catalog[k]))
            || page.has_more && forall|i: int|
            0 <= i < page.matches@.len() ==> (#[trigger] page.matches@[i]).score >= entry_score(
                options,
                catalog[k],
            ),
{
    let n = catalog.len() as int;
    let hits = ordered_hits(options, catalog, n);
    lemma_hits_in_range(options, catalog, n);
    lemma_hits_ordered(options, catalog, n);
    law_what_is_found(options, catalog[k]);
    assert(hits.contains(k));
    let p = choose|p: int| 0 <= p < hits.len() && hits[p] == k;
    if p < page.matches@.len() {
        assert(shows(page.matches@[p], options, catalog[hits[options.offset + p]]));
    } else {
        assert forall|i: int| 0 <= i < page.matches@.len() implies (
        #[trigger] page.matches@[i]).score >= entry_score(options, catalog[k]) by {
            assert(shows(page.matches@[i], options, catalog[hits[options.offset + i]]));
            assert(!comes_first(options, catalog[hits[p]], catalog[hits[i]]));
        }
    }
}

/// How much of what was found a page shows: as many matches as were asked for,
/// up to fifty, or up to five with schemas, as far as there are so many from
/// the offset on. It tells whether any are left.
pub proof fn law_pages_are_full(
    page: SearchPage,
    options: SearchOptions,
    catalog: Seq<CatalogEntry>,
)
    requires
        is_page(page, options, catalog),
    ensures
        ({
            let most: int = if options.include_schema {
                5
            } else {
                50
            };
            let limit = if options.limit <= most {
                options.limit as int
            } else {
                most
            };
            let left = page.total - options.offset;
            &&& page.limit == limit
            &&& page.offset == options.offset
            &&& left <= 0 ==> page.matches@.len() == 0 && !page.has_more
            &&& 0 < left <= limit ==> page.matches@.len() == left && !page.has_more
            &&& left > limit ==> page.matches@.len() == limit && page.has_more
        }),
{
}

// ---------------------------------------------------------------------------
// Scores
// ---------------------------------------------------------------------------

/// What a score says: five million and more for the name itself, four for the
/// server's name, three for the query inside one of them, two for the query
/// inside the description, one for single words.
pub proof fn law_scores_tell_the_fit(
    query: Seq<char>,
    server: Seq<char>,
    name: Seq<char>,
    description: Seq<char>,
)
    ensures
        ({
            let points = score(query, server, name, description);
            let inside = has_infix(plain(name), query) || has_infix(plain(server), query);
            let named = plain(name) == query;
            let hosted = plain(server) == query;
            let told = has_infix(plain(description), query);
            &&& points >= 5_000_000 <==> named
            &&& 4_000_000 <= points < 5_000_000 <==> !named && hosted
            &&& 3_000_000 <= points < 4_000_000 <==> !named && !hosted && inside
            &&& 2_000_000 <= points < 3_000_000 <==> !named && !hosted && !inside && told
            &&& points < 6_000_000
        }),
{
}

/// Within one fit, each word of the query counts four in the name, three in
/// the server's name and one in the description, up to a million less one.
pub proof fn law_words_add_points(
    query: Seq<char>,
    server: Seq<char>,
    name: Seq<char>,
    description: Seq<char>,
)
    ensures
        ({
            let terms = words_spec(query);
            let sum = 4 * terms.filter(|t: Seq<char>| has_infix(plain(name), t)).len() + 3
                * terms.filter(|t: Seq<char>| has_infix(plain(server), t)).len() + terms.filter(
                |t: Seq<char>| has_infix(plain(description), t),
            ).len();
            let over = score(query, server, name, description) % 1_000_000;
            &&& sum < 1_000_000 ==> over == sum
            &&& sum >= 1_000_000 ==> over == 999_999
        }),
{
    let terms = words_spec(query);
    lemma_words_in(terms, plain(name));
    lemma_words_in(terms, plain(server));
    lemma_words_in(terms, plain(description));
    let points = word_points(query, server, name, description) as int;
    let step = grade(query, server, name, description) as int;
    assert((1_000_000 * step + points) % 1_000_000 == points) by (nonlinear_arith)
        requires
            0 <= points < 1_000_000,
            0 <= step,
    ;
}

/// A match's score is that of its tool for the query. Without a query it is
/// zero.
pub proof fn law_matches_carry_their_score(
    page: SearchPage,
    options: SearchOptions,
    catalog: Seq<CatalogEntry>,
    i: int,
)
    requires
        is_page(page, options, catalog),
        0 <= i < page.matches@.len(),
    ensures
        ({
            let m = page.matches@[i];
            let told = match m.description {
                Some(text) => text@,
                None => Seq::empty(),
            };
            &&& options.query is Some && words_spec(plain(options.query->0@)).len() > 0 ==> m.score
                == score(plain(options.query->0@), m.server@, m.tool@, told)
            &&& options.query is None || words_spec(plain(options.query->0@)).len() == 0 ==> m.score
                == 0
        }),
{
    let hits = ordered_hits(options, catalog, catalog.len() as int);
    assert(shows(page.matches@[i], options, catalog[hits[options.offset + i]]));
    if options.query is Some {
        lemma_some_word(options.query->0@);
    }
}

proof fn lemma_replaced(s: Seq<char>, c: char)
    ensures
        replace_spec(s, c, " "@) == s.map_values(
            |x: char|
                if x == c {
                    ' '
                } else {
                    x
                },
        ),
    decreases s.len(),
{
    reveal_strlit(" ");
    let f = |x: char|
        if x == c {
            ' '
        } else {
            x
        };
    if s.len() > 0 {
        lemma_replaced(s.drop_last(), c);
        assert(replace_spec(s, c, " "@) =~= s.map_values(f));
    } else {
        assert(s =~= s.map_values(f));
    }
}

/// Texts whose characters differ only in case, or in which of a space, an
/// underscore and a hyphen stands between words, have one plain form. A text of
/// small letters with single spaces between them is its own.
pub proof fn law_plain_forms(a: Seq<char>, b: Seq<char>)
    requires
        a.len() == b.len(),
        forall|k: int|
            0 <= k < a.len() ==> lower_char(#[trigger] a[k]) == lower_char(b[k]) || (a[k] == '_'
                || a[k] == '-' || a[k] == ' ') && (b[k] == '_' || b[k] == '-' || b[k] == ' '),
    ensures
        plain(a) == plain(b),
        (forall|k: int|
            0 <= k < a.len() ==> lower_char(#[trigger] a[k]) == a[k] && a[k] != '_' && a[k] != '-')
            ==> plain(a) == trim_spec(a),
{
    lemma_replaced(lower(a), '_');
    lemma_replaced(lower(b), '_');
    let x = replace_spec(lower(a), '_', " "@);
    let y = replace_spec(lower(b), '_', " "@);
    lemma_replaced(x, '-');
    lemma_replaced(y, '-');
    assert(replace_spec(x, '-', " "@) =~= replace_spec(y, '-', " "@));
    if forall|k: int|
        0 <= k < a.len() ==> lower_char(#[trigger] a[k]) == a[k] && a[k] != '_' && a[k] != '-' {
        assert(replace_spec(x, '-', " "@) =~= a);
    }
}

/// Names stand in the order of their characters: of two different texts one
/// comes first, a beginning comes before what goes on from it, and otherwise
/// the first character in which they differ decides.
pub proof fn law_names_are_ordered(a: Seq<char>, b: Seq<char>, common: Seq<char>)
    ensures
        a != b ==> text_before(a, b) != text_before(b, a),
        !text_before(a, a),
        b.len() > 0 ==> text_before(common, common + b),
        a.len() > 0 && b.len() > 0 && a[0] != b[0] ==> (text_before(common + a, common + b)
            <==> a[0] < b[0]),
{
    lemma_text_order(a, b, a);
    lemma_common_beginning(common, a, b);
    lemma_common_beginning(common, Seq::<char>::empty(), b);
    assert(common + Seq::<char>::empty() =~= common);
}

proof fn lemma_common_beginning(common: Seq<char>, a: Seq<char>, b: Seq<char>)
    ensures
        text_before(common + a, common + b) == text_before(a, b),
    decreases common.len(),
{
    if common.len() == 0 {
        assert(common + a =~= a);
        assert(common + b =~= b);
    } else {
        lemma_common_beginning(common.drop_first(), a, b);
        assert((common + a).drop_first() =~= common.drop_first() + a);
        assert((common + b).drop_first() =~= common.drop_first() + b);
    }
}

} // verus!
