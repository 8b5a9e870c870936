//! Deferred discovery of tools: a ranked, bounded page of a large catalog.

use vstd::prelude::*;

use crate::text::{
    chars_of, contains, copy_opt, has_infix, lower, opt_view, replace, replace_spec, same_text,
    to_lower, trim, trim_spec, views, words, words_spec,
};
use crate::translate::Json;

verus! {

/// How many matches a page has unless it is asked for otherwise.
pub const DEFAULT_LIMIT: usize = 10;

/// How many matches a page has at most.
pub const MAX_LIMIT: usize = 50;

/// How many matches a page has at most where it shows the tools' schemas.
pub const MAX_SCHEMA_LIMIT: usize = 5;

/// A tool as its server describes it.
#[derive(Debug)]
pub struct McpToolDef {
    pub name: String,
    pub description: Option<String>,
    pub input_schema: Json,
}

/// A tool of the catalog, with the server that offers it.
#[derive(Debug)]
pub struct CatalogEntry {
    pub server: String,
    pub tool: McpToolDef,
}

/// What is looked for, and which page of it.
#[derive(Debug)]
pub struct SearchOptions {
    pub query: Option<String>,
    pub server: Option<String>,
    pub limit: usize,
    pub offset: usize,
    pub include_schema: bool,
}

impl Default for SearchOptions {
    fn default() -> (res: Self)
        ensures
            res.query is None,
            res.server is None,
            res.limit == DEFAULT_LIMIT,
            res.offset == 0,
            !res.include_schema,
    {
        SearchOptions {
            query: None,
            server: None,
            limit: DEFAULT_LIMIT,
            offset: 0,
            include_schema: false,
        }
    }
}

/// A tool that was found.
#[derive(Debug)]
pub struct SearchMatch<'a> {
    pub server: String,
    pub tool: String,
    pub description: Option<String>,
    pub score: u64,
    pub input_schema: Option<&'a Json>,
}

/// One page of what was found.
#[derive(Debug)]
pub struct SearchPage<'a> {
    pub matches: Vec<SearchMatch<'a>>,
    pub total: usize,
    pub offset: usize,
    pub limit: usize,
    pub has_more: bool,
}

// ---------------------------------------------------------------------------
// Scores
// ---------------------------------------------------------------------------

/// A name or a query in the form in which they are compared: small letters,
/// without white space around it, and with spaces for underscores and hyphens.
pub open spec fn plain(text: Seq<char>) -> Seq<char> {
    trim_spec(replace_spec(replace_spec(lower(text), '_', " "@), '-', " "@))
}

fn plain_form(text: &str) -> (res: String)
    ensures
        res@ == plain(text@),
{
    let small = to_lower(text);
    let spaced = replace(small.as_str(), '_', " ");
    trim(replace(spaced.as_str(), '-', " ").as_str())
}

/// How many of these words stand in the text.
pub open spec fn words_in(terms: Seq<Seq<char>>, text: Seq<char>) -> nat
    decreases terms.len(),
{
    if terms.len() == 0 {
        0
    } else {
        words_in(terms.drop_last(), text) + if has_infix(text, terms.last()) {
            1nat
        } else {
            0nat
        }
    }
}

fn count_words_in(terms: &Vec<String>, text: &str) -> (res: u64)
    ensures
        res == words_in(views(terms@), text@),
        res <= terms@.len(),
{
    let ghost all = views(terms@);
    let mut n: u64 = 0;
    let mut i: usize = 0;
    assert(all.take(0) =~= Seq::<Seq<char>>::empty());
    while i < terms.len()
        invariant
            n <= i <= terms.len(),
            all == views(terms@),
            n == words_in(all.take(i as int), text@),
        decreases terms@.len() - i,
    {
        assert(all.take(i + 1).drop_last() =~= all.take(i as int));
        assert(all.take(i + 1).last() == terms@[i as int]@);
        if contains(text, terms[i].as_str()) {
            n += 1;
        }
        i += 1;
    }
    assert(all.take(i as int) =~= all);
    n
}

/// How well a tool fits: the name itself, the server's name, the query inside
/// one of them, the query inside the description, or single words of it.
pub open spec fn grade(
    query: Seq<char>,
    server: Seq<char>,
    name: Seq<char>,
    description: Seq<char>,
) -> nat {
    if plain(name) == query {
        5
    } else if plain(server) == query {
        4
    } else if has_infix(plain(name), query) || has_infix(plain(server), query) {
        3
    } else if has_infix(plain(description), query) {
        2
    } else if word_points(query, server, name, description) > 0 {
        1
    } else {
        0
    }
}

/// How often a word of the query stands in the name, the server or the
/// description of a tool. A word in a name counts for more. The sum is held
/// below one step of the grade.
pub open spec fn word_points(
    query: Seq<char>,
    server: Seq<char>,
    name: Seq<char>,
    description: Seq<char>,
) -> nat {
    let terms = words_spec(query);
    let sum = 4 * words_in(terms, plain(name)) + 3 * words_in(terms, plain(server)) + words_in(
        terms,
        plain(description),
    );
    if sum <= 999_999 {
        sum
    } else {
        999_999
    }
}

/// A tool's score for a query. A better grade always scores more.
pub open spec fn score(
    query: Seq<char>,
    server: Seq<char>,
    name: Seq<char>,
    description: Seq<char>,
) -> nat {
    1_000_000 * grade(query, server, name, description) + word_points(
        query,
        server,
        name,
        description,
    )
}

pub open spec fn description_of(entry: CatalogEntry) -> Seq<char> {
    match entry.tool.description {
        Some(text) => text@,
        None => Seq::empty(),
    }
}

/// What is looked for, in its plain form. A blank query looks for everything.
pub open spec fn query_of(options: SearchOptions) -> Option<Seq<char>> {
    match options.query {
        Some(text) => if plain(text@).len() > 0 {
            Some(plain(text@))
        } else {
            None
        },
        None => None,
    }
}

/// The score of a catalog entry. Without a query all score the same.
pub open spec fn entry_score(options: SearchOptions, entry: CatalogEntry) -> nat {
    match query_of(options) {
        Some(query) => score(query, entry.server@, entry.tool.name@, description_of(entry)),
        None => 0,
    }
}

/// Whether an entry is found: it is of the server that was asked for, and
/// something of the query stands in it.
pub open spec fn is_hit(options: SearchOptions, entry: CatalogEntry) -> bool {
    &&& options.server is Some ==> entry.server@ == options.server->0@
    &&& query_of(options) is Some ==> entry_score(options, entry) > 0
}

fn wanted_query(options: &SearchOptions) -> (res: Option<String>)
    ensures
        opt_view(res) == query_of(*options),
{
    match &options.query {
        Some(text) => {
            let form = plain_form(text.as_str());
            if form.as_str().is_empty() {
                None
            } else {
                Some(form)
            }
        },
        None => None,
    }
}

fn score_entry(query: &str, entry: &CatalogEntry) -> (res: u64)
    ensures
        res == score(query@, entry.server@, entry.tool.name@, description_of(*entry)),
{
    let name = plain_form(entry.tool.name.as_str());
    let server = plain_form(entry.server.as_str());
    let description = match &entry.tool.description {
        Some(text) => plain_form(text.as_str()),
        None => {
            let empty = String::new();
            assert(empty@ =~= Seq::<char>::empty());
            plain_form(empty.as_str())
        },
    };
    let terms = words(query);
    let sum: u128 = 4 * count_words_in(&terms, name.as_str()) as u128 + 3 * count_words_in(
        &terms,
        server.as_str(),
    ) as u128 + count_words_in(&terms, description.as_str()) as u128;
    let points: u64 = if sum <= 999_999 {
        sum as u64
    } else {
        999_999
    };
    let step: u64 = if same_text(name.as_str(), query) {
        5
    } else if same_text(server.as_str(), query) {
        4
    } else if contains(name.as_str(), query) || contains(server.as_str(), query) {
        3
    } else if contains(description.as_str(), query) {
        2
    } else if points > 0 {
        1
    } else {
        0
    };
    1_000_000 * step + points
}

// ---------------------------------------------------------------------------
// Order
// ---------------------------------------------------------------------------

/// Whether a text stands before another one in the order of their characters.
pub open spec fn text_before(a: Seq<char>, b: Seq<char>) -> bool
    decreases a.len(),
{
    if b.len() == 0 {
        false
    } else if a.len() == 0 {
        true
    } else if a[0] != b[0] {
        a[0] < b[0]
    } else {
        text_before(a.drop_first(), b.drop_first())
    }
}

fn stands_before(a: &str, b: &str) -> (res: bool)
    ensures
        res == text_before(a@, b@),
{
    let x = chars_of(a);
    let y = chars_of(b);
    let mut i: usize = 0;
    assert(a@.skip(0) =~= a@);
    assert(b@.skip(0) =~= b@);
    while i < x.len() && i < y.len()
        invariant
            x@ == a@,
            y@ == b@,
            i <= x@.len(),
            i <= y@.len(),
            text_before(a@, b@) == text_before(a@.skip(i as int), b@.skip(i as int)),
        decreases x@.len() - i,
    {
        assert(a@.skip(i as int)[0] == x@[i as int]);
        assert(b@.skip(i as int)[0] == y@[i as int]);
        assert(a@.skip(i as int).drop_first() =~= a@.skip(i + 1));
        assert(b@.skip(i as int).drop_first() =~= b@.skip(i + 1));
        if x[i] != y[i] {
            return x[i] < y[i];
        }
        i += 1;
    }
    i < y.len()
}

/// Whether an entry comes before another one: by falling score, then by server,
/// then by the tool's name.
pub open spec fn comes_first(options: SearchOptions, a: CatalogEntry, b: CatalogEntry) -> bool {
    ||| entry_score(options, a) > entry_score(options, b)
    ||| entry_score(options, a) == entry_score(options, b) && {
        ||| text_before(a.server@, b.server@)
        ||| a.server@ == b.server@ && text_before(a.tool.name@, b.tool.name@)
    }
}

/// Where an entry goes in an ordered list: behind every one that it does not
/// come before.
pub open spec fn place(
    options: SearchOptions,
    catalog: Seq<CatalogEntry>,
    list: Seq<int>,
    entry: CatalogEntry,
) -> int
    decreases list.len(),
{
    if list.len() == 0 || !comes_first(options, entry, catalog[list.last()]) {
        list.len() as int
    } else {
        place(options, catalog, list.drop_last(), entry)
    }
}

/// The positions of the first `n` catalog entries that are found, in order.
pub open spec fn ordered_hits(
    options: SearchOptions,
    catalog: Seq<CatalogEntry>,
    n: int,
) -> Seq<int>
    decreases n,
{
    if n <= 0 {
        Seq::empty()
    } else {
        let before = ordered_hits(options, catalog, n - 1);
        if is_hit(options, catalog[n - 1]) {
            before.insert(place(options, catalog, before, catalog[n - 1]), n - 1)
        } else {
            before
        }
    }
}

/// The number of matches that a page may have.
pub open spec fn page_limit(options: SearchOptions) -> nat {
    let most = if options.include_schema {
        MAX_SCHEMA_LIMIT as nat
    } else {
        MAX_LIMIT as nat
    };
    if options.limit <= most {
        options.limit as nat
    } else {
        most
    }
}

/// The first `n` of the page's positions in the list of `total` hits.
pub open spec fn page_end(total: nat, offset: nat, limit: nat) -> nat {
    if offset >= total {
        offset
    } else if offset + limit <= total {
        offset + limit
    } else {
        total
    }
}

/// Whether a match shows this entry.
pub open spec fn shows(m: SearchMatch, options: SearchOptions, entry: CatalogEntry) -> bool {
    &&& m.server@ == entry.server@
    &&& m.tool@ == entry.tool.name@
    &&& opt_view(m.description) == opt_view(entry.tool.description)
    &&& m.score == entry_score(options, entry)
    &&& options.include_schema ==> m.input_schema is Some && *m.input_schema->0
        == entry.tool.input_schema
    &&& !options.include_schema ==> m.input_schema is None
}

/// Whether the page is the right one: so many entries were found, and it shows
/// those from the offset on, as many as it may.
pub open spec fn is_page(
    page: SearchPage,
    options: SearchOptions,
    catalog: Seq<CatalogEntry>,
) -> bool {
    let hits = ordered_hits(options, catalog, catalog.len() as int);
    let limit = page_limit(options);
    let end = page_end(hits.len(), options.offset as nat, limit);
    &&& page.total == hits.len()
    &&& page.offset == options.offset
    &&& page.limit == limit
    &&& page.has_more == (end < hits.len())
    &&& page.matches@.len() == end - options.offset
    &&& forall|i: int|
        0 <= i < page.matches@.len() ==> shows(
            #[trigger] page.matches@[i],
            options,
            catalog[hits[options.offset + i]],
        )
}

fn comes_before(
    a: &CatalogEntry,
    a_score: u64,
    b: &CatalogEntry,
    b_score: u64,
    Ghost(options): Ghost<SearchOptions>,
) -> (res: bool)
    requires
        a_score == entry_score(options, *a),
        b_score == entry_score(options, *b),
    ensures
        res == comes_first(options, *a, *b),
{
    if a_score != b_score {
        return a_score > b_score;
    }
    if stands_before(a.server.as_str(), b.server.as_str()) {
        return true;
    }
    same_text(a.server.as_str(), b.server.as_str()) && stands_before(
        a.tool.name.as_str(),
        b.tool.name.as_str(),
    )
}

pub(crate) proof fn lemma_hits_in_range(options: SearchOptions, catalog: Seq<CatalogEntry>, n: int)
    requires
        0 <= n <= catalog.len(),
    ensures
        forall|k: int|
            0 <= k < ordered_hits(options, catalog, n).len() ==> 0 <= #[trigger] ordered_hits(
                options,
                catalog,
                n,
            )[k] < n,
        ordered_hits(options, catalog, n).len() <= n,
    decreases n,
{
    if n > 0 {
        lemma_hits_in_range(options, catalog, n - 1);
        let before = ordered_hits(options, catalog, n - 1);
        let after = ordered_hits(options, catalog, n);
        lemma_place(options, catalog, before, catalog[n - 1]);
        let at = place(options, catalog, before, catalog[n - 1]);
        assert forall|k: int| 0 <= k < after.len() implies 0 <= #[trigger] after[k] < n by {
            if is_hit(options, catalog[n - 1]) {
                if k < at {
                    assert(after[k] == before[k]);
                } else if k > at {
                    assert(after[k] == before[k - 1]);
                }
            } else {
                assert(after[k] == before[k]);
            }
        }
    }
}

pub(crate) proof fn lemma_place(
    options: SearchOptions,
    catalog: Seq<CatalogEntry>,
    list: Seq<int>,
    entry: CatalogEntry,
)
    ensures
        0 <= place(options, catalog, list, entry) <= list.len(),
        forall|k: int|
            place(options, catalog, list, entry) <= k < list.len() ==> comes_first(
                options,
                entry,
                catalog[#[trigger] list[k]],
            ),
        place(options, catalog, list, entry) > 0 ==> !comes_first(
            options,
            entry,
            catalog[list[place(options, catalog, list, entry) - 1]],
        ),
    decreases list.len(),
{
    if list.len() > 0 && comes_first(options, entry, catalog[list.last()]) {
        lemma_place(options, catalog, list.drop_last(), entry);
        let at = place(options, catalog, list, entry);
        assert forall|k: int| at <= k < list.len() implies comes_first(
            options,
            entry,
            catalog[#[trigger] list[k]],
        ) by {
            if k < list.len() - 1 {
                assert(list.drop_last()[k] == list[k]);
            }
        }
    }
}

pub open spec fn positions(v: Seq<usize>) -> Seq<int> {
    v.map_values(|i: usize| i as int)
}

/// Whether a position lies in the catalog, and this is its entry's score.
pub open spec fn scores_entry(
    options: SearchOptions,
    catalog: Seq<CatalogEntry>,
    position: usize,
    points: u64,
) -> bool {
    position < catalog.len() && points == entry_score(options, catalog[position as int])
}

/// Whether these are the scores of the entries at these positions.
pub open spec fn scores_all(
    options: SearchOptions,
    catalog: Seq<CatalogEntry>,
    order: Seq<usize>,
    points: Seq<u64>,
) -> bool {
    points.len() == order.len() && forall|k: int|
        0 <= k < order.len() ==> scores_entry(options, catalog, #[trigger] order[k], points[k])
}

/// The positions of the entries that are found, in order, with their scores.
fn find_hits(catalog: &Vec<CatalogEntry>, options: &SearchOptions) -> (res: (
    Vec<usize>,
    Vec<u64>,
))
    ensures
        positions(res.0@) == ordered_hits(*options, catalog@, catalog@.len() as int),
        scores_all(*options, catalog@, res.0@, res.1@),
{
    let query = wanted_query(options);
    let mut order: Vec<usize> = Vec::new();
    let mut points: Vec<u64> = Vec::new();
    let mut i: usize = 0;
    assert(positions(order@) =~= ordered_hits(*options, catalog@, 0));
    while i < catalog.len()
        invariant
            i <= catalog@.len(),
            opt_view(query) == query_of(*options),
            positions(order@) == ordered_hits(*options, catalog@, i as int),
            scores_all(*options, catalog@, order@, points@),
        decreases catalog@.len() - i,
    {
        let entry = &catalog[i];
        let ghost before = positions(order@);
        let ghost old_order = order@;
        let ghost old_points = points@;
        let of_server = match &options.server {
            Some(server) => same_text(entry.server.as_str(), server.as_str()),
            None => true,
        };
        let own: u64 = match &query {
            Some(query) => score_entry(query.as_str(), entry),
            None => 0,
        };
        if of_server && (query.is_none() || own > 0) {
            let mut at: usize = order.len();
            assert(before.take(at as int) =~= before);
            loop
                invariant
                    i < catalog@.len(),
                    entry == catalog@[i as int],
                    own == entry_score(*options, *entry),
                    order@ == old_order,
                    points@ == old_points,
                    before == positions(order@),
                    scores_all(*options, catalog@, order@, points@),
                    at <= order@.len(),
                    place(*options, catalog@, before, *entry) == place(
                        *options,
                        catalog@,
                        before.take(at as int),
                        *entry,
                    ),
                ensures
                    at == place(*options, catalog@, before, *entry),
                decreases at,
            {
                if at == 0 {
                    break;
                }
                assert(before.take(at as int).last() == order@[at - 1] as int);
                assert(scores_entry(*options, catalog@, order@[at - 1], points@[at - 1]));
                if !comes_before(
                    entry,
                    own,
                    &catalog[order[at - 1]],
                    points[at - 1],
                    Ghost(*options),
                ) {
                    break;
                }
                assert(before.take(at as int).drop_last() =~= before.take(at - 1));
                at -= 1;
            }
            order.insert(at, i);
            points.insert(at, own);
            assert(positions(order@) =~= before.insert(at as int, i as int));
            assert forall|k: int| 0 <= k < order@.len() implies scores_entry(
                *options,
                catalog@,
                #[trigger] order@[k],
                points@[k],
            ) by {
                if k < at {
                    assert(scores_entry(*options, catalog@, old_order[k], old_points[k]));
                } else if k > at {
                    assert(scores_entry(*options, catalog@, old_order[k - 1], old_points[k - 1]));
                }
            }
        }
        i += 1;
    }
    (order, points)
}

/// Finds tools in the catalog.
pub fn search_tools<'a>(catalog: &'a Vec<CatalogEntry>, options: &SearchOptions) -> (page:
    SearchPage<'a>)
    ensures
        is_page(page, *options, catalog@),
{
    let (order, points) = find_hits(catalog, options);
    let ghost hits = ordered_hits(*options, catalog@, catalog@.len() as int);
    assert(hits.len() == order@.len());
    assert(forall|k: int| 0 <= k < order@.len() ==> hits[k] == #[trigger] order@[k] as int);
    let most = if options.include_schema {
        MAX_SCHEMA_LIMIT
    } else {
        MAX_LIMIT
    };
    let limit = if options.limit <= most {
        options.limit
    } else {
        most
    };
    let total = order.len();
    let offset = options.offset;
    let end = if offset >= total {
        offset
    } else if limit <= total - offset {
        offset + limit
    } else {
        total
    };
    let mut matches: Vec<SearchMatch<'a>> = Vec::new();
    let mut i: usize = offset;
    while i < end
        invariant
            offset <= i <= end,
            offset < total ==> end <= total,
            offset >= total ==> end == offset,
            total == order@.len(),
            offset == options.offset,
            points@.len() == order@.len(),
            hits.len() == order@.len(),
            forall|k: int| 0 <= k < order@.len() ==> hits[k] == #[trigger] order@[k] as int,
            scores_all(*options, catalog@, order@, points@),
            matches@.len() == i - offset,
            forall|k: int|
                0 <= k < matches@.len() ==> shows(
                    #[trigger] matches@[k],
                    *options,
                    catalog@[hits[offset + k]],
                ),
        decreases end - i,
    {
        assert(scores_entry(*options, catalog@, order@[i as int], points@[i as int]));
        let entry = &catalog[order[i]];
        let found = SearchMatch {
            server: entry.server.clone(),
            tool: entry.tool.name.clone(),
            description: copy_opt(&entry.tool.description),
            score: points[i],
            input_schema: if options.include_schema {
                Some(&entry.tool.input_schema)
            } else {
                None
            },
        };
        matches.push(found);
        i += 1;
    }
    SearchPage { matches, total, offset, limit, has_more: end < total }
}

// ---------------------------------------------------------------------------
// Laws
// ---------------------------------------------------------------------------

/// A page never has more matches than allowed: fifty, and five where schemas
/// are shown. Schemas are shown only where they were asked for.
pub proof fn law_pages_are_bounded(
    page: SearchPage,
    options: SearchOptions,
    catalog: Seq<CatalogEntry>,
)
    requires
        is_page(page, options, catalog),
    ensures
        page.matches@.len() <= page.limit <= MAX_LIMIT,
        options.include_schema ==> page.limit <= MAX_SCHEMA_LIMIT,
        page.limit <= options.limit,
        forall|i: int|
            0 <= i < page.matches@.len() ==> ((#[trigger] page.matches@[i]).input_schema is Some
                <==> options.include_schema),
{
}

/// A tool whose name is the query scores above every tool whose name is not,
/// and one whose server's name is the query above every tool in which the query
/// or its words merely occur.
pub proof fn law_exact_names_score_highest(
    query: Seq<char>,
    server: Seq<char>,
    name: Seq<char>,
    description: Seq<char>,
    other_server: Seq<char>,
    other_name: Seq<char>,
    other_description: Seq<char>,
)
    ensures
        plain(name) == query && plain(other_name) != query ==> score(
            query,
            server,
            name,
            description,
        ) > score(query, other_server, other_name, other_description),
        plain(server) == query && plain(other_name) != query && plain(other_server) != query
            ==> score(query, server, name, description) > score(
            query,
            other_server,
            other_name,
            other_description,
        ),
{
}

pub(crate) proof fn lemma_text_order(a: Seq<char>, b: Seq<char>, c: Seq<char>)
    ensures
        !text_before(a, a),
        text_before(a, b) && text_before(b, c) ==> text_before(a, c),
        text_before(a, b) || text_before(b, a) || a == b,
        !(text_before(a, b) && text_before(b, a)),
    decreases a.len() + b.len() + c.len(),
{
    if a.len() > 0 {
        if b.len() > 0 && c.len() > 0 {
            lemma_text_order(a.drop_first(), b.drop_first(), c.drop_first());
        } else if b.len() > 0 {
            lemma_text_order(a.drop_first(), b.drop_first(), c);
        } else {
            lemma_text_order(a.drop_first(), b, c);
        }
        if b.len() > 0 && a[0] == b[0] && a.drop_first() == b.drop_first() {
            assert(a =~= seq![a[0]] + a.drop_first());
            assert(b =~= seq![b[0]] + b.drop_first());
        }
    } else if b.len() == 0 {
        assert(a =~= b);
    }
}

/// Whether no entry stands behind one that it should come before.
pub open spec fn in_order(
    options: SearchOptions,
    catalog: Seq<CatalogEntry>,
    hits: Seq<int>,
) -> bool {
    forall|i: int, j: int|
        #![trigger hits[i], hits[j]]
        0 <= i < j < hits.len() ==> !comes_first(options, catalog[hits[j]], catalog[hits[i]])
}

proof fn lemma_first_is_order(
    options: SearchOptions,
    a: CatalogEntry,
    b: CatalogEntry,
    c: CatalogEntry,
)
    ensures
        comes_first(options, a, b) && comes_first(options, b, c) ==> comes_first(options, a, c),
        comes_first(options, a, b) ==> !comes_first(options, b, a),
        !comes_first(options, b, a) && !comes_first(options, c, b) ==> !comes_first(options, c, a),
{
    lemma_text_order(a.server@, b.server@, c.server@);
    lemma_text_order(a.tool.name@, b.tool.name@, c.tool.name@);
    lemma_text_order(c.server@, b.server@, a.server@);
    lemma_text_order(c.tool.name@, b.tool.name@, a.tool.name@);
    lemma_text_order(b.server@, c.server@, a.server@);
    lemma_text_order(b.tool.name@, c.tool.name@, a.tool.name@);
}

pub(crate) proof fn lemma_hits_ordered(options: SearchOptions, catalog: Seq<CatalogEntry>, n: int)
    requires
        0 <= n <= catalog.len(),
    ensures
        in_order(options, catalog, ordered_hits(options, catalog, n)),
        forall|k: int|
            #![trigger catalog[k]]
            0 <= k < n && is_hit(options, catalog[k]) ==> ordered_hits(
                options,
                catalog,
                n,
            ).contains(k),
        ordered_hits(options, catalog, n).no_duplicates(),
    decreases n,
{
    if n > 0 {
        lemma_hits_ordered(options, catalog, n - 1);
        lemma_hits_in_range(options, catalog, n - 1);
        let before = ordered_hits(options, catalog, n - 1);
        let after = ordered_hits(options, catalog, n);
        let entry = catalog[n - 1];
        let at = place(options, catalog, before, entry);
        lemma_place(options, catalog, before, entry);
        if is_hit(options, entry) {
            assert forall|i: int, j: int|
                #![trigger after[i], after[j]]
                0 <= i < j < after.len() implies !comes_first(
                options,
                catalog[after[j]],
                catalog[after[i]],
            ) by {
                let a = if i < at { i } else { i - 1 };
                let b = if j < at { j } else { j - 1 };
                if i != at {
                    assert(after[i] == before[a]);
                }
                if j != at {
                    assert(after[j] == before[b]);
                }
                if j == at {
                    assert(!comes_first(options, entry, catalog[before[at - 1]]));
                    if i < at - 1 {
                        assert(!comes_first(
                            options,
                            catalog[before[at - 1]],
                            catalog[before[i]],
                        ));
                        lemma_first_is_order(
                            options,
                            catalog[before[i]],
                            catalog[before[at - 1]],
                            entry,
                        );
                    }
                }
                if i == at {
                    assert(comes_first(options, entry, catalog[before[b]]));
                    lemma_first_is_order(options, entry, catalog[before[b]], entry);
                }
            }
            assert forall|k: int|
                #![trigger catalog[k]]
                0 <= k < n && is_hit(options, catalog[k]) implies after.contains(k) by {
                if k == n - 1 {
                    assert(after[at] == k);
                } else {
                    assert(before.contains(k));
                    let p = choose|p: int| 0 <= p < before.len() && before[p] == k;
                    if p < at {
                        assert(after[p] == k);
                    } else {
                        assert(after[p + 1] == k);
                    }
                }
            }
            assert forall|i: int, j: int|
                0 <= i < after.len() && 0 <= j < after.len() && i != j implies after[i]
                != after[j] by {
                let a = if i < at { i } else { i - 1 };
                let b = if j < at { j } else { j - 1 };
                if i != at {
                    assert(after[i] == before[a]);
                }
                if j != at {
                    assert(after[j] == before[b]);
                }
            }
        }
    }
}

/// The hits are ordered, each once, and none is left out. The order depends on
/// nothing but the query and the catalog, so that pages never overlap.
pub proof fn law_hits_are_ordered_and_complete(
    options: SearchOptions,
    catalog: Seq<CatalogEntry>,
)
    ensures
        ({
            let hits = ordered_hits(options, catalog, catalog.len() as int);
            &&& in_order(options, catalog, hits)
            &&& hits.no_duplicates()
            &&& forall|k: int|
                #![trigger catalog[k]]
                0 <= k < catalog.len() && is_hit(options, catalog[k]) ==> hits.contains(k)
        }),
{
    lemma_hits_ordered(options, catalog, catalog.len() as int);
}

proof fn lemma_hits_same(a: SearchOptions, b: SearchOptions, catalog: Seq<CatalogEntry>, n: int)
    requires
        opt_view(a.query) == opt_view(b.query),
        opt_view(a.server) == opt_view(b.server),
        n <= catalog.len(),
    ensures
        ordered_hits(a, catalog, n) == ordered_hits(b, catalog, n),
    decreases n,
{
    if n > 0 {
        lemma_hits_same(a, b, catalog, n - 1);
        lemma_place_same(a, b, catalog, ordered_hits(a, catalog, n - 1), catalog[n - 1]);
    }
}

proof fn lemma_place_same(
    a: SearchOptions,
    b: SearchOptions,
    catalog: Seq<CatalogEntry>,
    list: Seq<int>,
    entry: CatalogEntry,
)
    requires
        opt_view(a.query) == opt_view(b.query),
    ensures
        place(a, catalog, list, entry) == place(b, catalog, list, entry),
    decreases list.len(),
{
    if list.len() > 0 {
        lemma_place_same(a, b, catalog, list.drop_last(), entry);
    }
}

/// Pages fit together: the page that starts where another one ends goes on with
/// the next hit of the same order.
pub proof fn law_pages_fit_together(
    first: SearchPage,
    second: SearchPage,
    options: SearchOptions,
    next: SearchOptions,
    catalog: Seq<CatalogEntry>,
    i: int,
)
    requires
        is_page(first, options, catalog),
        is_page(second, next, catalog),
        opt_view(next.query) == opt_view(options.query),
        opt_view(next.server) == opt_view(options.server),
        next.offset == options.offset + first.matches@.len(),
        0 <= i < second.matches@.len(),
    ensures
        second.total == first.total,
        first.has_more,
        ({
            let hits = ordered_hits(options, catalog, catalog.len() as int);
            shows(
                second.matches@[i],
                next,
                catalog[hits[options.offset + first.matches@.len() + i]],
            )
        }),
{
    lemma_hits_same(options, next, catalog, catalog.len() as int);
}

} // verus!
