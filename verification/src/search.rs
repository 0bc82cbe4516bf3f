//! The search service: conjunctive filtering over the catalog, sorting
//! with a document-id tie-break, pagination, and read-through caching of
//! whole result pages keyed by the hash of the normalized request.
use vstd::prelude::*;
use vstd::multiset::Multiset;
use crate::cache::CacheService;
use crate::cache::CacheError;
use crate::codec::Cacheable;
use crate::manga::enc_response;
use crate::codec::enc_str_list;
use crate::keys::autocomplete_key;
use crate::keys::generate_cache_key;
use crate::keys::spec_advanced_key;
use crate::keys::spec_autocomplete_key;
use crate::manga::Manga;
use crate::manga::MangaV;
use crate::manga::MangaListResponse;
use crate::manga::MangaListResponseV;
use crate::manga::sparse_response;
use crate::params::AdvancedSearchParams;
use crate::params::NormalizedSearch;
use crate::params::NormalizedSearchV;
use crate::params::SortField;
use crate::params::SortOrder;
use crate::params::normalize_spec;
use crate::store::KvEntryV;
use crate::store::key_matches;
use crate::store::kv_lookup;
use crate::store::live_payload;
use crate::text::chars_of;
use crate::text::chars_lt;
use crate::text::contains_chars;
use crate::text::contains_sub;
use crate::text::dec_rep;
use crate::text::lex_lt;
use crate::text::lower_of;
use crate::text::lowercase;
use crate::text::push_dec;
use crate::text::str_eq;

verus! {

/// How long a search result page stays cached, in seconds.
pub const SEARCH_TTL_SECS: u64 = 300;

/// How long an autocomplete suggestion list stays cached, in seconds.
pub const AUTOCOMPLETE_TTL_SECS: u64 = 600;

/// Why the document store could not serve a query.
#[derive(Debug)]
pub enum StoreError {
    ConnectionFailed,
    QueryFailed,
    Timeout,
}

/// Why a search could not be served: only a store failure, never a cache
/// failure, surfaces here.
#[derive(Debug)]
pub enum SearchError {
    Store(StoreError),
}

/// True when `s` is one of the strings in `set`.
pub open spec fn in_str_set(s: Seq<char>, set: Seq<Seq<char>>) -> bool {
    exists|i: int| 0 <= i < set.len() && set[i] == s
}

/// True when some document tag is among the wanted tags.
pub open spec fn tags_intersect(tags: Seq<Seq<char>>, wanted: Seq<Seq<char>>) -> bool {
    exists|i: int| 0 <= i < tags.len() && in_str_set(tags[i], wanted)
}

/// True when the free-text query matches the document: a case-insensitive
/// substring of its title, description or author.
pub open spec fn matches_query(m: MangaV, q: Seq<char>) -> bool {
    ||| contains_sub(lower_of(m.title), lower_of(q))
    ||| contains_sub(lower_of(m.description), lower_of(q))
    ||| contains_sub(lower_of(m.author), lower_of(q))
}

/// True when the document passes every filter of the normalized request;
/// omitted filters constrain nothing.
pub open spec fn doc_matches(m: MangaV, n: NormalizedSearchV) -> bool {
    &&& match n.query {
        Some(q) => matches_query(m, q),
        None => true,
    }
    &&& n.tags.len() > 0 ==> tags_intersect(m.tags, n.tags)
    &&& n.status.len() > 0 ==> in_str_set(m.status, n.status)
    &&& match n.author {
        Some(a) => contains_sub(lower_of(m.author), lower_of(a)),
        None => true,
    }
    &&& match n.artist {
        Some(a) => contains_sub(lower_of(m.artist), lower_of(a)),
        None => true,
    }
    &&& match n.year_from {
        Some(y) => m.year matches Some(my) && my >= y,
        None => true,
    }
    &&& match n.year_to {
        Some(y) => m.year matches Some(my) && my <= y,
        None => true,
    }
    &&& match n.min_rating {
        Some(r) => m.rating >= r,
        None => true,
    }
}

/// The documents passing the request's filters, in their original order.
pub open spec fn filter_docs(s: Seq<MangaV>, n: NormalizedSearchV) -> Seq<MangaV>
    decreases s.len(),
{
    if s.len() == 0 {
        Seq::empty()
    } else {
        filter_docs(s.drop_last(), n) + (if doc_matches(s.last(), n) {
            seq![s.last()]
        } else {
            Seq::empty()
        })
    }
}

/// True when `a` sorts strictly before `b` on the sort field alone.
pub open spec fn primary_lt(a: MangaV, b: MangaV, f: SortField) -> bool {
    match f {
        SortField::Title => lex_lt(a.title, b.title),
        SortField::UpdatedAt => a.updated_at < b.updated_at,
        SortField::CreatedAt => a.created_at < b.created_at,
        SortField::Rating => a.rating < b.rating,
        SortField::Popularity => a.popularity < b.popularity,
    }
}

/// True when `a` and `b` agree on the sort field.
pub open spec fn primary_eq(a: MangaV, b: MangaV, f: SortField) -> bool {
    match f {
        SortField::Title => a.title == b.title,
        SortField::UpdatedAt => a.updated_at == b.updated_at,
        SortField::CreatedAt => a.created_at == b.created_at,
        SortField::Rating => a.rating == b.rating,
        SortField::Popularity => a.popularity == b.popularity,
    }
}

/// The total order a search sorts by: the sort field in the requested
/// direction, ties broken by ascending document id.
pub open spec fn doc_lt(a: MangaV, b: MangaV, f: SortField, o: SortOrder) -> bool {
    if !primary_eq(a, b, f) {
        match o {
            SortOrder::Asc => primary_lt(a, b, f),
            SortOrder::Desc => primary_lt(b, a, f),
        }
    } else {
        a.id < b.id
    }
}

/// `d` inserted into `s` before the first element it sorts before.
pub open spec fn insert_sorted(d: MangaV, s: Seq<MangaV>, f: SortField, o: SortOrder) -> Seq<
    MangaV,
>
    decreases s.len(),
{
    if s.len() == 0 {
        seq![d]
    } else if doc_lt(d, s.first(), f, o) {
        seq![d] + s
    } else {
        seq![s.first()] + insert_sorted(d, s.drop_first(), f, o)
    }
}

/// The documents of `s` arranged by insertion sort under the search
/// order: a deterministic arrangement, since the order is total.
pub open spec fn sort_docs(s: Seq<MangaV>, f: SortField, o: SortOrder) -> Seq<MangaV>
    decreases s.len(),
{
    if s.len() == 0 {
        Seq::empty()
    } else {
        insert_sorted(s.last(), sort_docs(s.drop_last(), f, o), f, o)
    }
}

/// The page of `s` that starts after `skip` elements and holds at most
/// `limit`.
pub open spec fn page_slice(s: Seq<MangaV>, skip: int, limit: int) -> Seq<MangaV>
    recommends
        skip >= 0,
        limit >= 0,
{
    let lo = if skip < s.len() {
        skip
    } else {
        s.len() as int
    };
    let hi = if skip + limit < s.len() {
        skip + limit
    } else {
        s.len() as int
    };
    s.subrange(lo, hi)
}

/// The summary line of a response that found `total` documents.
pub open spec fn found_message(total: int) -> Seq<char> {
    "Found "@ + dec_rep(total) + " manga"@
}

/// The response a search computes fresh from the catalog under the
/// normalized request: the total under the filter, and one page of the
/// sorted matches.
pub open spec fn computed_response(docs: Seq<MangaV>, n: NormalizedSearchV) -> MangaListResponseV {
    let filtered = filter_docs(docs, n);
    let sorted = sort_docs(filtered, n.sort_by, n.sort_order);
    MangaListResponseV {
        success: true,
        manga: page_slice(sorted, (n.page - 1) * n.limit, n.limit as int),
        total_count: filtered.len() as u64,
        message: found_message(filtered.len() as int),
    }
}

/// True when no later element of `s` sorts strictly before an earlier
/// one.
pub open spec fn sorted_by(s: Seq<MangaV>, f: SortField, o: SortOrder) -> bool {
    forall|i: int, j: int| 0 <= i < j < s.len() ==> !doc_lt(#[trigger] s[j], #[trigger] s[i], f, o)
}

/// The search order never puts a document before itself.
proof fn lemma_doc_lt_irrefl(a: MangaV, f: SortField, o: SortOrder)
    ensures
        !doc_lt(a, a, f, o),
{
    if f == SortField::Title {
        crate::text::lemma_lex_lt_irrefl(a.title);
    }
}

/// The search order is transitive.
proof fn lemma_doc_lt_trans(a: MangaV, b: MangaV, c: MangaV, f: SortField, o: SortOrder)
    requires
        doc_lt(a, b, f, o),
        doc_lt(b, c, f, o),
    ensures
        doc_lt(a, c, f, o),
{
    match f {
        SortField::Title => {
            if !primary_eq(a, b, f) && !primary_eq(b, c, f) {
                match o {
                    SortOrder::Asc => {
                        crate::text::lemma_lex_lt_trans(a.title, b.title, c.title);
                    },
                    SortOrder::Desc => {
                        crate::text::lemma_lex_lt_trans(c.title, b.title, a.title);
                    },
                }
                if primary_eq(a, c, f) {
                    match o {
                        SortOrder::Asc => {
                            crate::text::lemma_lex_lt_trans(a.title, b.title, a.title);
                            crate::text::lemma_lex_lt_irrefl(a.title);
                        },
                        SortOrder::Desc => {
                            crate::text::lemma_lex_lt_trans(b.title, a.title, b.title);
                            crate::text::lemma_lex_lt_irrefl(b.title);
                        },
                    }
                }
            }
        },
        _ => {},
    }
}

/// The search order never holds in both directions at once.
proof fn lemma_doc_lt_asym(a: MangaV, b: MangaV, f: SortField, o: SortOrder)
    requires
        doc_lt(a, b, f, o),
    ensures
        !doc_lt(b, a, f, o),
{
    if doc_lt(b, a, f, o) {
        lemma_doc_lt_trans(a, b, a, f, o);
        lemma_doc_lt_irrefl(a, f, o);
    }
}

/// Everything in an insertion came from the insertion: the new document
/// or one already there.
proof fn lemma_insert_sorted_member(d: MangaV, s: Seq<MangaV>, f: SortField, o: SortOrder, j: int)
    requires
        0 <= j < insert_sorted(d, s, f, o).len(),
    ensures
        insert_sorted(d, s, f, o)[j] == d || s.contains(insert_sorted(d, s, f, o)[j]),
    decreases s.len(),
{
    if s.len() == 0 {
    } else if doc_lt(d, s.first(), f, o) {
    } else {
        if j > 0 {
            lemma_insert_sorted_member(d, s.drop_first(), f, o, j - 1);
            if s.drop_first().contains(insert_sorted(d, s, f, o)[j]) {
                let t = choose|t: int|
                    0 <= t < s.drop_first().len() && s.drop_first()[t] == insert_sorted(
                        d,
                        s,
                        f,
                        o,
                    )[j];
                assert(s[t + 1] == insert_sorted(d, s, f, o)[j]);
            }
        }
    }
}

/// Inserting into a sorted sequence keeps it sorted.
proof fn lemma_insert_sorted_sorted(d: MangaV, s: Seq<MangaV>, f: SortField, o: SortOrder)
    requires
        sorted_by(s, f, o),
    ensures
        sorted_by(insert_sorted(d, s, f, o), f, o),
    decreases s.len(),
{
    let out = insert_sorted(d, s, f, o);
    if s.len() == 0 {
    } else if doc_lt(d, s.first(), f, o) {
        assert forall|i: int, j: int| 0 <= i < j < out.len() implies !doc_lt(
            #[trigger] out[j],
            #[trigger] out[i],
            f,
            o,
        ) by {
            if i == 0 {
                // out[j] is s[j - 1]; it cannot sort before d.
                if doc_lt(s[j - 1], d, f, o) {
                    lemma_doc_lt_trans(s[j - 1], d, s[0], f, o);
                    if j == 1 {
                        lemma_doc_lt_asym(d, s.first(), f, o);
                    }
                }
            }
        }
    } else {
        let rest = s.drop_first();
        assert(sorted_by(rest, f, o)) by {
            assert(forall|i: int, j: int|
                0 <= i < j < rest.len() ==> !doc_lt(
                    #[trigger] rest[j],
                    #[trigger] rest[i],
                    f,
                    o,
                ));
        }
        lemma_insert_sorted_sorted(d, rest, f, o);
        let inner = insert_sorted(d, rest, f, o);
        assert forall|i: int, j: int| 0 <= i < j < out.len() implies !doc_lt(
            #[trigger] out[j],
            #[trigger] out[i],
            f,
            o,
        ) by {
            if i == 0 {
                // out[0] is s[0]; out[j] is the new document or some
                // element of the tail, and neither sorts before s[0].
                assert(out[j] == inner[j - 1]);
                lemma_insert_sorted_member(d, rest, f, o, j - 1);
                if inner[j - 1] == d {
                    assert(!doc_lt(d, s.first(), f, o));
                } else {
                    let t = choose|t: int| 0 <= t < rest.len() && rest[t] == inner[j - 1];
                    assert(s[t + 1] == inner[j - 1]);
                }
            } else {
                assert(out[i] == inner[i - 1] && out[j] == inner[j - 1]);
            }
        }
    }
}

/// The arrangement a search serves is sorted under the requested order.
pub proof fn lemma_sort_docs_sorted(s: Seq<MangaV>, f: SortField, o: SortOrder)
    ensures
        sorted_by(sort_docs(s, f, o), f, o),
    decreases s.len(),
{
    if s.len() > 0 {
        lemma_sort_docs_sorted(s.drop_last(), f, o);
        lemma_insert_sorted_sorted(s.last(), sort_docs(s.drop_last(), f, o), f, o);
    }
}


/// Everything inserted is kept: an insertion holds the same documents as
/// appending.
proof fn lemma_insert_sorted_permutes(d: MangaV, s: Seq<MangaV>, f: SortField, o: SortOrder)
    ensures
        insert_sorted(d, s, f, o).to_multiset() == s.push(d).to_multiset(),
    decreases s.len(),
{
    broadcast use vstd::seq_lib::group_to_multiset_ensures;
    broadcast use vstd::seq_lib::lemma_multiset_commutative;

    if s.len() == 0 {
        assert(insert_sorted(d, s, f, o) =~= s.push(d));
    } else if doc_lt(d, s.first(), f, o) {
        assert(seq![d] + s =~= (seq![d] + s.drop_last()).push(s.last()));
        assert(s.push(d) =~= (s.drop_last().push(s.last())).push(d));
        lemma_swap_last_two(seq![d] + s.drop_last(), s.last(), d);
        assert((seq![d] + s.drop_last()).push(d) =~= (seq![d] + s.drop_last().push(d)));
        lemma_insert_front_permutes(d, s.drop_last());
    } else {
        let rest = s.drop_first();
        lemma_insert_sorted_permutes(d, rest, f, o);
        assert(insert_sorted(d, s, f, o) == seq![s.first()] + insert_sorted(d, rest, f, o));
        assert((seq![s.first()] + insert_sorted(d, rest, f, o)).to_multiset()
            == seq![s.first()].to_multiset().add(insert_sorted(d, rest, f, o).to_multiset()));
        assert((seq![s.first()] + rest.push(d)).to_multiset() == seq![s.first()].to_multiset().add(
            rest.push(d).to_multiset(),
        ));
        assert(seq![s.first()] + rest.push(d) =~= s.push(d));
    }
}

/// Prepending and appending one document yield the same documents.
proof fn lemma_insert_front_permutes(d: MangaV, s: Seq<MangaV>)
    ensures
        (seq![d] + s).to_multiset() == s.push(d).to_multiset(),
    decreases s.len(),
{
    broadcast use vstd::seq_lib::group_to_multiset_ensures;
    broadcast use vstd::seq_lib::lemma_multiset_commutative;

    assert((seq![d] + s).to_multiset() == seq![d].to_multiset().add(s.to_multiset()));
    assert(seq![d] =~= Seq::<MangaV>::empty().push(d));
    assert(seq![d].to_multiset() =~= Multiset::<MangaV>::empty().insert(d));
    assert(s.push(d).to_multiset() == s.to_multiset().insert(d));
    assert(seq![d].to_multiset().add(s.to_multiset()) =~= s.to_multiset().insert(d));
}

/// Exchanging the last two documents yields the same documents.
proof fn lemma_swap_last_two(s: Seq<MangaV>, x: MangaV, y: MangaV)
    ensures
        s.push(x).push(y).to_multiset() == s.push(y).push(x).to_multiset(),
{
    broadcast use vstd::seq_lib::group_to_multiset_ensures;

    assert(s.push(x).push(y).to_multiset() =~= s.to_multiset().insert(x).insert(y));
    assert(s.push(y).push(x).to_multiset() =~= s.to_multiset().insert(y).insert(x));
    assert(s.to_multiset().insert(x).insert(y) =~= s.to_multiset().insert(y).insert(x));
}

/// The arrangement a search serves holds exactly the filtered documents:
/// sorting loses none and invents none.
pub proof fn lemma_sort_docs_permutes(s: Seq<MangaV>, f: SortField, o: SortOrder)
    ensures
        sort_docs(s, f, o).to_multiset() == s.to_multiset(),
    decreases s.len(),
{
    broadcast use vstd::seq_lib::group_to_multiset_ensures;

    if s.len() > 0 {
        lemma_sort_docs_permutes(s.drop_last(), f, o);
        lemma_insert_sorted_permutes(s.last(), sort_docs(s.drop_last(), f, o), f, o);
        assert(s.drop_last().push(s.last()) =~= s);
        assert(sort_docs(s.drop_last(), f, o).push(s.last()).to_multiset() == sort_docs(
            s.drop_last(),
            f,
            o,
        ).to_multiset().insert(s.last()));
        assert(s.drop_last().push(s.last()).to_multiset() == s.drop_last().to_multiset().insert(
            s.last(),
        ));
    }
}


/// Decides the search order between two documents.
fn doc_lt_exec(a: &Manga, b: &Manga, f: SortField, o: SortOrder) -> (r: bool)
    ensures
        r == doc_lt(a@, b@, f, o),
{
    let peq = match f {
        SortField::Title => str_eq(a.title.as_str(), b.title.as_str()),
        SortField::UpdatedAt => a.updated_at == b.updated_at,
        SortField::CreatedAt => a.created_at == b.created_at,
        SortField::Rating => a.rating == b.rating,
        SortField::Popularity => a.popularity == b.popularity,
    };
    if !peq {
        let (x, y) = match o {
            SortOrder::Asc => (a, b),
            SortOrder::Desc => (b, a),
        };
        match f {
            SortField::Title => {
                let xc = chars_of(x.title.as_str());
                let yc = chars_of(y.title.as_str());
                chars_lt(&xc, &yc)
            },
            SortField::UpdatedAt => x.updated_at < y.updated_at,
            SortField::CreatedAt => x.created_at < y.created_at,
            SortField::Rating => x.rating < y.rating,
            SortField::Popularity => x.popularity < y.popularity,
        }
    } else {
        a.id < b.id
    }
}

/// Inserts `d` into the sorted vector `out` at its place under the search
/// order.
#[verifier::loop_isolation(false)]
fn insert_doc(out: &mut Vec<Manga>, d: Manga, f: SortField, o: SortOrder)
    ensures
        final(out)@.map_values(|m: Manga| m@) == insert_sorted(
            d@,
            old(out)@.map_values(|m: Manga| m@),
            f,
            o,
        ),
{
    let ghost views = out@.map_values(|m: Manga| m@);
    let n = out.len();
    let mut k: usize = 0;
    while k < n && !doc_lt_exec(&d, &out[k], f, o)
        invariant
            n == out.len(),
            out@.map_values(|m: Manga| m@) == views,
            k <= n,
            forall|j: int| 0 <= j < k ==> !doc_lt(d@, #[trigger] views[j], f, o),
        decreases n - k,
    {
        k = k + 1;
    }
    proof {
        lemma_insert_sorted_at(d@, views, f, o, k as int);
    }
    out.insert(k, d);
    proof {
        assert(out@.map_values(|m: Manga| m@) =~= views.take(k as int) + seq![d@] + views.skip(
            k as int,
        ));
    }
}

/// Insertion at the first place the order admits is what `insert_sorted`
/// denotes.
proof fn lemma_insert_sorted_at(d: MangaV, s: Seq<MangaV>, f: SortField, o: SortOrder, k: int)
    requires
        0 <= k <= s.len(),
        forall|j: int| 0 <= j < k ==> !doc_lt(d, #[trigger] s[j], f, o),
        k < s.len() ==> doc_lt(d, s[k], f, o),
    ensures
        insert_sorted(d, s, f, o) == s.take(k) + seq![d] + s.skip(k),
    decreases s.len(),
{
    if s.len() == 0 {
        assert(insert_sorted(d, s, f, o) =~= s.take(0) + seq![d] + s.skip(0));
    } else if doc_lt(d, s.first(), f, o) {
        assert(k == 0);
        assert(insert_sorted(d, s, f, o) =~= s.take(0) + seq![d] + s.skip(0));
    } else {
        assert(k >= 1);
        let rest = s.drop_first();
        lemma_insert_sorted_at(d, rest, f, o, k - 1);
        assert(insert_sorted(d, s, f, o) == seq![s.first()] + (rest.take(k - 1) + seq![d]
            + rest.skip(k - 1)));
        assert(seq![s.first()] + (rest.take(k - 1) + seq![d] + rest.skip(k - 1)) =~= s.take(k)
            + seq![d] + s.skip(k));
    }
}

/// The catalog documents arranged by the search order.
#[verifier::loop_isolation(false)]
fn sort_by_key(docs: &Vec<Manga>, f: SortField, o: SortOrder) -> (r: Vec<Manga>)
    ensures
        r@.map_values(|m: Manga| m@) == sort_docs(docs@.map_values(|m: Manga| m@), f, o),
{
    let ghost views = docs@.map_values(|m: Manga| m@);
    let mut out: Vec<Manga> = Vec::new();
    let mut i: usize = 0;
    proof {
        assert(out@.map_values(|m: Manga| m@) =~= sort_docs(views.take(0), f, o));
    }
    while i < docs.len()
        invariant
            views == docs@.map_values(|m: Manga| m@),
            i <= docs.len(),
            out@.map_values(|m: Manga| m@) == sort_docs(views.take(i as int), f, o),
        decreases docs.len() - i,
    {
        insert_doc(&mut out, docs[i].clone(), f, o);
        i = i + 1;
        proof {
            assert(views.take(i as int).drop_last() =~= views.take(i - 1));
            assert(views.take(i as int).last() == views[i - 1]);
        }
    }
    proof {
        assert(views.take(views.len() as int) =~= views);
    }
    out
}

/// Decides whether `s` is one of the strings in `set`.
#[verifier::loop_isolation(false)]
fn contains_string(set: &Vec<String>, s: &str) -> (r: bool)
    ensures
        r == in_str_set(s@, set@.map_values(|x: String| x@)),
{
    let ghost views = set@.map_values(|x: String| x@);
    let mut i: usize = 0;
    while i < set.len()
        invariant
            i <= set.len(),
            forall|j: int| 0 <= j < i ==> views[j] != s@,
        decreases set.len() - i,
    {
        if str_eq(set[i].as_str(), s) {
            proof {
                assert(views[i as int] == s@);
            }
            return true;
        }
        i = i + 1;
    }
    false
}

/// Decides whether any document tag is among the wanted tags.
#[verifier::loop_isolation(false)]
fn tags_intersect_exec(tags: &Vec<String>, wanted: &Vec<String>) -> (r: bool)
    ensures
        r == tags_intersect(
            tags@.map_values(|x: String| x@),
            wanted@.map_values(|x: String| x@),
        ),
{
    let ghost tviews = tags@.map_values(|x: String| x@);
    let mut i: usize = 0;
    while i < tags.len()
        invariant
            i <= tags.len(),
            forall|j: int|
                0 <= j < i ==> !in_str_set(
                    #[trigger] tviews[j],
                    wanted@.map_values(|x: String| x@),
                ),
        decreases tags.len() - i,
    {
        if contains_string(wanted, tags[i].as_str()) {
            proof {
                assert(in_str_set(tviews[i as int], wanted@.map_values(|x: String| x@)));
            }
            return true;
        }
        i = i + 1;
    }
    false
}

/// Decides whether the lowercase form of `field` holds the lowercase form
/// of `needle` as a substring.
fn field_contains(field: &str, needle: &str) -> (r: bool)
    ensures
        r == contains_sub(lower_of(field@), lower_of(needle@)),
{
    let hay_s = lowercase(field);
    let needle_s = lowercase(needle);
    let hay = chars_of(hay_s.as_str());
    let needle_c = chars_of(needle_s.as_str());
    contains_chars(&hay, &needle_c)
}

/// Decides whether a document passes every filter of the request.
fn doc_matches_exec(m: &Manga, n: &NormalizedSearch) -> (r: bool)
    ensures
        r == doc_matches(m@, n@),
{
    match &n.query {
        Some(q) => {
            let hit = field_contains(m.title.as_str(), q.as_str()) || field_contains(
                m.description.as_str(),
                q.as_str(),
            ) || field_contains(m.author.as_str(), q.as_str());
            if !hit {
                return false;
            }
        },
        None => {},
    }
    if n.tags.len() > 0 {
        if !tags_intersect_exec(&m.tags, &n.tags) {
            return false;
        }
    }
    if n.status.len() > 0 {
        if !contains_string(&n.status, m.status.as_str()) {
            return false;
        }
    }
    match &n.author {
        Some(a) => {
            if !field_contains(m.author.as_str(), a.as_str()) {
                return false;
            }
        },
        None => {},
    }
    match &n.artist {
        Some(a) => {
            if !field_contains(m.artist.as_str(), a.as_str()) {
                return false;
            }
        },
        None => {},
    }
    match n.year_from {
        Some(y) => {
            match m.year {
                Some(my) => {
                    if my < y {
                        return false;
                    }
                },
                None => {
                    return false;
                },
            }
        },
        None => {},
    }
    match n.year_to {
        Some(y) => {
            match m.year {
                Some(my) => {
                    if my > y {
                        return false;
                    }
                },
                None => {
                    return false;
                },
            }
        },
        None => {},
    }
    match n.min_rating {
        Some(rt) => {
            if m.rating < rt {
                return false;
            }
        },
        None => {},
    }
    true
}

/// The catalog documents passing the request's filters, in order.
#[verifier::loop_isolation(false)]
fn filter_docs_exec(docs: &Vec<Manga>, n: &NormalizedSearch) -> (r: Vec<Manga>)
    ensures
        r@.map_values(|m: Manga| m@) == filter_docs(docs@.map_values(|m: Manga| m@), n@),
{
    let ghost views = docs@.map_values(|m: Manga| m@);
    let mut out: Vec<Manga> = Vec::new();
    let mut i: usize = 0;
    proof {
        assert(out@.map_values(|m: Manga| m@) =~= filter_docs(views.take(0), n@));
    }
    while i < docs.len()
        invariant
            views == docs@.map_values(|m: Manga| m@),
            i <= docs.len(),
            out@.map_values(|m: Manga| m@) == filter_docs(views.take(i as int), n@),
        decreases docs.len() - i,
    {
        if doc_matches_exec(&docs[i], n) {
            out.push(docs[i].clone());
        }
        i = i + 1;
        proof {
            assert(views.take(i as int).drop_last() =~= views.take(i - 1));
            assert(views.take(i as int).last() == views[i - 1]);
            assert(out@.map_values(|m: Manga| m@) =~= filter_docs(views.take(i as int), n@));
        }
    }
    proof {
        assert(views.take(views.len() as int) =~= views);
    }
    out
}

/// The requested page of the sorted matches.
#[verifier::loop_isolation(false)]
fn page_of(sorted: &Vec<Manga>, skip: u64, limit: u32) -> (r: Vec<Manga>)
    ensures
        r@.map_values(|m: Manga| m@) == page_slice(
            sorted@.map_values(|m: Manga| m@),
            skip as int,
            limit as int,
        ),
{
    let ghost views = sorted@.map_values(|m: Manga| m@);
    let len = sorted.len();
    let lo: usize = if skip < len as u64 {
        skip as usize
    } else {
        len
    };
    let hi64: u64 = if skip > u64::MAX - limit as u64 {
        u64::MAX
    } else {
        skip + limit as u64
    };
    let hi: usize = if hi64 < len as u64 {
        hi64 as usize
    } else {
        len
    };
    let mut out: Vec<Manga> = Vec::new();
    let mut j: usize = lo;
    proof {
        assert(out@.map_values(|m: Manga| m@) =~= views.subrange(lo as int, lo as int));
    }
    while j < hi
        invariant
            views == sorted@.map_values(|m: Manga| m@),
            lo <= j <= hi <= sorted.len(),
            out@.map_values(|m: Manga| m@) == views.subrange(lo as int, j as int),
        decreases hi - j,
    {
        out.push(sorted[j].clone());
        j = j + 1;
        proof {
            assert(views.subrange(lo as int, j as int) =~= views.subrange(lo as int, j - 1).push(
                views[j - 1],
            ));
        }
    }
    proof {
        assert(views.subrange(lo as int, hi as int) =~= page_slice(
            views,
            skip as int,
            limit as int,
        ));
    }
    out
}

/// The summary line of a response that found `total` documents.
fn found_message_exec(total: u64) -> (r: String)
    ensures
        r@ == found_message(total as int),
{
    let mut s = String::from_str("Found ");
    push_dec(total, &mut s);
    s.append(" manga");
    proof {
        assert(s@ =~= found_message(total as int));
    }
    s
}

/// What a read of the response cached under `key` observes at `now`: the
/// decoded value of a live payload, if it decodes.
pub open spec fn cache_hit(contents: Seq<KvEntryV>, key: Seq<char>, now: u64) -> Option<
    MangaListResponseV,
> {
    match live_payload(contents, key, now) {
        Some(p) => sparse_response(p),
        None => None,
    }
}

/// One more store query, capped at the counter's width.
pub open spec fn bump_queries(x: u64) -> u64 {
    if x == u64::MAX {
        x
    } else {
        (x + 1) as u64
    }
}

/// The search service: read-through and write-through caching around the
/// filtered, sorted, paged catalog scan. The query counter says how often
/// the catalog itself was consulted.
pub struct SearchService {
    cache: Option<CacheService>,
    store_queries: u64,
}

impl SearchService {
    /// The cache's entries, when a cache was attached.
    pub closed spec fn cache_contents(&self) -> Option<Seq<KvEntryV>> {
        match self.cache {
            Some(c) => Some(c.contents()),
            None => None,
        }
    }

    /// How often the catalog was scanned rather than served from cache.
    pub closed spec fn queries(&self) -> u64 {
        self.store_queries
    }

    /// How often the catalog was scanned, as a value a caller can read.
    pub fn query_count(&self) -> (r: u64)
        ensures
            r == self.queries(),
    {
        self.store_queries
    }

    /// A service over the given cache, which may be absent; the catalog
    /// has not been consulted yet.
    pub fn new(cache: Option<CacheService>) -> (r: SearchService)
        ensures
            r.cache_contents() == match cache {
                Some(c) => Some(c.contents()),
                None => None::<Seq<KvEntryV>>,
            },
            r.queries() == 0,
    {
        SearchService { cache, store_queries: 0 }
    }

    /// Serves an advanced search: on a cache hit the cached page is
    /// returned and the catalog is not consulted; on a miss the page is
    /// computed from the catalog and written through. A cached payload
    /// that fails to decode counts as a miss. Cache trouble never fails
    /// the search.
    pub fn advanced_search(
        &mut self,
        docs: &Vec<Manga>,
        params: &AdvancedSearchParams,
        now: u64,
    ) -> (r: Result<MangaListResponse, SearchError>)
        ensures
            r matches Ok(resp) && ({
                let n = normalize_spec(params@);
                let key = spec_advanced_key(n);
                let fresh = computed_response(docs@.map_values(|m: Manga| m@), n);
                match old(self).cache_contents() {
                    Some(c) => match cache_hit(c, key, now) {
                        Some(rv) => resp@ == rv && final(self).queries() == old(self).queries()
                            && final(self).cache_contents() == old(self).cache_contents(),
                        None => resp@ == fresh && final(self).queries() == bump_queries(
                            old(self).queries(),
                        ) && (final(self).cache_contents() matches Some(fc) && (now < u64::MAX
                            ==> cache_hit(fc, key, now) == Some(fresh)) && kv_lookup(fc, key)
                            == Some(
                            KvEntryV {
                                key: key,
                                payload: enc_response(fresh),
                                expires_at: if now + SEARCH_TTL_SECS > u64::MAX {
                                    u64::MAX
                                } else {
                                    (now + SEARCH_TTL_SECS) as u64
                                },
                            },
                        ) && (forall|k2: Seq<char>|
                            k2 != key ==> #[trigger] kv_lookup(fc, k2) == kv_lookup(c, k2))),
                    },
                    None => resp@ == fresh && final(self).queries() == bump_queries(
                        old(self).queries(),
                    ) && final(self).cache_contents() is None,
                }
            }),
    {
        let n = params.normalize();
        let key = generate_cache_key(&n);
        match &mut self.cache {
            Some(cache) => {
                let cached: Option<MangaListResponse> = cache.get(key.as_str(), now);
                match cached {
                    Some(resp) => {
                        return Ok(resp);
                    },
                    None => {},
                }
            },
            None => {},
        }
        let resp = Self::run_query(docs, &n);
        self.store_queries = if self.store_queries == u64::MAX {
            self.store_queries
        } else {
            self.store_queries + 1
        };
        match &mut self.cache {
            Some(cache) => {
                let outcome = cache.set(key.as_str(), &resp, SEARCH_TTL_SECS, now);
                proof {
                    resp.lemma_round_trip();
                }
                match outcome {
                    Ok(_) => {},
                    Err(_) => {},
                }
            },
            None => {},
        }
        Ok(resp)
    }

    /// Computes the response for a normalized request from the catalog.
    fn run_query(docs: &Vec<Manga>, n: &NormalizedSearch) -> (r: MangaListResponse)
        requires
            n.page >= 1,
        ensures
            r@ == computed_response(docs@.map_values(|m: Manga| m@), n@),
    {
        let filtered = filter_docs_exec(docs, n);
        let total = filtered.len() as u64;
        let sorted = sort_by_key(&filtered, n.sort_by, n.sort_order);
        let skip = AdvancedSearchParams::skip_amount(n.page, n.limit);
        let page = page_of(&sorted, skip, n.limit);
        let message = found_message_exec(total);
        MangaListResponse { success: true, manga: page, total_count: total, message }
    }

    /// Deletes every cached entry in the search namespace; entries under
    /// other namespaces stay.
    pub fn invalidate_search_cache(&mut self) -> (r: Result<(), CacheError>)
        ensures
            r is Ok,
            final(self).queries() == old(self).queries(),
            old(self).cache_contents() is None ==> final(self).cache_contents() is None,
            old(self).cache_contents() matches Some(c) ==> (final(self).cache_contents()
                matches Some(fc) && (forall|k2: Seq<char>|
                key_matches(k2, "search:*"@) ==> #[trigger] kv_lookup(fc, k2) is None) && (
            forall|k2: Seq<char>|
                !key_matches(k2, "search:*"@) ==> #[trigger] kv_lookup(fc, k2) == kv_lookup(
                    c,
                    k2,
                ))),
    {
        match &mut self.cache {
            Some(cache) => {
                let outcome = cache.delete_pattern("search:*");
                match outcome {
                    Ok(_) => {},
                    Err(_) => {},
                }
            },
            None => {},
        }
        Ok(())
    }
}

/// What the suggestions computed for term `q` under `limit` are: the
/// titles of the first matching documents, in catalog order.
pub open spec fn suggest(s: Seq<MangaV>, q: Seq<char>, k: int) -> Seq<Seq<char>>
    decreases s.len(),
{
    if s.len() == 0 || k <= 0 {
        Seq::empty()
    } else if contains_sub(lower_of(s.first().title), lower_of(q)) {
        seq![s.first().title] + suggest(s.drop_first(), q, k - 1)
    } else {
        suggest(s.drop_first(), q, k)
    }
}

/// Serves autocomplete: a term under two characters suggests nothing; a
/// cached suggestion list is served as it stands; otherwise the titles
/// holding the term, case-insensitively, are collected in catalog order
/// up to `limit` and written through.
pub fn get_autocomplete_suggestions(
    service: &mut SearchService,
    docs: &Vec<Manga>,
    query: &str,
    limit: u32,
    now: u64,
) -> (r: Result<Vec<String>, SearchError>)
    ensures
        r matches Ok(out) && ({
            let key = spec_autocomplete_key(query@);
            let fresh = suggest(docs@.map_values(|m: Manga| m@), query@, limit as int);
            if query@.len() < 2 {
                out@.len() == 0 && *final(service) == *old(service)
            } else {
                match old(service).cache_contents() {
                    Some(c) => match cache_suggestions(c, key, now) {
                        Some(sv) => out@.map_values(|s: String| s@) == sv && final(service).queries() == old(service).queries() && final(service).cache_contents()
                            == old(service).cache_contents(),
                        None => out@.map_values(|s: String| s@) == fresh && final(service).queries() == bump_queries(old(service).queries()) && (final(service).cache_contents() matches Some(fc) && (forall|k2: Seq<char>|
                            k2 != key ==> #[trigger] kv_lookup(fc, k2) == kv_lookup(c, k2))),
                    },
                    None => out@.map_values(|s: String| s@) == fresh && final(service).queries()
                        == bump_queries(old(service).queries()) && final(service).cache_contents() is None,
                }
            }
        }),
{
    let qchars = chars_of(query);
    if qchars.len() < 2 {
        return Ok(Vec::new());
    }
    let key = autocomplete_key(query);
    match &mut service.cache {
        Some(cache) => {
            let cached: Option<Vec<String>> = cache.get(key.as_str(), now);
            match cached {
                Some(out) => {
                    return Ok(out);
                },
                None => {},
            }
        },
        None => {},
    }
    let out = collect_suggestions(docs, query, limit);
    service.store_queries = if service.store_queries == u64::MAX {
        service.store_queries
    } else {
        service.store_queries + 1
    };
    match &mut service.cache {
        Some(cache) => {
            let outcome = cache.set(key.as_str(), &out, AUTOCOMPLETE_TTL_SECS, now);
            proof {
                out.lemma_round_trip();
            }
            match outcome {
                Ok(_) => {},
                Err(_) => {},
            }
        },
        None => {},
    }
    Ok(out)
}

/// What a read of the suggestions cached under `key` observes at `now`.
pub open spec fn cache_suggestions(contents: Seq<KvEntryV>, key: Seq<char>, now: u64) -> Option<
    Seq<Seq<char>>,
> {
    match live_payload(contents, key, now) {
        Some(p) => <Vec<String> as Cacheable>::decoded(p),
        None => None,
    }
}

/// Collects the titles holding the term, case-insensitively, in catalog
/// order, up to `limit` of them.
#[verifier::loop_isolation(false)]
fn collect_suggestions(docs: &Vec<Manga>, query: &str, limit: u32) -> (r: Vec<String>)
    ensures
        r@.map_values(|s: String| s@) == suggest(
            docs@.map_values(|m: Manga| m@),
            query@,
            limit as int,
        ),
{
    let ghost views = docs@.map_values(|m: Manga| m@);
    let mut out: Vec<String> = Vec::new();
    let mut i: usize = 0;
    proof {
        assert(views.skip(0) =~= views);
        match_suggest_prefix(views, query@, limit as int, out@.map_values(|s: String| s@));
    }
    while i < docs.len() && (out.len() as u64) < (limit as u64)
        invariant
            views == docs@.map_values(|m: Manga| m@),
            i <= docs.len(),
            out@.len() <= limit,
            suggest(views, query@, limit as int) == out@.map_values(|s: String| s@) + suggest(
                views.skip(i as int),
                query@,
                limit - out@.len(),
            ),
        decreases docs.len() - i,
    {
        let ghost pre_out = out@.map_values(|s: String| s@);
        let ghost rest = views.skip(i as int);
        if field_contains(docs[i].title.as_str(), query) {
            out.push(docs[i].title.clone());
        }
        i = i + 1;
        proof {
            assert(rest.first() == views[i - 1]);
            assert(rest.drop_first() =~= views.skip(i as int));
            if contains_sub(lower_of(views[i - 1].title), lower_of(query@)) {
                assert(pre_out + (seq![views[i - 1].title] + suggest(
                    views.skip(i as int),
                    query@,
                    limit - pre_out.len() - 1,
                )) =~= out@.map_values(|s: String| s@) + suggest(
                    views.skip(i as int),
                    query@,
                    limit - out@.len(),
                ));
            }
        }
    }
    proof {
        if i >= docs.len() {
            assert(views.skip(i as int) =~= Seq::<MangaV>::empty());
        }
        assert(out@.map_values(|s: String| s@) + Seq::<Seq<char>>::empty() =~= out@.map_values(
            |s: String| s@,
        ));
    }
    out
}

/// A note to the reader of `collect_suggestions`: before any document is
/// seen, the suggestions still to be collected are all of them.
proof fn match_suggest_prefix(views: Seq<MangaV>, q: Seq<char>, k: int, pre: Seq<Seq<char>>)
    requires
        pre.len() == 0,
    ensures
        suggest(views, q, k) == pre + suggest(views, q, k),
{
    assert(pre + suggest(views, q, k) =~= suggest(views, q, k));
}


/// Read-through correctness: while the entry a search wrote under its key
/// still stands and has not expired, a read of that key observes exactly
/// the response that was written, so an identical request is served from
/// the cache and the catalog is not consulted again.
pub proof fn lemma_read_through(
    c: Seq<KvEntryV>,
    key: Seq<char>,
    resp: MangaListResponse,
    expires_at: u64,
    later: u64,
)
    requires
        kv_lookup(c, key) == Some(KvEntryV { key, payload: enc_response(resp@), expires_at }),
        resp.bounded(),
        expires_at > later,
    ensures
        cache_hit(c, key, later) == Some(resp@),
{
    resp.lemma_round_trip();
}


/// The number of suggestions served when a request names no limit.
pub fn default_autocomplete_limit() -> (r: u32)
    ensures
        r == 10u32,
{
    10
}

/// The query parameters of the autocomplete endpoint.
pub struct AutocompleteQuery {
    pub q: String,
    pub limit: u32,
}


} // verus!
