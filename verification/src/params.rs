//! The advanced-search request: the raw query parameters as they arrive,
//! and their normalized form, fixed at construction time, that the cache
//! key and the predicates are computed from.
use vstd::prelude::*;
use crate::text::chars_lt;
use crate::text::chars_of;
use crate::text::lex_lt;
use crate::text::str_eq;

verus! {

/// The field a search sorts on.
#[derive(Clone, Copy, PartialEq, Eq, Structural, Debug)]
pub enum SortField {
    Title,
    UpdatedAt,
    CreatedAt,
    Rating,
    Popularity,
}

/// The direction a search sorts in.
#[derive(Clone, Copy, PartialEq, Eq, Structural, Debug)]
pub enum SortOrder {
    Asc,
    Desc,
}

/// Advanced search parameters as they arrive from a request. Ratings are
/// in hundredths of a star.
pub struct AdvancedSearchParams {
    pub query: Option<String>,
    pub tags: Option<Vec<String>>,
    pub status: Option<Vec<String>>,
    pub author: Option<String>,
    pub artist: Option<String>,
    pub year_from: Option<u16>,
    pub year_to: Option<u16>,
    pub min_rating: Option<u32>,
    pub sort_by: Option<SortField>,
    pub sort_order: Option<SortOrder>,
    pub page: Option<u32>,
    pub limit: Option<u32>,
}

/// The mathematical value of the raw parameters.
pub ghost struct AdvancedSearchParamsV {
    pub query: Option<Seq<char>>,
    pub tags: Option<Seq<Seq<char>>>,
    pub status: Option<Seq<Seq<char>>>,
    pub author: Option<Seq<char>>,
    pub artist: Option<Seq<char>>,
    pub year_from: Option<u16>,
    pub year_to: Option<u16>,
    pub min_rating: Option<u32>,
    pub sort_by: Option<SortField>,
    pub sort_order: Option<SortOrder>,
    pub page: Option<u32>,
    pub limit: Option<u32>,
}

impl View for AdvancedSearchParams {
    type V = AdvancedSearchParamsV;

    open spec fn view(&self) -> AdvancedSearchParamsV {
        AdvancedSearchParamsV {
            query: match self.query {
                Some(q) => Some(q@),
                None => None,
            },
            tags: match self.tags {
                Some(t) => Some(t@.map_values(|s: String| s@)),
                None => None,
            },
            status: match self.status {
                Some(t) => Some(t@.map_values(|s: String| s@)),
                None => None,
            },
            author: match self.author {
                Some(a) => Some(a@),
                None => None,
            },
            artist: match self.artist {
                Some(a) => Some(a@),
                None => None,
            },
            year_from: self.year_from,
            year_to: self.year_to,
            min_rating: self.min_rating,
            sort_by: self.sort_by,
            sort_order: self.sort_order,
            page: self.page,
            limit: self.limit,
        }
    }
}

impl Default for AdvancedSearchParams {
    /// The parameters a bare request stands for: no filters, newest
    /// updates first, the first page of twenty.
    fn default() -> (r: AdvancedSearchParams)
        ensures
            r@.query is None,
            r@.tags is None,
            r@.status is None,
            r@.author is None,
            r@.artist is None,
            r@.year_from is None,
            r@.year_to is None,
            r@.min_rating is None,
            r@.sort_by == Some(SortField::UpdatedAt),
            r@.sort_order == Some(SortOrder::Desc),
            r@.page == Some(1u32),
            r@.limit == Some(20u32),
    {
        AdvancedSearchParams {
            query: None,
            tags: None,
            status: None,
            author: None,
            artist: None,
            year_from: None,
            year_to: None,
            min_rating: None,
            sort_by: Some(SortField::UpdatedAt),
            sort_order: Some(SortOrder::Desc),
            page: Some(1),
            limit: Some(20),
        }
    }
}

/// A normalized search request: empty filters dropped, defaults filled
/// in, the page at least 1 and the limit within 1..=100.
pub struct NormalizedSearch {
    pub query: Option<String>,
    pub tags: Vec<String>,
    pub status: Vec<String>,
    pub author: Option<String>,
    pub artist: Option<String>,
    pub year_from: Option<u16>,
    pub year_to: Option<u16>,
    pub min_rating: Option<u32>,
    pub sort_by: SortField,
    pub sort_order: SortOrder,
    pub page: u32,
    pub limit: u32,
}

/// The mathematical value of a normalized request.
pub ghost struct NormalizedSearchV {
    pub query: Option<Seq<char>>,
    pub tags: Seq<Seq<char>>,
    pub status: Seq<Seq<char>>,
    pub author: Option<Seq<char>>,
    pub artist: Option<Seq<char>>,
    pub year_from: Option<u16>,
    pub year_to: Option<u16>,
    pub min_rating: Option<u32>,
    pub sort_by: SortField,
    pub sort_order: SortOrder,
    pub page: u32,
    pub limit: u32,
}

impl View for NormalizedSearch {
    type V = NormalizedSearchV;

    open spec fn view(&self) -> NormalizedSearchV {
        NormalizedSearchV {
            query: match self.query {
                Some(q) => Some(q@),
                None => None,
            },
            tags: self.tags@.map_values(|s: String| s@),
            status: self.status@.map_values(|s: String| s@),
            author: match self.author {
                Some(a) => Some(a@),
                None => None,
            },
            artist: match self.artist {
                Some(a) => Some(a@),
                None => None,
            },
            year_from: self.year_from,
            year_to: self.year_to,
            min_rating: self.min_rating,
            sort_by: self.sort_by,
            sort_order: self.sort_order,
            page: self.page,
            limit: self.limit,
        }
    }
}


/// `x` placed into the ordered duplicate-free list `s`: dropped when it
/// is already present, else put before the first larger element.
pub open spec fn insert_str_set(x: Seq<char>, s: Seq<Seq<char>>) -> Seq<Seq<char>>
    decreases s.len(),
{
    if s.len() == 0 {
        seq![x]
    } else if x == s.first() {
        s
    } else if lex_lt(x, s.first()) {
        seq![x] + s
    } else {
        seq![s.first()] + insert_str_set(x, s.drop_first())
    }
}

/// The canonical set form of a list of strings: sorted lexicographically
/// with duplicates dropped, so two lists naming the same set have the
/// same form.
pub open spec fn canon_str_set(s: Seq<Seq<char>>) -> Seq<Seq<char>>
    decreases s.len(),
{
    if s.len() == 0 {
        Seq::empty()
    } else {
        insert_str_set(s.last(), canon_str_set(s.drop_last()))
    }
}

/// Insertion at the first place the order admits, or nothing when the
/// string is already there, is what `insert_str_set` denotes.
proof fn lemma_insert_str_set_at(x: Seq<char>, s: Seq<Seq<char>>, k: int)
    requires
        0 <= k <= s.len(),
        forall|j: int| 0 <= j < k ==> #[trigger] s[j] != x && !lex_lt(x, s[j]),
        k < s.len() ==> (x == s[k] || lex_lt(x, s[k])),
    ensures
        insert_str_set(x, s) == if k < s.len() && x == s[k] {
            s
        } else {
            s.take(k) + seq![x] + s.skip(k)
        },
    decreases s.len(),
{
    if s.len() == 0 {
        assert(insert_str_set(x, s) =~= s.take(0) + seq![x] + s.skip(0));
    } else if x == s.first() {
        assert(k == 0);
    } else if lex_lt(x, s.first()) {
        assert(k == 0);
        assert(insert_str_set(x, s) =~= s.take(0) + seq![x] + s.skip(0));
    } else {
        assert(k >= 1);
        let rest = s.drop_first();
        lemma_insert_str_set_at(x, rest, k - 1);
        if k - 1 < rest.len() && x == rest[k - 1] {
            assert(insert_str_set(x, s) == seq![s.first()] + rest);
            assert(seq![s.first()] + rest =~= s);
        } else {
            assert(insert_str_set(x, s) == seq![s.first()] + (rest.take(k - 1) + seq![x]
                + rest.skip(k - 1)));
            assert(seq![s.first()] + (rest.take(k - 1) + seq![x] + rest.skip(k - 1)) =~= s.take(k)
                + seq![x] + s.skip(k));
        }
    }
}

/// Places one string into an ordered duplicate-free vector.
#[verifier::loop_isolation(false)]
fn insert_str_set_exec(out: &mut Vec<String>, x: String)
    ensures
        final(out)@.map_values(|t: String| t@) == insert_str_set(
            x@,
            old(out)@.map_values(|t: String| t@),
        ),
{
    let ghost views = out@.map_values(|t: String| t@);
    let xc = chars_of(x.as_str());
    let n = out.len();
    let mut k: usize = 0;
    while k < n
        invariant
            n == out.len(),
            out@.map_values(|t: String| t@) == views,
            xc@ == x@,
            k <= n,
            forall|j: int| 0 <= j < k ==> #[trigger] views[j] != x@ && !lex_lt(x@, views[j]),
        decreases n - k,
    {
        if str_eq(out[k].as_str(), x.as_str()) {
            proof {
                lemma_insert_str_set_at(x@, views, k as int);
            }
            return ;
        }
        let yc = chars_of(out[k].as_str());
        if chars_lt(&xc, &yc) {
            proof {
                lemma_insert_str_set_at(x@, views, k as int);
            }
            out.insert(k, x);
            proof {
                assert(out@.map_values(|t: String| t@) =~= views.take(k as int) + seq![x@]
                    + views.skip(k as int));
            }
            return ;
        }
        k = k + 1;
    }
    proof {
        lemma_insert_str_set_at(x@, views, n as int);
    }
    out.push(x);
    proof {
        assert(out@.map_values(|t: String| t@) =~= views.take(n as int) + seq![x@] + views.skip(
            n as int,
        ));
    }
}

/// The canonical set form of a vector of strings.
#[verifier::loop_isolation(false)]
fn canon_str_set_exec(v: &Vec<String>) -> (r: Vec<String>)
    ensures
        r@.map_values(|t: String| t@) == canon_str_set(v@.map_values(|t: String| t@)),
{
    let ghost views = v@.map_values(|t: String| t@);
    let mut out: Vec<String> = Vec::new();
    let mut i: usize = 0;
    proof {
        assert(out@.map_values(|t: String| t@) =~= canon_str_set(views.take(0)));
    }
    while i < v.len()
        invariant
            views == v@.map_values(|t: String| t@),
            i <= v.len(),
            out@.map_values(|t: String| t@) == canon_str_set(views.take(i as int)),
        decreases v.len() - i,
    {
        insert_str_set_exec(&mut out, v[i].clone());
        i = i + 1;
        proof {
            assert(views.take(i as int).drop_last() =~= views.take(i - 1));
            assert(views.take(i as int).last() == views[i - 1]);
        }
    }
    proof {
        assert(views.take(views.len() as int) =~= views);
    }
    out
}

/// The normalized form of raw parameters: an empty query is no query, a
/// missing tag or status list constrains nothing, the tag and status
/// lists are taken as sets (sorted, duplicates dropped), the sort
/// defaults to newest updates first, the page is clamped to at least 1
/// and the limit into 1..=100.
pub open spec fn normalize_spec(p: AdvancedSearchParamsV) -> NormalizedSearchV {
    NormalizedSearchV {
        query: match p.query {
            Some(q) => if q.len() == 0 {
                None
            } else {
                Some(q)
            },
            None => None,
        },
        tags: match p.tags {
            Some(t) => canon_str_set(t),
            None => Seq::empty(),
        },
        status: match p.status {
            Some(t) => canon_str_set(t),
            None => Seq::empty(),
        },
        author: p.author,
        artist: p.artist,
        year_from: p.year_from,
        year_to: p.year_to,
        min_rating: p.min_rating,
        sort_by: match p.sort_by {
            Some(f) => f,
            None => SortField::UpdatedAt,
        },
        sort_order: match p.sort_order {
            Some(o) => o,
            None => SortOrder::Desc,
        },
        page: {
            let raw = match p.page {
                Some(v) => v,
                None => 1u32,
            };
            if raw < 1 {
                1u32
            } else {
                raw
            }
        },
        limit: {
            let raw = match p.limit {
                Some(v) => v,
                None => 20u32,
            };
            if raw < 1 {
                1u32
            } else if raw > 100 {
                100u32
            } else {
                raw
            }
        },
    }
}

impl AdvancedSearchParams {
    /// Normalizes the parameters; the result always has a page of at
    /// least 1 and a limit within 1..=100.
    pub fn normalize(&self) -> (r: NormalizedSearch)
        ensures
            r@ == normalize_spec(self@),
            r.page >= 1,
            1 <= r.limit <= 100,
    {
        let query = match &self.query {
            Some(q) => {
                if q.as_str().is_empty() {
                    None
                } else {
                    Some(q.clone())
                }
            },
            None => None,
        };
        let tags = match &self.tags {
            Some(t) => canon_str_set_exec(t),
            None => Vec::new(),
        };
        let status = match &self.status {
            Some(t) => canon_str_set_exec(t),
            None => Vec::new(),
        };
        let author = match &self.author {
            Some(a) => Some(a.clone()),
            None => None,
        };
        let artist = match &self.artist {
            Some(a) => Some(a.clone()),
            None => None,
        };
        let sort_by = match self.sort_by {
            Some(f) => f,
            None => SortField::UpdatedAt,
        };
        let sort_order = match self.sort_order {
            Some(o) => o,
            None => SortOrder::Desc,
        };
        let page_raw = match self.page {
            Some(v) => v,
            None => 1,
        };
        let limit_raw = match self.limit {
            Some(v) => v,
            None => 20,
        };
        let r = NormalizedSearch {
            query,
            tags,
            status,
            author,
            artist,
            year_from: self.year_from,
            year_to: self.year_to,
            min_rating: self.min_rating,
            sort_by,
            sort_order,
            page: if page_raw < 1 {
                1
            } else {
                page_raw
            },
            limit: if limit_raw < 1 {
                1
            } else if limit_raw > 100 {
                100
            } else {
                limit_raw
            },
        };
        proof {
            let empty: Seq<Seq<char>> = Seq::empty();
            assert(Seq::<String>::empty().map_values(|s: String| s@) =~= empty);
        }
        r
    }

    /// The number of documents skipped before the requested page, under
    /// the normalized page and limit.
    pub fn skip_amount(page: u32, limit: u32) -> (r: u64)
        requires
            page >= 1,
        ensures
            r == (page - 1) * limit,
    {
        proof {
            assert((page - 1) * limit <= 0xffff_ffff * 0xffff_ffff) by (nonlinear_arith)
                requires
                    1 <= page <= 0xffff_ffffu32,
                    limit <= 0xffff_ffffu32,
            ;
        }
        (page as u64 - 1) * limit as u64
    }
}

/// The query parameters of the title-search endpoint.
pub struct SearchQueryParams {
    pub title: String,
    pub limit: Option<u32>,
    pub offset: Option<u32>,
}



} // verus!
