//! The catalog document and the search response envelope, with the byte
//! framing under which responses are cached.
use vstd::prelude::*;
use crate::codec::Cacheable;
use crate::codec::enc_u8;
use crate::codec::enc_u64;
use crate::codec::enc_str;
use crate::codec::enc_str_list;
use crate::codec::sparse_u8;
use crate::codec::sparse_u64;
use crate::codec::sparse_str;
use crate::codec::sparse_str_list;
use crate::codec::parse_u8;
use crate::codec::parse_u64;
use crate::codec::parse_string;
use crate::codec::parse_string_list;
use crate::codec::push_u64;
use crate::codec::push_str_enc;
use crate::codec::push_str_list;
use crate::codec::lemma_peel;
use crate::codec::lemma_sparse_enc_u64;
use crate::codec::lemma_sparse_enc_str;
use crate::codec::lemma_sparse_enc_str_list;

verus! {

/// A catalog document, with the fields the search layer filters and sorts
/// on. Timestamps count seconds; the rating is in hundredths of a star.
pub struct Manga {
    pub id: u64,
    pub title: String,
    pub description: String,
    pub author: String,
    pub artist: String,
    pub status: String,
    pub tags: Vec<String>,
    pub year: Option<u16>,
    pub rating: u32,
    pub popularity: u64,
    pub created_at: u64,
    pub updated_at: u64,
}

/// The mathematical value of a catalog document.
pub ghost struct MangaV {
    pub id: u64,
    pub title: Seq<char>,
    pub description: Seq<char>,
    pub author: Seq<char>,
    pub artist: Seq<char>,
    pub status: Seq<char>,
    pub tags: Seq<Seq<char>>,
    pub year: Option<u16>,
    pub rating: u32,
    pub popularity: u64,
    pub created_at: u64,
    pub updated_at: u64,
}

impl View for Manga {
    type V = MangaV;

    open spec fn view(&self) -> MangaV {
        MangaV {
            id: self.id,
            title: self.title@,
            description: self.description@,
            author: self.author@,
            artist: self.artist@,
            status: self.status@,
            tags: self.tags@.map_values(|s: String| s@),
            year: self.year,
            rating: self.rating,
            popularity: self.popularity,
            created_at: self.created_at,
            updated_at: self.updated_at,
        }
    }
}

/// Copies a vector of strings.
pub fn clone_strings(v: &Vec<String>) -> (r: Vec<String>)
    ensures
        r@.map_values(|s: String| s@) == v@.map_values(|s: String| s@),
{
    let mut r: Vec<String> = Vec::new();
    let mut i: usize = 0;
    while i < v.len()
        invariant
            i <= v.len(),
            r@.len() == i,
            forall|k: int| 0 <= k < i ==> r@[k]@ == v@[k]@,
        decreases v.len() - i,
    {
        r.push(v[i].clone());
        i = i + 1;
    }
    proof {
        assert(r@.map_values(|s: String| s@) =~= v@.map_values(|s: String| s@));
    }
    r
}

impl Clone for Manga {
    fn clone(&self) -> (res: Self)
        ensures
            res@ == self@,
    {
        let res = Manga {
            id: self.id,
            title: self.title.clone(),
            description: self.description.clone(),
            author: self.author.clone(),
            artist: self.artist.clone(),
            status: self.status.clone(),
            tags: clone_strings(&self.tags),
            year: self.year,
            rating: self.rating,
            popularity: self.popularity,
            created_at: self.created_at,
            updated_at: self.updated_at,
        };
        res
    }
}

/// The image of an optional year: a presence byte, then the value.
pub open spec fn enc_opt_u16(y: Option<u16>) -> Seq<u8> {
    match y {
        None => enc_u8(0),
        Some(v) => enc_u8(1) + enc_u64(v as u64),
    }
}

/// What parsing an optional year at `i` yields.
pub open spec fn sparse_opt_u16(b: Seq<u8>, i: int) -> Option<(Option<u16>, int)> {
    match sparse_u8(b, i) {
        Some((tag, j)) => if tag == 0 {
            Some((None, j))
        } else if tag == 1 {
            match sparse_u64(b, j) {
                Some((v, k)) => if v <= u16::MAX {
                    Some((Some(v as u16), k))
                } else {
                    None
                },
                None => None,
            }
        } else {
            None
        },
        None => None,
    }
}

/// Parses an optional year at `i`.
pub fn parse_opt_u16(b: &Vec<u8>, i: usize) -> (r: Option<(Option<u16>, usize)>)
    requires
        i <= b@.len(),
    ensures
        sparse_opt_u16(b@, i as int) == match r {
            Some((y, j)) => Some((y, j as int)),
            None => None::<(Option<u16>, int)>,
        },
        r matches Some(p) ==> p.1 <= b@.len(),
{
    match parse_u8(b, i) {
        Some((tag, j)) => {
            if tag == 0 {
                Some((None, j))
            } else if tag == 1 {
                match parse_u64(b, j) {
                    Some((v, k)) => {
                        if v > u16::MAX as u64 {
                            return None;
                        }
                        Some((Some(v as u16), k))
                    },
                    None => None,
                }
            } else {
                None
            }
        },
        None => None,
    }
}

/// Parsing right after an encoded optional year returns it.
proof fn lemma_sparse_enc_opt_u16(b: Seq<u8>, i: int, y: Option<u16>)
    requires
        0 <= i,
        i + enc_opt_u16(y).len() <= b.len(),
        b.subrange(i, i + enc_opt_u16(y).len() as int) == enc_opt_u16(y),
    ensures
        sparse_opt_u16(b, i) == Some((y, i + enc_opt_u16(y).len())),
{
    match y {
        None => {
            assert(b[i] == enc_opt_u16(y)[0]);
        },
        Some(v) => {
            lemma_peel(b, i, enc_u8(1), enc_u64(v as u64));
            assert(b[i] == enc_u8(1)[0]);
            lemma_sparse_enc_u64(b, i + 1, v as u64);
        },
    }
}

/// The image of a document: each field in order.
pub open spec fn enc_manga(m: MangaV) -> Seq<u8> {
    enc_u64(m.id) + (enc_str(m.title) + (enc_str(m.description) + (enc_str(m.author) + (enc_str(
        m.artist,
    ) + (enc_str(m.status) + (enc_str_list(m.tags) + (enc_opt_u16(m.year) + (enc_u64(
        m.rating as u64,
    ) + (enc_u64(m.popularity) + (enc_u64(m.created_at) + enc_u64(m.updated_at)))))))))))
}

/// Bounds under which a document's image is faithful.
pub open spec fn manga_bounded(m: MangaV) -> bool {
    &&& m.title.len() <= usize::MAX
    &&& m.description.len() <= usize::MAX
    &&& m.author.len() <= usize::MAX
    &&& m.artist.len() <= usize::MAX
    &&& m.status.len() <= usize::MAX
    &&& m.tags.len() <= usize::MAX
    &&& forall|t: int| 0 <= t < m.tags.len() ==> #[trigger] m.tags[t].len() <= usize::MAX
}

/// What parsing a document at `i` yields.
pub open spec fn sparse_manga(b: Seq<u8>, i: int) -> Option<(MangaV, int)> {
    match sparse_u64(b, i) {
        Some((id, p1)) => match sparse_str(b, p1) {
            Some((title, p2)) => match sparse_str(b, p2) {
                Some((description, p3)) => match sparse_str(b, p3) {
                    Some((author, p4)) => match sparse_str(b, p4) {
                        Some((artist, p5)) => match sparse_str(b, p5) {
                            Some((status, p6)) => match sparse_str_list(b, p6) {
                                Some((tags, p7)) => match sparse_opt_u16(b, p7) {
                                    Some((year, p8)) => match sparse_u64(b, p8) {
                                        Some((rating, p9)) => if rating <= u32::MAX {
                                            match sparse_u64(b, p9) {
                                                Some((popularity, p10)) => match sparse_u64(
                                                    b,
                                                    p10,
                                                ) {
                                                    Some((created_at, p11)) => match sparse_u64(
                                                        b,
                                                        p11,
                                                    ) {
                                                        Some((updated_at, p12)) => Some(
                                                            (
                                                                MangaV {
                                                                    id,
                                                                    title,
                                                                    description,
                                                                    author,
                                                                    artist,
                                                                    status,
                                                                    tags,
                                                                    year,
                                                                    rating: rating as u32,
                                                                    popularity,
                                                                    created_at,
                                                                    updated_at,
                                                                },
                                                                p12,
                                                            ),
                                                        ),
                                                        None => None,
                                                    },
                                                    None => None,
                                                },
                                                None => None,
                                            }
                                        } else {
                                            None
                                        },
                                        None => None,
                                    },
                                    None => None,
                                },
                                None => None,
                            },
                            None => None,
                        },
                        None => None,
                    },
                    None => None,
                },
                None => None,
            },
            None => None,
        },
        None => None,
    }
}

/// Appends the image of document `m` to `out`.
#[verifier::rlimit(60)]
pub fn push_manga(m: &Manga, out: &mut Vec<u8>)
    ensures
        final(out)@ == old(out)@ + enc_manga(m@),
        manga_bounded(m@),
{
    push_u64(m.id, out);
    push_str_enc(m.title.as_str(), out);
    push_str_enc(m.description.as_str(), out);
    push_str_enc(m.author.as_str(), out);
    push_str_enc(m.artist.as_str(), out);
    push_str_enc(m.status.as_str(), out);
    push_str_list(&m.tags, out);
    match m.year {
        None => out.push(0),
        Some(v) => {
            out.push(1);
            push_u64(v as u64, out);
        },
    }
    push_u64(m.rating as u64, out);
    push_u64(m.popularity, out);
    push_u64(m.created_at, out);
    push_u64(m.updated_at, out);
    proof {
        match m.year {
            None => {
                assert(enc_opt_u16(m@.year) =~= seq![0u8]);
            },
            Some(v) => {
                assert(enc_opt_u16(m@.year) =~= seq![1u8] + enc_u64(v as u64));
            },
        }
        assert(final(out)@ =~= old(out)@ + enc_manga(m@));
    }
}

/// Parses a document at `i`.
pub fn parse_manga(b: &Vec<u8>, i: usize) -> (r: Option<(Manga, usize)>)
    requires
        i <= b@.len(),
    ensures
        sparse_manga(b@, i as int) == match r {
            Some((m, j)) => Some((m@, j as int)),
            None => None::<(MangaV, int)>,
        },
        r matches Some(p) ==> p.1 <= b@.len(),
{
    let r1 = parse_u64(b, i);
    let (id, p1) = match r1 {
        Some(x) => x,
        None => {
            return None;
        },
    };
    let r2 = parse_string(b, p1);
    let (title, p2) = match r2 {
        Some(x) => x,
        None => {
            return None;
        },
    };
    let r3 = parse_string(b, p2);
    let (description, p3) = match r3 {
        Some(x) => x,
        None => {
            return None;
        },
    };
    let r4 = parse_string(b, p3);
    let (author, p4) = match r4 {
        Some(x) => x,
        None => {
            return None;
        },
    };
    let r5 = parse_string(b, p4);
    let (artist, p5) = match r5 {
        Some(x) => x,
        None => {
            return None;
        },
    };
    let r6 = parse_string(b, p5);
    let (status, p6) = match r6 {
        Some(x) => x,
        None => {
            return None;
        },
    };
    let r7 = parse_string_list(b, p6);
    let (tags, p7) = match r7 {
        Some(x) => x,
        None => {
            return None;
        },
    };
    let r8 = parse_opt_u16(b, p7);
    let (year, p8) = match r8 {
        Some(x) => x,
        None => {
            return None;
        },
    };
    let r9 = parse_u64(b, p8);
    let (rating, p9) = match r9 {
        Some(x) => x,
        None => {
            return None;
        },
    };
    if rating > u32::MAX as u64 {
        return None;
    }
    let r10 = parse_u64(b, p9);
    let (popularity, p10) = match r10 {
        Some(x) => x,
        None => {
            return None;
        },
    };
    let r11 = parse_u64(b, p10);
    let (created_at, p11) = match r11 {
        Some(x) => x,
        None => {
            return None;
        },
    };
    let r12 = parse_u64(b, p11);
    let (updated_at, p12) = match r12 {
        Some(x) => x,
        None => {
            return None;
        },
    };
    let m = Manga {
        id,
        title,
        description,
        author,
        artist,
        status,
        tags,
        year,
        rating: rating as u32,
        popularity,
        created_at,
        updated_at,
    };
    Some((m, p12))
}

/// Parsing right after an encoded document returns it.
#[verifier::rlimit(100)]
proof fn lemma_sparse_enc_manga(b: Seq<u8>, i: int, m: MangaV)
    requires
        0 <= i,
        manga_bounded(m),
        i + enc_manga(m).len() <= b.len(),
        b.subrange(i, i + enc_manga(m).len() as int) == enc_manga(m),
    ensures
        sparse_manga(b, i) == Some((m, i + enc_manga(m).len())),
{
    let e1 = enc_u64(m.id);
    let e2 = enc_str(m.title);
    let e3 = enc_str(m.description);
    let e4 = enc_str(m.author);
    let e5 = enc_str(m.artist);
    let e6 = enc_str(m.status);
    let e7 = enc_str_list(m.tags);
    let e8 = enc_opt_u16(m.year);
    let e9 = enc_u64(m.rating as u64);
    let e10 = enc_u64(m.popularity);
    let e11 = enc_u64(m.created_at);
    let e12 = enc_u64(m.updated_at);
    let p1 = i + e1.len();
    lemma_peel(b, i, e1, e2 + (e3 + (e4 + (e5 + (e6 + (e7 + (e8 + (e9 + (e10 + (e11 + e12))))))))));
    lemma_sparse_enc_u64(b, i, m.id);
    let p2 = p1 + e2.len();
    lemma_peel(b, p1, e2, e3 + (e4 + (e5 + (e6 + (e7 + (e8 + (e9 + (e10 + (e11 + e12)))))))));
    lemma_sparse_enc_str(b, p1, m.title);
    let p3 = p2 + e3.len();
    lemma_peel(b, p2, e3, e4 + (e5 + (e6 + (e7 + (e8 + (e9 + (e10 + (e11 + e12))))))));
    lemma_sparse_enc_str(b, p2, m.description);
    let p4 = p3 + e4.len();
    lemma_peel(b, p3, e4, e5 + (e6 + (e7 + (e8 + (e9 + (e10 + (e11 + e12)))))));
    lemma_sparse_enc_str(b, p3, m.author);
    let p5 = p4 + e5.len();
    lemma_peel(b, p4, e5, e6 + (e7 + (e8 + (e9 + (e10 + (e11 + e12))))));
    lemma_sparse_enc_str(b, p4, m.artist);
    let p6 = p5 + e6.len();
    lemma_peel(b, p5, e6, e7 + (e8 + (e9 + (e10 + (e11 + e12)))));
    lemma_sparse_enc_str(b, p5, m.status);
    let p7 = p6 + e7.len();
    lemma_peel(b, p6, e7, e8 + (e9 + (e10 + (e11 + e12))));
    lemma_sparse_enc_str_list(b, p6, m.tags);
    let p8 = p7 + e8.len();
    lemma_peel(b, p7, e8, e9 + (e10 + (e11 + e12)));
    lemma_sparse_enc_opt_u16(b, p7, m.year);
    let p9 = p8 + e9.len();
    lemma_peel(b, p8, e9, e10 + (e11 + e12));
    lemma_sparse_enc_u64(b, p8, m.rating as u64);
    let p10 = p9 + e10.len();
    lemma_peel(b, p9, e10, e11 + e12);
    lemma_sparse_enc_u64(b, p9, m.popularity);
    let p11 = p10 + e11.len();
    lemma_peel(b, p10, e11, e12);
    lemma_sparse_enc_u64(b, p10, m.created_at);
    lemma_sparse_enc_u64(b, p11, m.updated_at);
}

/// The image of a sequence of documents, in order.
pub open spec fn enc_mangas(v: Seq<MangaV>) -> Seq<u8>
    decreases v.len(),
{
    if v.len() == 0 {
        Seq::empty()
    } else {
        enc_mangas(v.drop_last()) + enc_manga(v.last())
    }
}

/// The document-sequence image can also be split at the front.
#[verifier::rlimit(100)]
proof fn lemma_enc_mangas_front(v: Seq<MangaV>)
    requires
        v.len() > 0,
    ensures
        enc_mangas(v) == enc_manga(v.first()) + enc_mangas(v.drop_first()),
    decreases v.len(),
{
    if v.len() == 1 {
        assert(v.drop_last() =~= Seq::<MangaV>::empty());
        assert(v.drop_first() =~= Seq::<MangaV>::empty());
        assert(enc_mangas(v) =~= enc_manga(v.first()) + enc_mangas(v.drop_first()));
    } else {
        let inner = v.drop_last();
        lemma_enc_mangas_front(inner);
        assert(v.drop_first().drop_last() =~= inner.drop_first());
        assert(v.drop_first().last() == v.last());
        assert(inner.first() == v.first());
        assert(enc_mangas(v.drop_first()) == enc_mangas(inner.drop_first()) + enc_manga(v.last()));
        assert(enc_mangas(v) =~= enc_manga(v.first()) + enc_mangas(v.drop_first()));
    }
}

/// What parsing `count` documents at `i` yields.
pub open spec fn sparse_mangas(b: Seq<u8>, i: int, count: int) -> Option<(Seq<MangaV>, int)>
    decreases count,
{
    if count <= 0 {
        Some((Seq::empty(), i))
    } else {
        match sparse_manga(b, i) {
            Some((m, j)) => match sparse_mangas(b, j, count - 1) {
                Some((v, k)) => Some((seq![m] + v, k)),
                None => None,
            },
            None => None,
        }
    }
}

/// Splitting a document-sequence parse after its first document.
proof fn lemma_sparse_mangas_step(b: Seq<u8>, i: int, count: int, m: MangaV, j: int)
    requires
        count > 0,
        sparse_manga(b, i) == Some((m, j)),
    ensures
        sparse_mangas(b, i, count) == match sparse_mangas(b, j, count - 1) {
            Some((v, k)) => Some((seq![m] + v, k)),
            None => None::<(Seq<MangaV>, int)>,
        },
{
}

/// A parsed document ends between its start and the end of the input.
proof fn lemma_sparse_manga_range(b: Seq<u8>, i: int)
    requires
        0 <= i,
    ensures
        sparse_manga(b, i) matches Some(p) ==> i + 8 <= p.1 <= b.len(),
{
    match sparse_u64(b, i) {
        Some((id, p1)) => {
            crate::codec::lemma_sparse_str_range(b, p1);
            match sparse_str(b, p1) {
                Some((t, p2)) => {
                    crate::codec::lemma_sparse_str_range(b, p2);
                    match sparse_str(b, p2) {
                        Some((d, p3)) => {
                            crate::codec::lemma_sparse_str_range(b, p3);
                            match sparse_str(b, p3) {
                                Some((a, p4)) => {
                                    crate::codec::lemma_sparse_str_range(b, p4);
                                    match sparse_str(b, p4) {
                                        Some((ar, p5)) => {
                                            crate::codec::lemma_sparse_str_range(b, p5);
                                            match sparse_str(b, p5) {
                                                Some((st, p6)) => {
                                                    lemma_sparse_str_list_range(b, p6);
                                                },
                                                None => {},
                                            }
                                        },
                                        None => {},
                                    }
                                },
                                None => {},
                            }
                        },
                        None => {},
                    }
                },
                None => {},
            }
        },
        None => {},
    }
}

/// A parsed string list ends between its start and the end of the input.
proof fn lemma_sparse_str_list_range(b: Seq<u8>, i: int)
    requires
        0 <= i,
    ensures
        sparse_str_list(b, i) matches Some(p) ==> i + 8 <= p.1 <= b.len(),
{
    match sparse_u64(b, i) {
        Some((n, j)) => {
            if n <= usize::MAX {
                crate::codec::lemma_sparse_strs_range(b, j, n as int);
            }
        },
        None => {},
    }
}

/// Parsing more documents than there are bytes left always fails.
proof fn lemma_sparse_mangas_none(b: Seq<u8>, i: int, count: int)
    requires
        0 <= i,
        0 < count,
        b.len() < i + count,
    ensures
        sparse_mangas(b, i, count) is None,
    decreases count,
{
    match sparse_manga(b, i) {
        Some(p) => {
            lemma_sparse_manga_range(b, i);
            if count == 1 {
                assert(false);
            } else {
                lemma_sparse_mangas_none(b, p.1, count - 1);
            }
        },
        None => {},
    }
}

/// Parses `count` documents at `i`.
pub fn parse_mangas(b: &Vec<u8>, i: usize, count: usize) -> (r: Option<(Vec<Manga>, usize)>)
    requires
        i <= b@.len(),
    ensures
        sparse_mangas(b@, i as int, count as int) == match r {
            Some((v, j)) => Some((v@.map_values(|m: Manga| m@), j as int)),
            None => None::<(Seq<MangaV>, int)>,
        },
        r matches Some(p) ==> p.1 <= b@.len(),
{
    let mut out: Vec<Manga> = Vec::new();
    let mut cur: usize = i;
    let mut done: usize = 0;
    proof {
        match sparse_mangas(b@, i as int, count as int) {
            Some(p) => {
                assert(Seq::<MangaV>::empty() + p.0 =~= p.0);
                assert(out@.map_values(|m: Manga| m@) =~= Seq::<MangaV>::empty());
            },
            None => {},
        }
    }
    while done < count
        invariant
            i <= b@.len(),
            cur <= b@.len(),
            done <= count,
            out@.len() == done,
            match sparse_mangas(b@, cur as int, (count - done) as int) {
                Some((v, k)) => sparse_mangas(b@, i as int, count as int) == Some(
                    (out@.map_values(|m: Manga| m@) + v, k),
                ),
                None => sparse_mangas(b@, i as int, count as int) is None,
            },
        decreases count - done,
    {
        let parsed = parse_manga(b, cur);
        match parsed {
            Some((m, j)) => {
                proof {
                    lemma_sparse_mangas_step(b@, cur as int, (count - done) as int, m@, j as int);
                    match sparse_mangas(b@, j as int, (count - done - 1) as int) {
                        Some(p) => {
                            assert(out@.map_values(|mm: Manga| mm@) + (seq![m@] + p.0)
                                =~= out@.push(m).map_values(|mm: Manga| mm@) + p.0);
                        },
                        None => {},
                    }
                }
                out.push(m);
                cur = j;
                done = done + 1;
            },
            None => {
                return None;
            },
        }
    }
    proof {
        assert(out@.map_values(|m: Manga| m@) + Seq::<MangaV>::empty() =~= out@.map_values(
            |m: Manga| m@,
        ));
    }
    Some((out, cur))
}

/// Bounds under which a document sequence's image is faithful.
pub open spec fn mangas_bounded(v: Seq<MangaV>) -> bool {
    &&& v.len() <= usize::MAX
    &&& forall|t: int| 0 <= t < v.len() ==> manga_bounded(#[trigger] v[t])
}

/// Parsing right after an encoded document sequence returns it.
#[verifier::rlimit(60)]
proof fn lemma_sparse_enc_mangas(b: Seq<u8>, i: int, v: Seq<MangaV>)
    requires
        0 <= i,
        forall|t: int| 0 <= t < v.len() ==> manga_bounded(#[trigger] v[t]),
        i + enc_mangas(v).len() <= b.len(),
        b.subrange(i, i + enc_mangas(v).len() as int) == enc_mangas(v),
    ensures
        sparse_mangas(b, i, v.len() as int) == Some((v, i + enc_mangas(v).len())),
    decreases v.len(),
{
    if v.len() == 0 {
        assert(sparse_mangas(b, i, 0) == Some((Seq::<MangaV>::empty(), i)));
        assert(Seq::<MangaV>::empty() =~= v);
    } else {
        let head = v.first();
        let rest = v.drop_first();
        lemma_enc_mangas_front(v);
        lemma_peel(b, i, enc_manga(head), enc_mangas(rest));
        lemma_sparse_enc_manga(b, i, head);
        lemma_sparse_enc_mangas(b, i + enc_manga(head).len(), rest);
        lemma_sparse_mangas_step(b, i, v.len() as int, head, i + enc_manga(head).len());
        assert(seq![head] + rest =~= v);
    }
}

/// Appends the image of each document of `v`, in order, to `out`.
pub fn push_mangas(v: &Vec<Manga>, out: &mut Vec<u8>)
    ensures
        final(out)@ == old(out)@ + enc_mangas(v@.map_values(|m: Manga| m@)),
        mangas_bounded(v@.map_values(|m: Manga| m@)),
{
    let ghost views = v@.map_values(|m: Manga| m@);
    let mut k: usize = 0;
    proof {
        assert(old(out)@ + enc_mangas(views.take(0)) =~= old(out)@);
    }
    while k < v.len()
        invariant
            views == v@.map_values(|m: Manga| m@),
            k <= v.len(),
            out@ == old(out)@ + enc_mangas(views.take(k as int)),
            forall|t: int| 0 <= t < k ==> manga_bounded(#[trigger] views[t]),
        decreases v.len() - k,
    {
        push_manga(&v[k], out);
        k = k + 1;
        proof {
            assert(views.take(k as int).drop_last() =~= views.take(k - 1));
            assert(views.take(k as int).last() == views[k - 1]);
            assert(out@ =~= old(out)@ + enc_mangas(views.take(k as int)));
        }
    }
    proof {
        assert(views.take(views.len() as int) =~= views);
    }
}

/// The search response envelope: the documents of the requested page, the
/// total count under the filter, and a human-readable summary.
pub struct MangaListResponse {
    pub success: bool,
    pub manga: Vec<Manga>,
    pub total_count: u64,
    pub message: String,
}

/// The mathematical value of a search response.
pub ghost struct MangaListResponseV {
    pub success: bool,
    pub manga: Seq<MangaV>,
    pub total_count: u64,
    pub message: Seq<char>,
}

impl View for MangaListResponse {
    type V = MangaListResponseV;

    open spec fn view(&self) -> MangaListResponseV {
        MangaListResponseV {
            success: self.success,
            manga: self.manga@.map_values(|m: Manga| m@),
            total_count: self.total_count,
            message: self.message@,
        }
    }
}

/// The image of a search response: each field in order.
pub open spec fn enc_response(r: MangaListResponseV) -> Seq<u8> {
    enc_u8(
        if r.success {
            1u8
        } else {
            0u8
        },
    ) + (enc_u64(r.total_count) + (enc_str(r.message) + (enc_u64(r.manga.len() as u64)
        + enc_mangas(r.manga))))
}

/// What parsing a search response from the whole of `b` yields.
pub open spec fn sparse_response(b: Seq<u8>) -> Option<MangaListResponseV> {
    match sparse_u8(b, 0) {
        Some((tag, p1)) => if tag <= 1 {
            match sparse_u64(b, p1) {
                Some((total_count, p2)) => match sparse_str(b, p2) {
                    Some((message, p3)) => match sparse_u64(b, p3) {
                        Some((n, p4)) => if n <= usize::MAX {
                            match sparse_mangas(b, p4, n as int) {
                                Some((manga, p5)) => if p5 == b.len() {
                                    Some(
                                        MangaListResponseV {
                                            success: tag == 1,
                                            manga,
                                            total_count,
                                            message,
                                        },
                                    )
                                } else {
                                    None
                                },
                                None => None,
                            }
                        } else {
                            None
                        },
                        None => None,
                    },
                    None => None,
                },
                None => None,
            }
        } else {
            None
        },
        None => None,
    }
}

impl Cacheable for MangaListResponse {
    type Repr = MangaListResponseV;

    open spec fn repr(&self) -> MangaListResponseV {
        self@
    }

    open spec fn bounded(&self) -> bool {
        self@.message.len() <= usize::MAX && mangas_bounded(self@.manga)
    }

    open spec fn encoding(&self) -> Seq<u8> {
        enc_response(self@)
    }

    open spec fn decoded(bytes: Seq<u8>) -> Option<MangaListResponseV> {
        sparse_response(bytes)
    }

    #[verifier::rlimit(100)]
    proof fn lemma_round_trip(&self) {
        let b = enc_response(self@);
        let e1 = enc_u8(
            if self@.success {
                1u8
            } else {
                0u8
            },
        );
        let e2 = enc_u64(self@.total_count);
        let e3 = enc_str(self@.message);
        let e4 = enc_u64(self@.manga.len() as u64);
        let e5 = enc_mangas(self@.manga);
        assert(b.subrange(0, b.len() as int) =~= b);
        lemma_peel(b, 0, e1, e2 + (e3 + (e4 + e5)));
        assert(b[0] == e1[0]);
        let p1 = e1.len() as int;
        lemma_peel(b, p1, e2, e3 + (e4 + e5));
        lemma_sparse_enc_u64(b, p1, self@.total_count);
        let p2 = p1 + e2.len();
        lemma_peel(b, p2, e3, e4 + e5);
        lemma_sparse_enc_str(b, p2, self@.message);
        let p3 = p2 + e3.len();
        lemma_peel(b, p3, e4, e5);
        lemma_sparse_enc_u64(b, p3, self@.manga.len() as u64);
        let p4 = p3 + e4.len();
        lemma_sparse_enc_mangas(b, p4, self@.manga);
    }

    fn encode(&self) -> (r: Vec<u8>) {
        let mut out: Vec<u8> = Vec::new();
        out.push(if self.success {
            1
        } else {
            0
        });
        push_u64(self.total_count, &mut out);
        push_str_enc(self.message.as_str(), &mut out);
        push_u64(self.manga.len() as u64, &mut out);
        push_mangas(&self.manga, &mut out);
        proof {
            assert(out@ =~= enc_response(self@));
        }
        out
    }

    #[verifier::rlimit(60)]
    fn decode(bytes: &Vec<u8>) -> (r: Option<MangaListResponse>) {
        let r1 = parse_u8(bytes, 0);
        let (tag, p1) = match r1 {
            Some(x) => x,
            None => {
                return None;
            },
        };
        if tag > 1 {
            return None;
        }
        let r2 = parse_u64(bytes, p1);
        let (total_count, p2) = match r2 {
            Some(x) => x,
            None => {
                return None;
            },
        };
        let r3 = parse_string(bytes, p2);
        let (message, p3) = match r3 {
            Some(x) => x,
            None => {
                return None;
            },
        };
        let r4 = parse_u64(bytes, p3);
        let (n, p4) = match r4 {
            Some(x) => x,
            None => {
                return None;
            },
        };
        if n > usize::MAX as u64 {
            return None;
        }
        if n > bytes.len() as u64 {
            proof {
                lemma_sparse_mangas_none(bytes@, p4 as int, n as int);
            }
            return None;
        }
        let r5 = parse_mangas(bytes, p4, n as usize);
        let (manga, p5) = match r5 {
            Some(x) => x,
            None => {
                return None;
            },
        };
        if p5 != bytes.len() {
            return None;
        }
        Some(MangaListResponse { success: tag == 1, manga, total_count, message })
    }
}

/// The list of title suggestions the autocomplete endpoint caches.
impl Cacheable for Vec<String> {
    type Repr = Seq<Seq<char>>;

    open spec fn repr(&self) -> Seq<Seq<char>> {
        self@.map_values(|s: String| s@)
    }

    open spec fn bounded(&self) -> bool {
        self@.len() <= usize::MAX && forall|t: int|
            0 <= t < self@.len() ==> (#[trigger] self@[t])@.len() <= usize::MAX
    }

    open spec fn encoding(&self) -> Seq<u8> {
        enc_str_list(self@.map_values(|s: String| s@))
    }

    open spec fn decoded(bytes: Seq<u8>) -> Option<Seq<Seq<char>>> {
        match sparse_str_list(bytes, 0) {
            Some((v, j)) => if j == bytes.len() {
                Some(v)
            } else {
                None
            },
            None => None,
        }
    }

    proof fn lemma_round_trip(&self) {
        let views = self@.map_values(|s: String| s@);
        let b = enc_str_list(views);
        assert(b.subrange(0, b.len() as int) =~= b);
        lemma_sparse_enc_str_list(b, 0, views);
    }

    fn encode(&self) -> (r: Vec<u8>) {
        let mut out: Vec<u8> = Vec::new();
        push_str_list(self, &mut out);
        proof {
            assert(out@ =~= enc_str_list(self@.map_values(|s: String| s@)));
        }
        out
    }

    fn decode(bytes: &Vec<u8>) -> (r: Option<Vec<String>>) {
        match parse_string_list(bytes, 0) {
            Some((v, j)) => {
                if j != bytes.len() {
                    return None;
                }
                Some(v)
            },
            None => None,
        }
    }
}


/// One chapter of a title, as the reader endpoints serve it.
pub struct Chapter {
    pub chapter_id: String,
    pub chapter_number: String,
    pub title: Option<String>,
    pub pages: Vec<String>,
    pub created_at: String,
}

/// The query parameters of the catalog listing endpoint.
pub struct MangaQuery {
    pub page: Option<i64>,
    pub limit: Option<i64>,
}

impl MangaQuery {
    /// The page and size a listing uses: the page at least 1, the size
    /// defaulting to 20 and capped at 100.
    pub fn normalized(&self) -> (r: (i64, i64))
        ensures
            r.0 == ({
                let p = match self.page {
                    Some(v) => v,
                    None => 1i64,
                };
                if p < 1 {
                    1i64
                } else {
                    p
                }
            }),
            r.1 == ({
                let l = match self.limit {
                    Some(v) => v,
                    None => 20i64,
                };
                if l > 100 {
                    100i64
                } else {
                    l
                }
            }),
    {
        let p = match self.page {
            Some(v) => v,
            None => 1,
        };
        let l = match self.limit {
            Some(v) => v,
            None => 20,
        };
        (
            if p < 1 {
                1
            } else {
                p
            },
            if l > 100 {
                100
            } else {
                l
            },
        )
    }
}

/// The query parameter of the plain search endpoint.
pub struct SearchQuery {
    pub q: String,
}


} // verus!
