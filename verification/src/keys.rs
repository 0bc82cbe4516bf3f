//! Cache key derivation: fixed-shape keys for single entities, and the
//! hashed key for advanced searches, derived from a canonical byte image
//! of the normalized request so that equal requests always share a key.
use vstd::prelude::*;
use sha2::Digest;
use crate::codec::enc_u8;
use crate::codec::enc_u64;
use crate::codec::enc_str;
use crate::codec::enc_str_list;
use crate::codec::push_u64;
use crate::codec::push_str_enc;
use crate::codec::push_str_list;
use crate::manga::enc_opt_u16;
use crate::params::AdvancedSearchParamsV;
use crate::params::NormalizedSearch;
use crate::params::NormalizedSearchV;
use crate::params::SortField;
use crate::params::SortOrder;
use crate::params::normalize_spec;
use crate::text::dec_rep;
use crate::text::hex_rep;
use crate::text::push_dec;
use crate::text::push_hex;

verus! {

/// The image of an optional string: a presence byte, then the string.
pub open spec fn enc_opt_str(s: Option<Seq<char>>) -> Seq<u8> {
    match s {
        None => enc_u8(0),
        Some(q) => enc_u8(1) + enc_str(q),
    }
}

/// The image of an optional rating: a presence byte, then the value.
pub open spec fn enc_opt_u32(v: Option<u32>) -> Seq<u8> {
    match v {
        None => enc_u8(0),
        Some(x) => enc_u8(1) + enc_u64(x as u64),
    }
}

/// The byte standing for a sort field in the canonical image.
pub open spec fn sort_field_code(f: SortField) -> u8 {
    match f {
        SortField::Title => 0u8,
        SortField::UpdatedAt => 1u8,
        SortField::CreatedAt => 2u8,
        SortField::Rating => 3u8,
        SortField::Popularity => 4u8,
    }
}

/// The byte standing for a sort direction in the canonical image.
pub open spec fn sort_order_code(o: SortOrder) -> u8 {
    match o {
        SortOrder::Asc => 0u8,
        SortOrder::Desc => 1u8,
    }
}

/// The canonical byte image of a normalized request: every field in a
/// fixed schema order, never dependent on construction order.
pub open spec fn canon_params(n: NormalizedSearchV) -> Seq<u8> {
    enc_opt_str(n.query) + enc_str_list(n.tags) + enc_str_list(n.status) + enc_opt_str(n.author)
        + enc_opt_str(n.artist) + enc_opt_u16(n.year_from) + enc_opt_u16(n.year_to) + enc_opt_u32(
        n.min_rating,
    ) + enc_u8(sort_field_code(n.sort_by)) + enc_u8(sort_order_code(n.sort_order)) + enc_u64(
        n.page as u64,
    ) + enc_u64(n.limit as u64)
}

fn push_opt_str(s: &Option<String>, out: &mut Vec<u8>)
    ensures
        final(out)@ == old(out)@ + enc_opt_str(
            match *s {
                Some(q) => Some(q@),
                None => None,
            },
        ),
{
    match s {
        None => {
            out.push(0);
            proof {
                assert(final(out)@ =~= old(out)@ + enc_u8(0));
            }
        },
        Some(q) => {
            out.push(1);
            push_str_enc(q.as_str(), out);
            proof {
                assert(final(out)@ =~= old(out)@ + (enc_u8(1) + enc_str(q@)));
            }
        },
    }
}

fn push_opt_u16v(v: &Option<u16>, out: &mut Vec<u8>)
    ensures
        final(out)@ == old(out)@ + enc_opt_u16(*v),
{
    match v {
        None => {
            out.push(0);
            proof {
                assert(final(out)@ =~= old(out)@ + enc_u8(0));
            }
        },
        Some(x) => {
            out.push(1);
            push_u64(*x as u64, out);
            proof {
                assert(final(out)@ =~= old(out)@ + (enc_u8(1) + enc_u64(*x as u64)));
            }
        },
    }
}

fn push_opt_u32v(v: &Option<u32>, out: &mut Vec<u8>)
    ensures
        final(out)@ == old(out)@ + enc_opt_u32(*v),
{
    match v {
        None => {
            out.push(0);
            proof {
                assert(final(out)@ =~= old(out)@ + enc_u8(0));
            }
        },
        Some(x) => {
            out.push(1);
            push_u64(*x as u64, out);
            proof {
                assert(final(out)@ =~= old(out)@ + (enc_u8(1) + enc_u64(*x as u64)));
            }
        },
    }
}

fn push_code(code: u8, out: &mut Vec<u8>)
    ensures
        final(out)@ == old(out)@ + enc_u8(code),
{
    out.push(code);
    proof {
        assert(final(out)@ =~= old(out)@ + enc_u8(code));
    }
}

/// The canonical byte image of a normalized request, as executable code
/// builds it.
#[verifier::rlimit(80)]
pub fn canon_bytes(n: &NormalizedSearch) -> (r: Vec<u8>)
    ensures
        r@ == canon_params(n@),
{
    let mut out: Vec<u8> = Vec::new();
    push_opt_str(&n.query, &mut out);
    push_str_list(&n.tags, &mut out);
    push_str_list(&n.status, &mut out);
    push_opt_str(&n.author, &mut out);
    push_opt_str(&n.artist, &mut out);
    push_opt_u16v(&n.year_from, &mut out);
    push_opt_u16v(&n.year_to, &mut out);
    push_opt_u32v(&n.min_rating, &mut out);
    let field_code: u8 = match n.sort_by {
        SortField::Title => 0,
        SortField::UpdatedAt => 1,
        SortField::CreatedAt => 2,
        SortField::Rating => 3,
        SortField::Popularity => 4,
    };
    push_code(field_code, &mut out);
    let order_code: u8 = match n.sort_order {
        SortOrder::Asc => 0,
        SortOrder::Desc => 1,
    };
    push_code(order_code, &mut out);
    push_u64(n.page as u64, &mut out);
    push_u64(n.limit as u64, &mut out);
    proof {
        assert(field_code == sort_field_code(n@.sort_by));
        assert(order_code == sort_order_code(n@.sort_order));
        assert(Seq::<u8>::empty() + enc_opt_str(n@.query) =~= enc_opt_str(n@.query));
        assert(out@ == canon_params(n@));
    }
    out
}

/// The SHA-256 digest of a byte sequence; a function of the bytes alone.
pub uninterp spec fn sha256_of(bytes: Seq<u8>) -> Seq<u8>;

/// Relies on sha2::Sha256 through the Digest trait: the 32-byte SHA-256
/// digest of the input, depending on the input bytes alone.
#[verifier::external_body]
fn sha256(bytes: &Vec<u8>) -> (r: Vec<u8>)
    ensures
        r@ == sha256_of(bytes@),
        r@.len() == 32,
{
    sha2::Sha256::digest(bytes.as_slice()).to_vec()
}

/// The key an advanced search is cached under: the search namespace, then
/// the first sixteen hex digits of the digest of the canonical image.
pub open spec fn spec_advanced_key(n: NormalizedSearchV) -> Seq<char> {
    "search:advanced:"@ + hex_rep(sha256_of(canon_params(n))).take(16)
}

/// Derives the cache key for a normalized advanced search.
pub fn generate_cache_key(n: &NormalizedSearch) -> (r: String)
    ensures
        r@ == spec_advanced_key(n@),
        r@.len() == 32,
{
    let bytes = canon_bytes(n);
    let digest = sha256(&bytes);
    let mut first8: Vec<u8> = Vec::new();
    let mut i: usize = 0;
    while i < 8
        invariant
            digest@.len() == 32,
            i <= 8,
            first8@ == digest@.take(i as int),
        decreases 8 - i,
    {
        first8.push(digest[i]);
        i = i + 1;
        proof {
            assert(digest@.take(i as int) =~= digest@.take(i - 1).push(digest@[i - 1]));
        }
    }
    let mut key = String::from_str("search:advanced:");
    push_hex(first8.as_slice(), &mut key);
    proof {
        assert(hex_rep(first8@) =~= hex_rep(sha256_of(bytes@)).take(16));
        reveal_strlit("search:advanced:");
        assert(key@.len() == 32);
    }
    key
}

/// Keys are deterministic: two requests whose normalized field values
/// agree derive the same cache key.
pub proof fn lemma_cache_key_deterministic(p1: AdvancedSearchParamsV, p2: AdvancedSearchParamsV)
    requires
        normalize_spec(p1) == normalize_spec(p2),
    ensures
        spec_advanced_key(normalize_spec(p1)) == spec_advanced_key(normalize_spec(p2)),
{
}

/// The key a term's autocomplete suggestions are cached under.
pub open spec fn spec_autocomplete_key(term: Seq<char>) -> Seq<char> {
    "autocomplete:"@ + term
}

/// Derives the cache key for an autocomplete term.
pub fn autocomplete_key(term: &str) -> (r: String)
    ensures
        r@ == spec_autocomplete_key(term@),
{
    let mut key = String::from_str("autocomplete:");
    key.append(term);
    key
}

/// Every advanced-search key falls under the search namespace pattern, so
/// invalidating that namespace removes it.
pub proof fn lemma_search_key_in_namespace(n: NormalizedSearchV)
    ensures
        crate::store::key_matches(spec_advanced_key(n), "search:*"@),
{
    reveal_strlit("search:*");
    reveal_strlit("search:");
    reveal_strlit("search:advanced:");
    let key = spec_advanced_key(n);
    assert("search:*"@.drop_last() =~= "search:"@);
    assert(key.len() >= 16);
    assert(key.take(7) =~= "search:"@);
    assert(crate::text::has_prefix(key, "search:"@));
}

/// No autocomplete key falls under the search namespace pattern, so
/// invalidating searches leaves autocomplete entries standing.
pub proof fn lemma_autocomplete_key_outside_namespace(term: Seq<char>)
    ensures
        !crate::store::key_matches(spec_autocomplete_key(term), "search:*"@),
{
    reveal_strlit("search:*");
    reveal_strlit("search:");
    reveal_strlit("autocomplete:");
    let key = spec_autocomplete_key(term);
    assert("search:*"@.drop_last() =~= "search:"@);
    assert(key[0] == 'a');
    if crate::text::has_prefix(key, "search:"@) {
        assert(key.take(7)[0] == 's');
    }
}


/// The key a paged title search is cached under.
pub fn manga_search(query: &str, limit: u32, offset: u32) -> (r: String)
    ensures
        r@ == "manga:search:"@ + query@ + ":"@ + dec_rep(limit as int) + ":"@ + dec_rep(
            offset as int,
        ),
{
    let mut s = String::from_str("manga:search:");
    s.append(query);
    s.append(":");
    push_dec(limit as u64, &mut s);
    s.append(":");
    push_dec(offset as u64, &mut s);
    proof {
        assert(s@ =~= "manga:search:"@ + query@ + ":"@ + dec_rep(limit as int) + ":"@ + dec_rep(
            offset as int,
        ));
    }
    s
}

/// The key a single title's details are cached under.
pub fn manga_details(manga_id: &str) -> (r: String)
    ensures
        r@ == "manga:details:"@ + manga_id@,
{
    let mut s = String::from_str("manga:details:");
    s.append(manga_id);
    s
}

/// The key a title's chapter list is cached under, per language.
pub fn manga_chapters(manga_id: &str, lang: &str) -> (r: String)
    ensures
        r@ == "manga:chapters:"@ + manga_id@ + ":"@ + lang@,
{
    let mut s = String::from_str("manga:chapters:");
    s.append(manga_id);
    s.append(":");
    s.append(lang);
    proof {
        assert(s@ =~= "manga:chapters:"@ + manga_id@ + ":"@ + lang@);
    }
    s
}

/// The key a user's profile is cached under.
pub fn user_profile(user_id: &str) -> (r: String)
    ensures
        r@ == "user:profile:"@ + user_id@,
{
    let mut s = String::from_str("user:profile:");
    s.append(user_id);
    s
}

/// The key a user's library is cached under.
pub fn user_library(user_id: &str) -> (r: String)
    ensures
        r@ == "user:library:"@ + user_id@,
{
    let mut s = String::from_str("user:library:");
    s.append(user_id);
    s
}

/// The key a user's reading progress for one title is cached under.
pub fn user_progress(user_id: &str, manga_id: &str) -> (r: String)
    ensures
        r@ == "user:progress:"@ + user_id@ + ":"@ + manga_id@,
{
    let mut s = String::from_str("user:progress:");
    s.append(user_id);
    s.append(":");
    s.append(manga_id);
    proof {
        assert(s@ =~= "user:progress:"@ + user_id@ + ":"@ + manga_id@);
    }
    s
}

} // verus!
