//! Parsing of the backing store's raw stats text: the hit and miss
//! counters stand on lines of the form `keyspace_hits:<n>`, one record
//! per line; the last line for a counter wins, a missing or malformed
//! counter reads as zero.
use vstd::prelude::*;
use crate::store::CacheStats;
use crate::store::spec_hit_rate;
use crate::text::chars_of;
use crate::text::has_prefix;
use crate::text::starts_with_chars;

verus! {

/// True when every character is a decimal digit.
pub open spec fn all_digits(s: Seq<char>) -> bool {
    forall|i: int| 0 <= i < s.len() ==> 48 <= (#[trigger] s[i]) as u32 <= 57
}

/// The number a digit sequence denotes.
pub open spec fn dec_val(s: Seq<char>) -> int
    decreases s.len(),
{
    if s.len() == 0 {
        0
    } else {
        dec_val(s.drop_last()) * 10 + ((s.last() as u32) - 48)
    }
}

/// What a counter field reads as: its decimal value, or zero when the
/// field is empty, holds a non-digit, or does not fit the counter.
pub open spec fn counter_val(s: Seq<char>) -> u64 {
    if s.len() > 0 && all_digits(s) && dec_val(s) <= u64::MAX {
        dec_val(s) as u64
    } else {
        0
    }
}

/// Reads a counter field.
#[verifier::loop_isolation(false)]
fn parse_counter(cs: &Vec<char>) -> (r: u64)
    ensures
        r == counter_val(cs@),
{
    let n = cs.len();
    let mut acc: u64 = 0;
    let mut over = false;
    let mut i: usize = 0;
    proof {
        assert(cs@.take(0) =~= Seq::<char>::empty());
    }
    while i < n
        invariant
            n == cs.len(),
            i <= n,
            all_digits(cs@.take(i as int)),
            !over ==> acc == dec_val(cs@.take(i as int)),
            over ==> dec_val(cs@.take(i as int)) > u64::MAX,
        decreases n - i,
    {
        let c = cs[i];
        let u = c as u32;
        if u < 48 || u > 57 {
            proof {
                assert(!(48 <= cs@[i as int] as u32 <= 57));
            }
            return 0;
        }
        let d: u64 = (u - 48) as u64;
        proof {
            assert(cs@.take(i + 1).drop_last() =~= cs@.take(i as int));
            assert(cs@.take(i + 1).last() == cs@[i as int]);
        }
        if !over {
            let q = (u64::MAX - d) / 10;
            proof {
                vstd::arithmetic::div_mod::lemma_fundamental_div_mod(
                    (u64::MAX - d) as int,
                    10int,
                );
            }
            if acc > q {
                over = true;
            } else {
                acc = acc * 10 + d;
            }
        }
        i = i + 1;
        proof {
            assert(all_digits(cs@.take(i as int)));
        }
    }
    proof {
        assert(cs@.take(n as int) =~= cs@);
    }
    if over {
        0
    } else if n == 0 {
        0
    } else {
        acc
    }
}

/// The characters before the first colon, the whole rest if it has none.
pub open spec fn upto_colon(s: Seq<char>) -> Seq<char>
    decreases s.len(),
{
    if s.len() == 0 {
        Seq::empty()
    } else if s.first() == ':' {
        Seq::empty()
    } else {
        seq![s.first()] + upto_colon(s.drop_first())
    }
}

/// Copies the characters of `cs` from `start` up to the first colon.
#[verifier::loop_isolation(false)]
fn take_upto_colon(cs: &Vec<char>, start: usize) -> (r: Vec<char>)
    requires
        start <= cs@.len(),
    ensures
        r@ == upto_colon(cs@.skip(start as int)),
{
    let n = cs.len();
    let mut r: Vec<char> = Vec::new();
    let mut j: usize = start;
    proof {
        assert(r@ + upto_colon(cs@.skip(start as int)) =~= upto_colon(cs@.skip(start as int)));
    }
    while j < n && cs[j] != ':'
        invariant
            n == cs.len(),
            start <= j <= n,
            upto_colon(cs@.skip(start as int)) == r@ + upto_colon(cs@.skip(j as int)),
        decreases n - j,
    {
        r.push(cs[j]);
        j = j + 1;
        proof {
            assert(cs@.skip(j - 1).first() == cs@[j - 1]);
            assert(cs@.skip(j - 1).drop_first() =~= cs@.skip(j as int));
            assert(upto_colon(cs@.skip(j - 1)) =~= seq![cs@[j - 1]] + upto_colon(
                cs@.skip(j as int),
            ));
        }
    }
    proof {
        if j < n {
            assert(cs@.skip(j as int).first() == cs@[j as int]);
            assert(upto_colon(cs@.skip(j as int)) =~= Seq::<char>::empty());
        } else {
            assert(cs@.skip(j as int) =~= Seq::<char>::empty());
        }
        assert(r@ =~= upto_colon(cs@.skip(start as int)));
    }
    r
}

/// The text split at newlines, a trailing final newline closing the last
/// line rather than opening an empty one.
pub open spec fn split_lines(s: Seq<char>) -> Seq<Seq<char>>
    decreases s.len(),
{
    if s.len() == 0 {
        Seq::empty()
    } else if s.first() == '\n' {
        seq![Seq::<char>::empty()] + split_lines(s.drop_first())
    } else {
        let rest = split_lines(s.drop_first());
        if rest.len() == 0 {
            seq![seq![s.first()]]
        } else {
            seq![seq![s.first()] + rest.first()] + rest.drop_first()
        }
    }
}

/// Splitting starts with everything before the first newline.
proof fn lemma_split_lines_first(s: Seq<char>, j: int)
    requires
        s.len() > 0,
        0 <= j <= s.len(),
        forall|t: int| 0 <= t < j ==> s[t] != '\n',
        j < s.len() ==> s[j] == '\n',
    ensures
        split_lines(s) == if j == s.len() {
            seq![s]
        } else {
            seq![s.take(j)] + split_lines(s.skip(j + 1))
        },
    decreases s.len(),
{
    if j == 0 {
        assert(s[0] == '\n');
        assert(split_lines(s) == seq![Seq::<char>::empty()] + split_lines(s.drop_first()));
        assert(s.take(0) =~= Seq::<char>::empty());
        assert(s.skip(1) =~= s.drop_first());
    } else {
        let rest = s.drop_first();
        assert(forall|t: int| 0 <= t < j - 1 ==> #[trigger] rest[t] == s[t + 1]);
        if rest.len() == 0 {
            assert(j == s.len());
            assert(rest =~= Seq::<char>::empty());
            assert(split_lines(Seq::<char>::empty()) =~= Seq::<Seq<char>>::empty());
            assert(split_lines(s) == seq![seq![s.first()]]);
            assert(seq![s.first()] =~= s);
        } else if j == s.len() {
            if j - 1 < rest.len() {
                assert(rest[j - 1] == s[j]);
            }
            lemma_split_lines_first(rest, j - 1);
            assert(split_lines(rest) == seq![rest]);
            assert(split_lines(s) == seq![seq![s.first()] + rest] + split_lines(
                rest,
            ).drop_first());
            assert(seq![s.first()] + rest =~= s);
            assert(split_lines(s) =~= seq![s]);
        } else {
            if j - 1 < rest.len() {
                assert(rest[j - 1] == s[j]);
            }
            lemma_split_lines_first(rest, j - 1);
            assert(split_lines(rest) == seq![rest.take(j - 1)] + split_lines(rest.skip(j)));
            assert(split_lines(rest).len() > 0);
            assert(split_lines(s) == seq![seq![s.first()] + split_lines(rest).first()]
                + split_lines(rest).drop_first());
            assert(seq![s.first()] + rest.take(j - 1) =~= s.take(j));
            assert(rest.skip(j) =~= s.skip(j + 1));
            assert(split_lines(rest).drop_first() =~= split_lines(s.skip(j + 1)));
            assert(split_lines(s) =~= seq![s.take(j)] + split_lines(s.skip(j + 1)));
        }
    }
}

/// Splits the characters of the text into its lines.
#[verifier::loop_isolation(false)]
fn split_lines_exec(cs: &Vec<char>) -> (r: Vec<Vec<char>>)
    ensures
        r@.map_values(|l: Vec<char>| l@) == split_lines(cs@),
{
    let n = cs.len();
    let mut lines: Vec<Vec<char>> = Vec::new();
    let mut pos: usize = 0;
    proof {
        assert(cs@.skip(0) =~= cs@);
        assert(lines@.map_values(|l: Vec<char>| l@) + split_lines(cs@.skip(0)) =~= split_lines(
            cs@,
        ));
    }
    while pos < n
        invariant
            n == cs.len(),
            pos <= n,
            split_lines(cs@) == lines@.map_values(|l: Vec<char>| l@) + split_lines(
                cs@.skip(pos as int),
            ),
        decreases n - pos,
    {
        let mut j: usize = pos;
        while j < n && cs[j] != '\n'
            invariant
                n == cs.len(),
                pos <= j <= n,
                forall|t: int| pos <= t < j ==> cs@[t] != '\n',
            decreases n - j,
        {
            j = j + 1;
        }
        let mut line: Vec<char> = Vec::new();
        let mut t: usize = pos;
        while t < j
            invariant
                pos <= t <= j <= n,
                n == cs.len(),
                line@ == cs@.subrange(pos as int, t as int),
            decreases j - t,
        {
            line.push(cs[t]);
            t = t + 1;
            proof {
                assert(cs@.subrange(pos as int, t as int) =~= cs@.subrange(pos as int, t - 1).push(
                    cs@[t - 1],
                ));
            }
        }
        proof {
            let tail = cs@.skip(pos as int);
            assert(forall|u: int| 0 <= u < j - pos ==> #[trigger] tail[u] == cs@[u + pos]);
            if j < n {
                assert(tail[j - pos] == cs@[j as int]);
            }
            lemma_split_lines_first(tail, j - pos);
            assert(tail.take(j - pos) =~= cs@.subrange(pos as int, j as int));
            if j < n {
                assert(tail.skip(j - pos + 1) =~= cs@.skip(j + 1));
            } else {
                assert(tail =~= cs@.subrange(pos as int, j as int));
            }
        }
        let ghost before = lines@.map_values(|l: Vec<char>| l@);
        let ghost oldpos = pos as int;
        lines.push(line);
        if j < n {
            pos = j + 1;
        } else {
            pos = n;
        }
        proof {
            assert(lines@.map_values(|l: Vec<char>| l@) =~= before.push(
                cs@.subrange(oldpos, j as int),
            ));
            if j < n {
                assert(split_lines(cs@) =~= lines@.map_values(|l: Vec<char>| l@) + split_lines(
                    cs@.skip(pos as int),
                ));
            } else {
                assert(cs@.skip(pos as int) =~= Seq::<char>::empty());
                assert(split_lines(Seq::<char>::empty()) =~= Seq::<Seq<char>>::empty());
                assert(split_lines(cs@) =~= lines@.map_values(|l: Vec<char>| l@) + split_lines(
                    cs@.skip(pos as int),
                ));
            }
        }
    }
    proof {
        assert(cs@.skip(n as int) =~= Seq::<char>::empty());
        assert(split_lines(Seq::<char>::empty()) =~= Seq::<Seq<char>>::empty());
        assert(lines@.map_values(|l: Vec<char>| l@) =~= split_lines(cs@));
    }
    lines
}

/// The line with a trailing carriage return removed, as the store's
/// network protocol ends its lines.
pub open spec fn strip_cr(l: Seq<char>) -> Seq<char> {
    if l.len() > 0 && l.last() == '\r' {
        l.drop_last()
    } else {
        l
    }
}

/// The counters the lines leave behind: the last `keyspace_hits:` and
/// `keyspace_misses:` lines win; a counter no line names stays unset.
pub open spec fn stats_opt(lines: Seq<Seq<char>>) -> (Option<u64>, Option<u64>)
    decreases lines.len(),
{
    if lines.len() == 0 {
        (None, None)
    } else {
        let prev = stats_opt(lines.drop_last());
        let l = strip_cr(lines.last());
        if has_prefix(l, "keyspace_hits:"@) {
            (Some(counter_val(upto_colon(l.skip(14)))), prev.1)
        } else if has_prefix(l, "keyspace_misses:"@) {
            (prev.0, Some(counter_val(upto_colon(l.skip(16)))))
        } else {
            prev
        }
    }
}

/// The hit and miss counters a stats text reports; zero where the text
/// names none.
pub open spec fn spec_info_stats(s: Seq<char>) -> (u64, u64) {
    let o = stats_opt(split_lines(s));
    (
        match o.0 {
            Some(h) => h,
            None => 0u64,
        },
        match o.1 {
            Some(m) => m,
            None => 0u64,
        },
    )
}

/// Reads the hit and miss counters out of the store's raw stats text and
/// computes the hit rate they yield.
#[verifier::loop_isolation(false)]
#[verifier::rlimit(100)]
pub fn parse_info_stats(info: &str) -> (r: CacheStats)
    ensures
        r.hits == spec_info_stats(info@).0,
        r.misses == spec_info_stats(info@).1,
        r.hit_rate == spec_hit_rate(r.hits, r.misses),
{
    let cs = chars_of(info);
    let lines = split_lines_exec(&cs);
    let hits_prefix = chars_of("keyspace_hits:");
    let misses_prefix = chars_of("keyspace_misses:");
    let ghost views = lines@.map_values(|l: Vec<char>| l@);
    let mut hits: u64 = 0;
    let mut hits_seen = false;
    let mut misses: u64 = 0;
    let mut misses_seen = false;
    let mut i: usize = 0;
    proof {
        assert(views.take(0) =~= Seq::<Seq<char>>::empty());
        reveal_strlit("keyspace_hits:");
        reveal_strlit("keyspace_misses:");
    }
    while i < lines.len()
        invariant
            views == lines@.map_values(|l: Vec<char>| l@),
            hits_prefix@ == "keyspace_hits:"@,
            misses_prefix@ == "keyspace_misses:"@,
            i <= lines.len(),
            !hits_seen ==> hits == 0,
            !misses_seen ==> misses == 0,
            stats_opt(views.take(i as int)) == (
                if hits_seen {
                    Some(hits)
                } else {
                    None::<u64>
                },
                if misses_seen {
                    Some(misses)
                } else {
                    None::<u64>
                },
            ),
        decreases lines.len() - i,
    {
        let raw = &lines[i];
        let eff: usize = if raw.len() > 0 && raw[raw.len() - 1] == '\r' {
            raw.len() - 1
        } else {
            raw.len()
        };
        let mut line: Vec<char> = Vec::new();
        let mut t: usize = 0;
        while t < eff
            invariant
                eff <= raw@.len(),
                raw@ == views[i as int],
                t <= eff,
                line@ == raw@.subrange(0, t as int),
            decreases eff - t,
        {
            line.push(raw[t]);
            t = t + 1;
            proof {
                assert(raw@.subrange(0, t as int) =~= raw@.subrange(0, t - 1).push(raw@[t - 1]));
            }
        }
        proof {
            assert(line@ =~= strip_cr(views[i as int]));
        }
        if starts_with_chars(&line, &hits_prefix) {
            let field = take_upto_colon(&line, 14);
            hits = parse_counter(&field);
            hits_seen = true;
        } else if starts_with_chars(&line, &misses_prefix) {
            let field = take_upto_colon(&line, 16);
            misses = parse_counter(&field);
            misses_seen = true;
        }
        i = i + 1;
        proof {
            assert(views.take(i as int).drop_last() =~= views.take(i - 1));
            assert(views.take(i as int).last() == views[i - 1]);
        }
    }
    proof {
        assert(views.take(lines@.len() as int) =~= views);
    }
    let total: u128 = hits as u128 + misses as u128;
    if total == 0 {
        return CacheStats { hits, misses, hit_rate: 0 };
    }
    let rate128: u128 = (hits as u128 * 100) / total;
    proof {
        assert(rate128 <= 100) by (nonlinear_arith)
            requires
                total > 0,
                hits <= total,
                rate128 == (hits * 100) / (total as int),
        ;
    }
    CacheStats { hits, misses, hit_rate: rate128 as u64 }
}

} // verus!
