//! The report of a disc read check: the progress figure, which result rows
//! and damaged ranges are listed, and how the check ends.
use vstd::prelude::*;
use crate::strings::{get, message};
use crate::text::{
    chars_of, dec, fmt_dec, pad_left, pad_right, padded_left, padded_right, push_all, push_str,
    string_from, string_of, views,
};

verus! {

/// How a range of sectors read.
#[derive(Clone, Copy, Debug, PartialEq, Eq)]
pub enum SectorStatus {
    Good,
    Slow,
    Recovered,
    Bad,
}

/// The catalog key of a damaged range's status; good ranges are not listed.
pub open spec fn status_key_spec(s: SectorStatus) -> Option<Seq<char>> {
    match s {
        SectorStatus::Slow => Some("verify.status_slow"@),
        SectorStatus::Recovered => Some("verify.status_recovered"@),
        SectorStatus::Bad => Some("verify.status_bad"@),
        SectorStatus::Good => None,
    }
}

pub fn status_key(s: SectorStatus) -> (r: Option<&'static str>)
    ensures
        r matches Some(k) ==> status_key_spec(s) == Some(k@),
        r is None ==> status_key_spec(s) is None,
{
    match s {
        SectorStatus::Slow => Some("verify.status_slow"),
        SectorStatus::Recovered => Some("verify.status_recovered"),
        SectorStatus::Bad => Some("verify.status_bad"),
        SectorStatus::Good => None,
    }
}

/// The result rows: good sectors always, the slow, recovered and bad counts
/// only when not zero.
pub open spec fn result_rows_spec(good: u64, slow: u64, recovered: u64, bad: u64) -> Seq<
    (Seq<char>, u64),
> {
    seq![("verify.good"@, good)] + (if slow > 0 {
        seq![("verify.slow"@, slow)]
    } else {
        Seq::empty()
    }) + (if recovered > 0 {
        seq![("verify.recovered"@, recovered)]
    } else {
        Seq::empty()
    }) + (if bad > 0 {
        seq![("verify.bad"@, bad)]
    } else {
        Seq::empty()
    })
}

pub open spec fn row_views(rows: Seq<(&'static str, u64)>) -> Seq<(Seq<char>, u64)> {
    rows.map_values(|r: (&'static str, u64)| (r.0@, r.1))
}

pub fn result_rows(good: u64, slow: u64, recovered: u64, bad: u64) -> (r: Vec<(&'static str, u64)>)
    ensures
        row_views(r@) == result_rows_spec(good, slow, recovered, bad),
{
    let mut rows: Vec<(&'static str, u64)> = Vec::new();
    rows.push(("verify.good", good));
    let ghost r1 = row_views(rows@);
    if slow > 0 {
        rows.push(("verify.slow", slow));
    }
    let ghost r2 = row_views(rows@);
    assert(r2 =~= r1 + (if slow > 0 {
        seq![("verify.slow"@, slow)]
    } else {
        Seq::<(Seq<char>, u64)>::empty()
    }));
    if recovered > 0 {
        rows.push(("verify.recovered", recovered));
    }
    let ghost r3 = row_views(rows@);
    assert(r3 =~= r2 + (if recovered > 0 {
        seq![("verify.recovered"@, recovered)]
    } else {
        Seq::<(Seq<char>, u64)>::empty()
    }));
    if bad > 0 {
        rows.push(("verify.bad", bad));
    }
    assert(row_views(rows@) =~= r3 + (if bad > 0 {
        seq![("verify.bad"@, bad)]
    } else {
        Seq::<(Seq<char>, u64)>::empty()
    }));
    assert(r1 =~= seq![("verify.good"@, good)]);
    rows
}

/// A result row without its percentage: the label and a colon left-aligned
/// in eleven columns, a space, and the count right-aligned in twelve.
pub open spec fn row_head_text(label_key: Seq<char>, n: u64) -> Seq<char> {
    pad_right(message(label_key) + ":"@, 11) + " "@ + pad_left(dec(n as nat), 12, ' ')
}

pub fn row_head(label_key: &str, n: u64) -> (r: String)
    ensures
        r@ == row_head_text(label_key@, n),
{
    let mut label = chars_of(get(label_key).as_str());
    push_str(&mut label, ":");
    let mut v = padded_right(&label, 11);
    push_str(&mut v, " ");
    push_all(&mut v, &padded_left(&fmt_dec(n), 12, ' '));
    string_of(&v)
}

/// The number of bad ranges.
pub open spec fn bad_count(s: Seq<SectorStatus>) -> nat
    decreases s.len(),
{
    if s.len() == 0 {
        0
    } else {
        bad_count(s.drop_last()) + if s.last() is Bad {
            1nat
        } else {
            0nat
        }
    }
}

proof fn lemma_bad_count_bounded(s: Seq<SectorStatus>)
    ensures
        bad_count(s) <= s.len(),
    decreases s.len(),
{
    if s.len() > 0 {
        lemma_bad_count_bounded(s.drop_last());
    }
}

/// Whether a range stayed unreadable.
pub open spec fn is_bad(s: SectorStatus) -> bool {
    s is Bad
}

/// Every unreadable range counts once, wherever it stands, and nothing else
/// counts: the count is the number of positions whose status is `Bad`.
pub proof fn lemma_bad_count_counts_bad_positions(s: Seq<SectorStatus>)
    ensures
        bad_count(s) == s.filter(|x: SectorStatus| is_bad(x)).len(),
    decreases s.len(),
{
    reveal(Seq::filter);
    if s.len() > 0 {
        lemma_bad_count_counts_bad_positions(s.drop_last());
    }
}

/// The clusters of unrecoverable sectors: the ranges whose status is bad.
pub fn bad_clusters(statuses: &[SectorStatus]) -> (r: usize)
    ensures
        r == bad_count(statuses@),
        r == statuses@.filter(|x: SectorStatus| is_bad(x)).len(),
{
    proof {
        lemma_bad_count_counts_bad_positions(statuses@);
    }
    let mut n: usize = 0;
    let mut i: usize = 0;
    while i < statuses.len()
        invariant
            i <= statuses.len(),
            n == bad_count(statuses@.take(i as int)),
        decreases statuses.len() - i,
    {
        proof {
            assert(statuses@.take(i + 1).drop_last() =~= statuses@.take(i as int));
            lemma_bad_count_bounded(statuses@.take(i as int));
        }
        match statuses[i] {
            SectorStatus::Bad => {
                n = n + 1;
            },
            _ => {},
        }
        i = i + 1;
    }
    assert(statuses@.take(statuses.len() as int) =~= statuses@);
    n
}

/// The progress figure: whole percent of the work done, 0 while the total
/// is unknown.
pub fn progress_pct(done: u64, total: u64) -> (r: u64)
    requires
        done * 100 <= u64::MAX,
    ensures
        r == if total > 0 {
            ((done * 100) as int / total as int) as u64
        } else {
            0
        },
{
    if total > 0 {
        done * 100 / total
    } else {
        0
    }
}

/// The sum of sector counts.
pub open spec fn sector_sum(counts: Seq<u32>) -> nat
    decreases counts.len(),
{
    if counts.len() == 0 {
        0
    } else {
        sector_sum(counts.drop_last()) + counts.last() as nat
    }
}

proof fn lemma_sector_sum_grows(counts: Seq<u32>, i: int)
    requires
        0 <= i <= counts.len(),
    ensures
        sector_sum(counts.take(i)) <= sector_sum(counts),
    decreases counts.len() - i,
{
    if i < counts.len() {
        lemma_sector_sum_grows(counts, i + 1);
        assert(counts.take(i + 1).drop_last() =~= counts.take(i));
    } else {
        assert(counts.take(i) =~= counts);
    }
}

/// The sectors of a title: the sum of its extents' sector counts.
pub fn total_sectors(counts: &[u32]) -> (r: u64)
    requires
        sector_sum(counts@) <= u64::MAX,
    ensures
        r == sector_sum(counts@),
{
    let mut t: u64 = 0;
    let mut i: usize = 0;
    while i < counts.len()
        invariant
            i <= counts.len(),
            sector_sum(counts@) <= u64::MAX,
            t == sector_sum(counts@.take(i as int)),
        decreases counts.len() - i,
    {
        proof {
            assert(counts@.take(i + 1).drop_last() =~= counts@.take(i as int));
            lemma_sector_sum_grows(counts@, i + 1);
        }
        t = t + counts[i] as u64;
        i = i + 1;
    }
    assert(counts@.take(counts.len() as int) =~= counts@);
    t
}

/// The exit status of a check: failure when any sector stayed unreadable.
pub fn exit_status(bad: u64) -> (r: i32)
    ensures
        r == if bad > 0 {
            1i32
        } else {
            0i32
        },
{
    if bad > 0 {
        1
    } else {
        0
    }
}

/// The URL a check reads: the first argument, `disc://` without one.
pub fn verify_target(args: &[String]) -> (r: String)
    ensures
        r@ == if args@.len() > 0 {
            args@[0]@
        } else {
            "disc://"@
        },
{
    if args.len() > 0 {
        args[0].clone()
    } else {
        string_from("disc://")
    }
}

} // verus!
