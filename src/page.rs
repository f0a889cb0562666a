//! The pagination query: a bounded, filterable walk over a caller-supplied,
//! ordered list of candidate periods for one owner.

use vstd::prelude::*;
use crate::bytes::{compare_periods, copy_bytes, period_cmp};
use crate::ledger::{AttestationContract, AttestationRecord, AttestationStatus, LedgerState};

verus! {

/// Largest number of results that one page returns, whatever the caller asks.
pub const QUERY_LIMIT_MAX: u32 = 30;

/// Which statuses a page accepts.
#[derive(Clone, Copy, Debug, PartialEq, Eq, Structural)]
pub enum StatusFilter {
    Active,
    Revoked,
    All,
}

/// One accepted attestation of a page.
#[derive(Clone, Debug, PartialEq, Eq)]
pub struct PageEntry {
    pub period: Vec<u8>,
    pub merkle_root: [u8; 32],
    pub timestamp: u64,
    pub version: u32,
    pub status: AttestationStatus,
}

/// The abstract content of a page entry.
pub struct PageItem {
    pub period: Seq<u8>,
    pub record: AttestationRecord,
    pub status: AttestationStatus,
}

impl View for PageEntry {
    type V = PageItem;

    open spec fn view(&self) -> PageItem {
        PageItem {
            period: self.period@,
            record: AttestationRecord {
                merkle_root: self.merkle_root,
                timestamp: self.timestamp,
                version: self.version,
            },
            status: self.status,
        }
    }
}

/// The filters of one query, over abstract period identifiers.
pub struct PageFilter {
    pub start: Option<Seq<u8>>,
    pub end: Option<Seq<u8>>,
    pub status: StatusFilter,
    pub version: Option<u32>,
}

/// The abstract value of an optional byte string.
pub open spec fn opt_bytes(o: Option<Vec<u8>>) -> Option<Seq<u8>> {
    match o {
        Some(b) => Some(b@),
        None => None,
    }
}

/// The filters of a call, over abstract period identifiers.
pub open spec fn page_filter(
    start: Option<Vec<u8>>,
    end: Option<Vec<u8>>,
    status: StatusFilter,
    version: Option<u32>,
) -> PageFilter {
    PageFilter { start: opt_bytes(start), end: opt_bytes(end), status, version }
}

/// The abstract candidate list.
pub open spec fn periods_view(periods: Seq<Vec<u8>>) -> Seq<Seq<u8>> {
    periods.map_values(|p: Vec<u8>| p@)
}

/// The abstract content of a page.
pub open spec fn page_view(entries: Seq<PageEntry>) -> Seq<PageItem> {
    entries.map_values(|e: PageEntry| e@)
}

/// The page size actually used: the caller's limit, capped.
pub open spec fn effective_limit(limit: u32) -> nat {
    if limit < QUERY_LIMIT_MAX {
        limit as nat
    } else {
        QUERY_LIMIT_MAX as nat
    }
}

/// `p` lies within the inclusive bounds of `f`, where they are set.
pub open spec fn in_range(p: Seq<u8>, f: PageFilter) -> bool {
    &&& (f.start matches Some(s) ==> period_cmp(p, s) != -1)
    &&& (f.end matches Some(e) ==> period_cmp(p, e) != 1)
}

/// The status filter `sf` lets status `st` through.
pub open spec fn status_matches(sf: StatusFilter, st: AttestationStatus) -> bool {
    match sf {
        StatusFilter::All => true,
        StatusFilter::Active => st == AttestationStatus::Active,
        StatusFilter::Revoked => st == AttestationStatus::Revoked,
    }
}

/// The candidate `p` of `owner` goes into a page filtered by `f`.
pub open spec fn accepts(v: LedgerState, owner: Seq<u8>, p: Seq<u8>, f: PageFilter) -> bool {
    &&& in_range(p, f)
    &&& v.records.contains_key((owner, p))
    &&& status_matches(f.status, v.status((owner, p)))
    &&& (f.version matches Some(x) ==> v.records[(owner, p)].version == x)
}

/// The page item for the record of `owner` at `p`.
pub open spec fn item_of(v: LedgerState, owner: Seq<u8>, p: Seq<u8>) -> PageItem {
    PageItem { period: p, record: v.records[(owner, p)], status: v.status((owner, p)) }
}

/// The items of the accepted candidates among `ps`, in order.
pub open spec fn collect(v: LedgerState, owner: Seq<u8>, ps: Seq<Seq<u8>>, f: PageFilter) -> Seq<
    PageItem,
>
    decreases ps.len(),
{
    if ps.len() == 0 {
        Seq::empty()
    } else {
        let rest = collect(v, owner, ps.drop_last(), f);
        if accepts(v, owner, ps.last(), f) {
            rest.push(item_of(v, owner, ps.last()))
        } else {
            rest
        }
    }
}

/// Where a walk from index `i` stops once `wanted` more candidates have been
/// accepted: just past the last accepted one, or at the end of `ps`.
pub open spec fn scan_stop(
    v: LedgerState,
    owner: Seq<u8>,
    ps: Seq<Seq<u8>>,
    f: PageFilter,
    wanted: nat,
    i: int,
) -> int
    decreases ps.len() - i,
{
    if i >= ps.len() || wanted == 0 {
        i
    } else if accepts(v, owner, ps[i], f) {
        if wanted == 1 {
            i + 1
        } else {
            scan_stop(v, owner, ps, f, (wanted - 1) as nat, i + 1)
        }
    } else {
        scan_stop(v, owner, ps, f, wanted, i + 1)
    }
}

/// The cursor that a page starting at `cursor` hands back.
pub open spec fn page_next(
    v: LedgerState,
    owner: Seq<u8>,
    ps: Seq<Seq<u8>>,
    f: PageFilter,
    limit: u32,
    cursor: int,
) -> int {
    if cursor >= ps.len() {
        cursor
    } else {
        scan_stop(v, owner, ps, f, effective_limit(limit), cursor)
    }
}

/// The items of a page starting at `cursor`: the accepted candidates among
/// those it scanned.
pub open spec fn page_results(
    v: LedgerState,
    owner: Seq<u8>,
    ps: Seq<Seq<u8>>,
    f: PageFilter,
    limit: u32,
    cursor: int,
) -> Seq<PageItem> {
    if cursor >= ps.len() {
        Seq::empty()
    } else {
        collect(v, owner, ps.subrange(cursor, page_next(v, owner, ps, f, limit, cursor)), f)
    }
}

/// A walk that still wants results and has candidates left scans at least one
/// and stops within the list.
pub proof fn lemma_scan_stop_bounds(
    v: LedgerState,
    owner: Seq<u8>,
    ps: Seq<Seq<u8>>,
    f: PageFilter,
    wanted: nat,
    i: int,
)
    requires
        0 <= i < ps.len(),
        wanted > 0,
    ensures
        i < scan_stop(v, owner, ps, f, wanted, i) <= ps.len(),
    decreases ps.len() - i,
{
    reveal_with_fuel(scan_stop, 2);
    if accepts(v, owner, ps[i], f) {
        if wanted > 1 && i + 1 < ps.len() {
            lemma_scan_stop_bounds(v, owner, ps, f, (wanted - 1) as nat, i + 1);
        }
    } else if i + 1 < ps.len() {
        lemma_scan_stop_bounds(v, owner, ps, f, wanted, i + 1);
    }
}

/// Every page starting inside the list, with a positive limit, moves the
/// cursor forward and never past the end.
pub proof fn lemma_page_progress(
    v: LedgerState,
    owner: Seq<u8>,
    ps: Seq<Seq<u8>>,
    f: PageFilter,
    limit: u32,
    cursor: int,
)
    requires
        0 <= cursor < ps.len(),
        limit > 0,
    ensures
        cursor < page_next(v, owner, ps, f, limit, cursor) <= ps.len(),
{
    lemma_scan_stop_bounds(v, owner, ps, f, effective_limit(limit), cursor);
}

/// The cursor after `calls` pages, each started at the cursor the previous
/// one handed back.
pub open spec fn cursor_after(
    v: LedgerState,
    owner: Seq<u8>,
    ps: Seq<Seq<u8>>,
    f: PageFilter,
    limit: u32,
    cursor: int,
    calls: nat,
) -> int
    decreases calls,
{
    if calls == 0 {
        cursor
    } else {
        cursor_after(
            v,
            owner,
            ps,
            f,
            limit,
            page_next(v, owner, ps, f, limit, cursor),
            (calls - 1) as nat,
        )
    }
}

/// Paging terminates: feeding each returned cursor back in reaches the end of
/// the list, and stays there, once as many pages have been asked for as
/// candidates were left.
pub proof fn lemma_paging_terminates(
    v: LedgerState,
    owner: Seq<u8>,
    ps: Seq<Seq<u8>>,
    f: PageFilter,
    limit: u32,
    cursor: int,
    calls: nat,
)
    requires
        0 <= cursor <= ps.len(),
        limit > 0,
        calls >= ps.len() - cursor,
    ensures
        cursor_after(v, owner, ps, f, limit, cursor, calls) == ps.len(),
    decreases calls,
{
    if calls > 0 {
        let next = page_next(v, owner, ps, f, limit, cursor);
        if cursor < ps.len() {
            lemma_page_progress(v, owner, ps, f, limit, cursor);
        }
        lemma_paging_terminates(v, owner, ps, f, limit, next, (calls - 1) as nat);
    }
}

/// Whether `period` lies within the optional inclusive bounds.
fn within_bounds(period: &Vec<u8>, period_start: &Option<Vec<u8>>, period_end: &Option<Vec<u8>>) -> (r: bool)
    ensures
        r == in_range(period@, page_filter(*period_start, *period_end, StatusFilter::All, None)),
{
    let above_start = match period_start {
        Some(s) => compare_periods(period, s) != -1,
        None => true,
    };
    let below_end = match period_end {
        Some(e) => compare_periods(period, e) != 1,
        None => true,
    };
    above_start && below_end
}

impl AttestationContract {
    /// One page of the attestations of `business` among the candidate
    /// `periods`, starting at index `cursor`. The walk keeps the candidates
    /// within the optional inclusive bounds that hold a record whose status and
    /// version pass the filters, stops after `min(limit, QUERY_LIMIT_MAX)`
    /// results or at the end of the list, and hands back `cursor` plus the
    /// number of candidates scanned. A cursor at or past the end gives an empty
    /// page and comes back unchanged.
    pub fn get_attestations_page(
        &self,
        business: &Vec<u8>,
        periods: &Vec<Vec<u8>>,
        period_start: &Option<Vec<u8>>,
        period_end: &Option<Vec<u8>>,
        status_filter: StatusFilter,
        version_filter: Option<u32>,
        limit: u32,
        cursor: u32,
    ) -> (r: (Vec<PageEntry>, u32))
        requires
            self.wf(),
            periods@.len() <= u32::MAX,
        ensures
            ({
                let ps = periods_view(periods@);
                let f = page_filter(*period_start, *period_end, status_filter, version_filter);
                &&& r.1 == page_next(self@, business@, ps, f, limit, cursor as int)
                &&& page_view(r.0@) == page_results(self@, business@, ps, f, limit, cursor as int)
            }),
            r.0@.len() <= effective_limit(limit),
            r.0@.len() <= limit,
            r.0@.len() <= QUERY_LIMIT_MAX,
            cursor < periods@.len() && limit > 0 ==> cursor < r.1 <= periods@.len(),
            cursor >= periods@.len() ==> r.1 == cursor && r.0@.len() == 0,
    {
        let ghost ps = periods_view(periods@);
        let ghost f = page_filter(*period_start, *period_end, status_filter, version_filter);
        let ghost v = self@;
        let ghost owner = business@;
        let lim: u32 = if limit < QUERY_LIMIT_MAX {
            limit
        } else {
            QUERY_LIMIT_MAX
        };
        let len = periods.len();
        if cursor as usize >= len {
            return (Vec::new(), cursor);
        }
        proof {
            if limit > 0 {
                lemma_page_progress(v, owner, ps, f, limit, cursor as int);
            }
            assert(ps.subrange(cursor as int, cursor as int) =~= Seq::<Seq<u8>>::empty());
        }
        let mut out: Vec<PageEntry> = Vec::new();
        let mut i: usize = cursor as usize;
        while i < len && out.len() < lim as usize
            invariant
                self.wf(),
                v == self@,
                owner == business@,
                ps == periods_view(periods@),
                f == page_filter(*period_start, *period_end, status_filter, version_filter),
                len == periods@.len(),
                len <= u32::MAX,
                cursor < len,
                cursor <= i <= len,
                lim == effective_limit(limit),
                out@.len() <= lim,
                page_view(out@) == collect(v, owner, ps.subrange(cursor as int, i as int), f),
                out@.len() < lim ==> page_next(v, owner, ps, f, limit, cursor as int) == scan_stop(
                    v,
                    owner,
                    ps,
                    f,
                    (lim - out@.len()) as nat,
                    i as int,
                ),
                out@.len() == lim ==> page_next(v, owner, ps, f, limit, cursor as int) == i,
            decreases len - i,
        {
            let period = &periods[i];
            let ghost p = period@;
            let ghost wanted = (lim - out@.len()) as nat;
            assert(ps[i as int] == p);
            let ghost seen = ps.subrange(cursor as int, i as int);
            assert(ps.subrange(cursor as int, i + 1).drop_last() =~= seen);
            assert(ps.subrange(cursor as int, i + 1).last() == p);
            let mut accepted = false;
            if within_bounds(period, period_start, period_end) {
                if let Some(rec) = self.get_attestation(business, period) {
                    let status = self.get_status(business, period);
                    let status_ok = match status_filter {
                        StatusFilter::All => true,
                        StatusFilter::Active => matches!(status, AttestationStatus::Active),
                        StatusFilter::Revoked => matches!(status, AttestationStatus::Revoked),
                    };
                    let version_ok = match version_filter {
                        Some(x) => x == rec.version,
                        None => true,
                    };
                    if status_ok && version_ok {
                        let entry = PageEntry {
                            period: copy_bytes(period),
                            merkle_root: rec.merkle_root,
                            timestamp: rec.timestamp,
                            version: rec.version,
                            status,
                        };
                        let ghost before = out@;
                        out.push(entry);
                        accepted = true;
                        proof {
                            assert(entry@ == item_of(v, owner, p));
                            assert(page_view(out@) =~= page_view(before).push(entry@));
                        }
                    }
                }
            }
            assert(accepted == accepts(v, owner, p, f));
            i = i + 1;
        }
        (out, i as u32)
    }
}

} // verus!
